//! The CPU runtime engine: configuration, topology, allocator policy, and
//! telemetry, plus the byte-size formatter used for reporting.

use vstd::prelude::*;
use crate::ring_buffer::ZenithRingBuffer;
use crate::runtime_cpu::allocator::{AllocatorConfig, NumaAllocator};
use crate::runtime_cpu::config::EngineConfig;
use crate::runtime_cpu::numa::NumaTopology;
use crate::runtime_cpu::telemetry::{TelemetryCollector, TelemetrySnapshot};
use crate::runtime_cpu::Error;

verus! {

/// The CPU runtime engine.
pub struct CpuEngine {
    config: EngineConfig,
    topology: NumaTopology,
    allocator: NumaAllocator,
    running: bool,
    telemetry: Option<TelemetryCollector>,
}

impl CpuEngine {
    /// The configuration the engine was built with.
    pub closed spec fn spec_config(&self) -> EngineConfig {
        self.config
    }

    /// Whether the engine is running.
    pub closed spec fn spec_running(&self) -> bool {
        self.running
    }

    /// Whether telemetry collection is attached.
    pub closed spec fn spec_has_telemetry(&self) -> bool {
        self.telemetry is Some
    }

    /// The topology the engine was built with.
    pub closed spec fn spec_topology(&self) -> NumaTopology {
        self.topology
    }

    /// The allocator the engine was built with.
    pub closed spec fn spec_allocator(&self) -> NumaAllocator {
        self.allocator
    }

    /// Whether the attached telemetry collector, if any, is collecting.
    pub closed spec fn spec_telemetry_running(&self) -> bool {
        match self.telemetry {
            Some(t) => t.spec_running(),
            None => false,
        }
    }

    /// The attached collector's counters, frozen at zero uptime, for
    /// stating that an operation leaves them untouched.
    pub closed spec fn spec_telemetry_counters(&self) -> Option<TelemetrySnapshot> {
        match self.telemetry {
            Some(t) => Some(t.spec_snapshot(0)),
            None => None,
        }
    }

    /// Build an engine from a validated configuration and the discovered
    /// topology. Exactly the invalid configurations are rejected.
    /// Telemetry is attached exactly when the configuration enables it.
    pub fn new(config: EngineConfig, topology: NumaTopology) -> (r: Result<CpuEngine, Error>)
        ensures
            r is Ok <==> config.spec_valid(),
            r matches Ok(e) ==> {
                &&& e.spec_config() == config
                &&& e.spec_topology() == topology
                &&& !e.spec_running()
                &&& e.spec_has_telemetry() == config.telemetry_enabled
            },
            r matches Err(e) ==> e is Config,
    {
        match config.validate() {
            Ok(()) => {},
            Err(e) => { return Err(e) },
        }
        let allocator_config = AllocatorConfig {
            preferred_node: config.preferred_numa_node,
            use_hugepages: config.hugepages,
            ..AllocatorConfig::default()
        };
        let allocator = NumaAllocator::new(allocator_config);
        let telemetry = if config.telemetry_enabled {
            Some(TelemetryCollector::new(config.telemetry_interval_ms))
        } else {
            None
        };
        Ok(CpuEngine { config, topology, allocator, running: false, telemetry })
    }

    /// Mark the engine running and start telemetry. Rejected when it is
    /// already running, and only then.
    pub fn start(&mut self) -> (r: Result<(), Error>)
        ensures
            r is Ok <==> !old(self).spec_running(),
            r matches Err(e) ==> e is Config,
            r is Ok ==> final(self).spec_running(),
            r is Err ==> *final(self) == *old(self),
            final(self).spec_config() == old(self).spec_config(),
            final(self).spec_topology() == old(self).spec_topology(),
            final(self).spec_allocator() == old(self).spec_allocator(),
            final(self).spec_has_telemetry() == old(self).spec_has_telemetry(),
            r is Ok && old(self).spec_has_telemetry() ==> final(self).spec_telemetry_running(),
    {
        if self.running {
            return Err(Error::Config(String::from_str("Engine is already running")));
        }
        self.running = true;
        match &mut self.telemetry {
            Some(t) => t.start(),
            None => {},
        }
        Ok(())
    }

    /// Stop the engine and its telemetry: afterwards neither runs, and
    /// nothing else changes — a second stop is a no-op.
    pub fn stop(&mut self)
        ensures
            !final(self).spec_running(),
            !final(self).spec_telemetry_running(),
            final(self).spec_config() == old(self).spec_config(),
            final(self).spec_topology() == old(self).spec_topology(),
            final(self).spec_allocator() == old(self).spec_allocator(),
            final(self).spec_has_telemetry() == old(self).spec_has_telemetry(),
            final(self).spec_telemetry_counters() == old(self).spec_telemetry_counters(),
    {
        self.running = false;
        match &mut self.telemetry {
            Some(t) => t.stop(),
            None => {},
        }
    }

    /// Whether the engine is running.
    pub fn is_running(&self) -> (r: bool)
        ensures
            r == self.spec_running(),
    {
        self.running
    }

    /// The NUMA topology the engine was built with.
    pub fn topology(&self) -> (r: &NumaTopology)
        ensures
            *r == self.spec_topology(),
    {
        &self.topology
    }

    /// The configuration.
    pub fn config(&self) -> (r: &EngineConfig)
        ensures
            *r == self.spec_config(),
    {
        &self.config
    }

    /// The allocator.
    pub fn allocator(&self) -> (r: &NumaAllocator)
        ensures
            *r == self.spec_allocator(),
    {
        &self.allocator
    }

    /// A fresh event ring of the configured size.
    pub fn create_ring_buffer(&self) -> (r: ZenithRingBuffer)
        requires
            1 <= self.spec_config().ring_buffer_size <= 0x1000_0000,
        ensures
            r@.len() == 0,
            r.spec_capacity() == self.spec_config().ring_buffer_size,
    {
        ZenithRingBuffer::new(self.config.ring_buffer_size)
    }

    /// The telemetry collector, if the configuration enabled one.
    pub fn telemetry(&self) -> (r: Option<&TelemetryCollector>)
        ensures
            r is Some <==> self.spec_has_telemetry(),
    {
        self.telemetry.as_ref()
    }
}

/// The decimal digits of `n`, most significant first.
pub open spec fn spec_decimal(n: int) -> Seq<char>
    decreases n,
{
    if n < 10 {
        seq![spec_digit(n)]
    } else {
        spec_decimal(n / 10).push(spec_digit(n % 10))
    }
}

/// The character for one decimal digit; other values give '0'.
pub open spec fn spec_digit(d: int) -> char {
    if d == 1 {
        '1'
    } else if d == 2 {
        '2'
    } else if d == 3 {
        '3'
    } else if d == 4 {
        '4'
    } else if d == 5 {
        '5'
    } else if d == 6 {
        '6'
    } else if d == 7 {
        '7'
    } else if d == 8 {
        '8'
    } else if d == 9 {
        '9'
    } else {
        '0'
    }
}

/// The one-character string for a decimal digit.
fn digit_str(d: u64) -> (r: &'static str)
    requires
        d < 10,
    ensures
        r@ == seq![spec_digit(d as int)],
{
    let r: &'static str = match d {
        1 => "1",
        2 => "2",
        3 => "3",
        4 => "4",
        5 => "5",
        6 => "6",
        7 => "7",
        8 => "8",
        9 => "9",
        _ => "0",
    };
    proof {
        reveal_strlit("0");
        reveal_strlit("1");
        reveal_strlit("2");
        reveal_strlit("3");
        reveal_strlit("4");
        reveal_strlit("5");
        reveal_strlit("6");
        reveal_strlit("7");
        reveal_strlit("8");
        reveal_strlit("9");
    }
    r
}

/// Render `n` in decimal, most significant digit first.
pub fn u64_to_decimal(n: u64) -> (r: String)
    ensures
        r@ == spec_decimal(n as int),
    decreases n,
{
    if n < 10 {
        let mut s = String::new();
        s.append(digit_str(n));
        proof {
            assert(s@ =~= spec_decimal(n as int));
        }
        s
    } else {
        let mut s = u64_to_decimal(n / 10);
        s.append(digit_str(n % 10));
        proof {
            assert(s@ =~= spec_decimal(n as int));
        }
        s
    }
}

/// The formatted form of a byte count: scaled to the largest binary unit
/// it reaches, with two fraction digits rounded to nearest (halves up,
/// carrying into the whole part), or plain bytes below one kibibyte.
pub open spec fn spec_format_bytes(bytes: u64) -> Seq<char> {
    if bytes >= 1024 * 1024 * 1024 * 1024 {
        spec_scaled(bytes as int, 1024int * 1024 * 1024 * 1024) + " TB"@
    } else if bytes >= 1024 * 1024 * 1024 {
        spec_scaled(bytes as int, 1024int * 1024 * 1024) + " GB"@
    } else if bytes >= 1024 * 1024 {
        spec_scaled(bytes as int, 1024int * 1024) + " MB"@
    } else if bytes >= 1024 {
        spec_scaled(bytes as int, 1024int) + " KB"@
    } else {
        spec_decimal(bytes as int) + " bytes"@
    }
}

/// A quantity scaled by a unit, with the fraction rounded to two digits
/// (halves up): `whole.ff`, where a fraction that rounds to a full unit
/// carries into the whole part.
pub open spec fn spec_scaled(value: int, unit: int) -> Seq<char> {
    spec_decimal(spec_scaled_whole(value, unit)) + seq!['.'] + seq![
        spec_digit(spec_scaled_frac(value, unit) / 10),
        spec_digit(spec_scaled_frac(value, unit) % 10),
    ]
}

/// The whole part after rounding the fraction to two digits.
pub open spec fn spec_scaled_whole(value: int, unit: int) -> int {
    if (value % unit) * 100 + unit / 2 >= unit * 100 {
        value / unit + 1
    } else {
        value / unit
    }
}

/// The fraction, in hundredths, rounded to nearest with halves up; zero
/// when the rounding carried.
pub open spec fn spec_scaled_frac(value: int, unit: int) -> int {
    if (value % unit) * 100 + unit / 2 >= unit * 100 {
        0
    } else {
        ((value % unit) * 100 + unit / 2) / unit
    }
}

/// Append the scaled form of `bytes / unit` with two rounded fraction
/// digits.
fn push_scaled(s: &mut String, bytes: u64, unit: u64)
    requires
        1024 <= unit <= 1024 * 1024 * 1024 * 1024,
    ensures
        final(s)@ == old(s)@ + spec_scaled(bytes as int, unit as int),
{
    let mut whole = bytes / unit;
    let rem = bytes % unit;
    assert(rem < unit);
    assert(rem * 100 + unit / 2 < unit * 101) by (nonlinear_arith)
        requires
            rem < unit,
            unit >= 1024,
    ;
    let scaled = rem * 100 + unit / 2;
    let mut frac = scaled / unit;
    assert(frac <= 100) by (nonlinear_arith)
        requires
            frac == (scaled as int) / (unit as int),
            scaled < unit * 101,
            unit >= 1024,
    ;
    if frac >= 100 {
        assert(scaled >= unit * 100) by (nonlinear_arith)
            requires
                frac == (scaled as int) / (unit as int),
                frac >= 100,
                unit >= 1024,
        ;
        assert(whole < u64::MAX) by (nonlinear_arith)
            requires
                whole == (bytes as int) / (unit as int),
                unit >= 1024,
                bytes <= u64::MAX,
        ;
        whole = whole + 1;
        frac = 0;
        proof {
            assert(whole == spec_scaled_whole(bytes as int, unit as int));
            assert(frac == spec_scaled_frac(bytes as int, unit as int));
        }
    } else {
        proof {
            assert(scaled < unit * 100) by (nonlinear_arith)
                requires
                    frac == (scaled as int) / (unit as int),
                    frac < 100,
                    unit >= 1024,
            ;
            assert(whole == spec_scaled_whole(bytes as int, unit as int));
            assert(frac == spec_scaled_frac(bytes as int, unit as int));
        }
    }
    let whole_str = u64_to_decimal(whole);
    s.append(whole_str.as_str());
    s.append(".");
    s.append(digit_str(frac / 10));
    s.append(digit_str(frac % 10));
    proof {
        reveal_strlit(".");
        assert(s@ =~= old(s)@ + spec_scaled(bytes as int, unit as int));
    }
}

/// Format a byte count as a human-readable string: the largest binary
/// unit reached, with two truncated fraction digits, or plain bytes.
pub fn format_bytes(bytes: u64) -> (r: String)
    ensures
        r@ == spec_format_bytes(bytes),
{
    let mut s = String::new();
    if bytes >= 1024 * 1024 * 1024 * 1024 {
        push_scaled(&mut s, bytes, 1024 * 1024 * 1024 * 1024);
        s.append(" TB");
        proof {
            reveal_strlit(" TB");
            assert(s@ =~= spec_format_bytes(bytes));
        }
    } else if bytes >= 1024 * 1024 * 1024 {
        push_scaled(&mut s, bytes, 1024 * 1024 * 1024);
        s.append(" GB");
        proof {
            reveal_strlit(" GB");
            assert(s@ =~= spec_format_bytes(bytes));
        }
    } else if bytes >= 1024 * 1024 {
        push_scaled(&mut s, bytes, 1024 * 1024);
        s.append(" MB");
        proof {
            reveal_strlit(" MB");
            assert(s@ =~= spec_format_bytes(bytes));
        }
    } else if bytes >= 1024 {
        push_scaled(&mut s, bytes, 1024);
        s.append(" KB");
        proof {
            reveal_strlit(" KB");
            assert(s@ =~= spec_format_bytes(bytes));
        }
    } else {
        let d = u64_to_decimal(bytes);
        s.append(d.as_str());
        s.append(" bytes");
        proof {
            reveal_strlit(" bytes");
            assert(s@ =~= spec_format_bytes(bytes));
        }
    }
    s
}

} // verus!
