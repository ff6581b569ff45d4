//! Telemetry and metrics collection.
//!
//! The collector counts events, bytes, allocations, and latency samples.
//! Counters saturate at their maximum instead of wrapping or panicking.
//! The wall-clock-dependent snapshot fields are computed by an exactly
//! specified function of the counters and the elapsed time.

use vstd::prelude::*;
use crate::clock;

verus! {

/// Telemetry collector for runtime metrics.
pub struct TelemetryCollector {
    running: bool,
    interval_ms: u64,
    start_time: std::time::Instant,
    events_processed: u64,
    bytes_processed: u64,
    allocations: u64,
    deallocations: u64,
    latency_sum: u64,
    latency_count: u64,
    latency_max: u64,
}

/// Snapshot of telemetry metrics.
#[derive(Debug, Clone, Copy, PartialEq, Eq, Structural)]
pub struct TelemetrySnapshot {
    /// Uptime in milliseconds.
    pub uptime_ms: u64,
    /// Total events processed.
    pub events_processed: u64,
    /// Total bytes processed.
    pub bytes_processed: u64,
    /// Events per second since start.
    pub events_per_second: u64,
    /// Throughput in whole megabytes per second since start.
    pub throughput_mbps: u64,
    /// Average latency in microseconds.
    pub avg_latency_us: u64,
    /// Maximum latency in microseconds.
    pub max_latency_us: u64,
    /// Total allocations recorded.
    pub allocations: u64,
    /// Total deallocations recorded.
    pub deallocations: u64,
}

/// A rate `count * scale / elapsed`, computed exactly and clamped to the
/// counter range; zero while no time has elapsed.
pub open spec fn spec_rate(count: u64, scale: u64, elapsed: u64) -> u64 {
    if elapsed == 0 {
        0u64
    } else if count * scale / (elapsed as int) > u64::MAX {
        u64::MAX
    } else {
        (count * scale / (elapsed as int)) as u64
    }
}

/// Exact rate computation over widened integers, clamped to `u64`.
fn rate(count: u64, scale: u64, elapsed: u64) -> (r: u64)
    requires
        scale > 0,
    ensures
        r == spec_rate(count, scale, elapsed),
{
    if elapsed == 0 {
        return 0;
    }
    assert((count as int) * (scale as int) <= 0xffff_ffff_ffff_ffff * 0xffff_ffff_ffff_ffff)
        by (nonlinear_arith)
        requires
            count <= 0xffff_ffff_ffff_ffffu64,
            scale <= 0xffff_ffff_ffff_ffffu64,
    ;
    let wide: u128 = (count as u128) * (scale as u128) / (elapsed as u128);
    if wide > u64::MAX as u128 {
        u64::MAX
    } else {
        wide as u64
    }
}

impl TelemetryCollector {
    /// Whether collection has been started.
    pub closed spec fn spec_running(&self) -> bool {
        self.running
    }

    /// The configured collection interval in milliseconds.
    pub closed spec fn spec_interval_ms(&self) -> u64 {
        self.interval_ms
    }

    /// Events recorded so far.
    pub closed spec fn spec_events(&self) -> u64 {
        self.events_processed
    }

    /// Bytes recorded so far.
    pub closed spec fn spec_bytes(&self) -> u64 {
        self.bytes_processed
    }

    /// Allocations recorded so far.
    pub closed spec fn spec_allocations(&self) -> u64 {
        self.allocations
    }

    /// Deallocations recorded so far.
    pub closed spec fn spec_deallocations(&self) -> u64 {
        self.deallocations
    }

    /// Sum of latency samples.
    pub closed spec fn spec_latency_sum(&self) -> u64 {
        self.latency_sum
    }

    /// Number of latency samples.
    pub closed spec fn spec_latency_count(&self) -> u64 {
        self.latency_count
    }

    /// Largest latency sample.
    pub closed spec fn spec_latency_max(&self) -> u64 {
        self.latency_max
    }

    /// The snapshot the collector yields after `uptime_ms` elapsed
    /// milliseconds: the counters as they stand, and the derived rates.
    pub open spec fn spec_snapshot(&self, uptime_ms: u64) -> TelemetrySnapshot {
        TelemetrySnapshot {
            uptime_ms,
            events_processed: self.spec_events(),
            bytes_processed: self.spec_bytes(),
            events_per_second: spec_rate(self.spec_events(), 1000, uptime_ms),
            throughput_mbps: spec_rate(self.spec_bytes(), 1000, uptime_ms) / (1024 * 1024) as u64,
            avg_latency_us: if self.spec_latency_count() > 0 {
                (self.spec_latency_sum() / self.spec_latency_count()) as u64
            } else {
                0u64
            },
            max_latency_us: self.spec_latency_max(),
            allocations: self.spec_allocations(),
            deallocations: self.spec_deallocations(),
        }
    }

    /// A collector with all counters at zero, stamped with the monotonic
    /// clock.
    pub fn new(interval_ms: u64) -> (c: TelemetryCollector)
        ensures
            !c.spec_running(),
            c.spec_interval_ms() == interval_ms,
            c.spec_events() == 0,
            c.spec_bytes() == 0,
            c.spec_allocations() == 0,
            c.spec_deallocations() == 0,
            c.spec_latency_sum() == 0,
            c.spec_latency_count() == 0,
            c.spec_latency_max() == 0,
    {
        TelemetryCollector {
            running: false,
            interval_ms,
            start_time: clock::instant_now(),
            events_processed: 0,
            bytes_processed: 0,
            allocations: 0,
            deallocations: 0,
            latency_sum: 0,
            latency_count: 0,
            latency_max: 0,
        }
    }

    /// Start collection.
    pub fn start(&mut self)
        ensures
            final(self).spec_running(),
            final(self).spec_snapshot(0) == old(self).spec_snapshot(0),
    {
        self.running = true;
    }

    /// Stop collection.
    pub fn stop(&mut self)
        ensures
            !final(self).spec_running(),
            final(self).spec_snapshot(0) == old(self).spec_snapshot(0),
    {
        self.running = false;
    }

    /// Record one processed event carrying `bytes` payload bytes.
    pub fn record_event(&mut self, bytes: u64)
        ensures
            final(self).spec_events() == old(self).spec_events().saturating_add(1),
            final(self).spec_bytes() == old(self).spec_bytes().saturating_add(bytes),
            final(self).spec_allocations() == old(self).spec_allocations(),
            final(self).spec_deallocations() == old(self).spec_deallocations(),
            final(self).spec_latency_sum() == old(self).spec_latency_sum(),
            final(self).spec_latency_count() == old(self).spec_latency_count(),
            final(self).spec_latency_max() == old(self).spec_latency_max(),
            final(self).spec_running() == old(self).spec_running(),
    {
        self.events_processed = self.events_processed.saturating_add(1);
        self.bytes_processed = self.bytes_processed.saturating_add(bytes);
    }

    /// Record a latency measurement in microseconds; the maximum tracks
    /// the largest sample seen.
    pub fn record_latency(&mut self, latency_us: u64)
        ensures
            final(self).spec_latency_sum() == old(self).spec_latency_sum().saturating_add(
                latency_us,
            ),
            final(self).spec_latency_count() == old(self).spec_latency_count().saturating_add(1),
            final(self).spec_latency_max() == if latency_us > old(self).spec_latency_max() {
                latency_us
            } else {
                old(self).spec_latency_max()
            },
            final(self).spec_events() == old(self).spec_events(),
            final(self).spec_bytes() == old(self).spec_bytes(),
            final(self).spec_allocations() == old(self).spec_allocations(),
            final(self).spec_deallocations() == old(self).spec_deallocations(),
            final(self).spec_running() == old(self).spec_running(),
    {
        self.latency_sum = self.latency_sum.saturating_add(latency_us);
        self.latency_count = self.latency_count.saturating_add(1);
        if latency_us > self.latency_max {
            self.latency_max = latency_us;
        }
    }

    /// Record an allocation.
    pub fn record_allocation(&mut self)
        ensures
            final(self).spec_allocations() == old(self).spec_allocations().saturating_add(1),
            final(self).spec_deallocations() == old(self).spec_deallocations(),
            final(self).spec_events() == old(self).spec_events(),
            final(self).spec_bytes() == old(self).spec_bytes(),
            final(self).spec_latency_sum() == old(self).spec_latency_sum(),
            final(self).spec_latency_count() == old(self).spec_latency_count(),
            final(self).spec_latency_max() == old(self).spec_latency_max(),
            final(self).spec_running() == old(self).spec_running(),
    {
        self.allocations = self.allocations.saturating_add(1);
    }

    /// Record a deallocation.
    pub fn record_deallocation(&mut self)
        ensures
            final(self).spec_deallocations() == old(self).spec_deallocations().saturating_add(1),
            final(self).spec_allocations() == old(self).spec_allocations(),
            final(self).spec_events() == old(self).spec_events(),
            final(self).spec_bytes() == old(self).spec_bytes(),
            final(self).spec_latency_sum() == old(self).spec_latency_sum(),
            final(self).spec_latency_count() == old(self).spec_latency_count(),
            final(self).spec_latency_max() == old(self).spec_latency_max(),
            final(self).spec_running() == old(self).spec_running(),
    {
        self.deallocations = self.deallocations.saturating_add(1);
    }

    /// The snapshot after a given elapsed time; exact in all fields.
    pub fn snapshot_at(&self, uptime_ms: u64) -> (r: TelemetrySnapshot)
        ensures
            r == self.spec_snapshot(uptime_ms),
    {
        TelemetrySnapshot {
            uptime_ms,
            events_processed: self.events_processed,
            bytes_processed: self.bytes_processed,
            events_per_second: rate(self.events_processed, 1000, uptime_ms),
            throughput_mbps: rate(self.bytes_processed, 1000, uptime_ms) / (1024 * 1024),
            avg_latency_us: if self.latency_count > 0 {
                self.latency_sum / self.latency_count
            } else {
                0
            },
            max_latency_us: self.latency_max,
            allocations: self.allocations,
            deallocations: self.deallocations,
        }
    }

    /// The current snapshot: the uptime is read from the monotonic clock,
    /// and every field is the specified function of the counters and that
    /// uptime.
    pub fn snapshot(&self) -> (r: TelemetrySnapshot)
        ensures
            r == self.spec_snapshot(r.uptime_ms),
    {
        let uptime_ms = clock::millis_since(&self.start_time);
        self.snapshot_at(uptime_ms)
    }

    /// Reset every counter to zero; the start time and running flag stay.
    pub fn reset(&mut self)
        ensures
            final(self).spec_events() == 0,
            final(self).spec_bytes() == 0,
            final(self).spec_latency_sum() == 0,
            final(self).spec_latency_count() == 0,
            final(self).spec_latency_max() == 0,
            final(self).spec_allocations() == 0,
            final(self).spec_deallocations() == 0,
            final(self).spec_running() == old(self).spec_running(),
            final(self).spec_interval_ms() == old(self).spec_interval_ms(),
    {
        self.events_processed = 0;
        self.bytes_processed = 0;
        self.latency_sum = 0;
        self.latency_count = 0;
        self.latency_max = 0;
        self.allocations = 0;
        self.deallocations = 0;
    }
}

} // verus!
