//! The data-plane engine: ring buffer, plugin host, and telemetry.
//!
//! Producers publish foreign record batches through the boundary; a single
//! consumer takes events off the ring and dispatches them to every loaded
//! plugin in registration order. The engine owes the foreign side exactly
//! one release per descriptor it accepted: on a rejected or dropped
//! publish it releases at once, and otherwise the release happens when the
//! event is destroyed after dispatch or at teardown.

use vstd::prelude::*;
use crate::dataplane::DataPlaneStats;
use crate::error::ZenithError;
use crate::event::{RecordBatch, ZenithEvent};
use crate::ring_buffer::ZenithRingBuffer;
use crate::wasm_host::WasmHost;

verus! {

/// What one plugin did with one event during dispatch.
#[derive(Clone, Copy, PartialEq, Eq, Structural, Debug)]
pub enum PluginOutcome {
    /// The plugin exports no `on_event`; dispatch was a no-op for it.
    Passive,
    /// `on_event` returned non-zero: the event is kept.
    Kept,
    /// `on_event` returned zero: the event is dropped downstream.
    Dropped,
    /// The plugin trapped; the event counts as dropped for it.
    Trapped,
}

/// What classifying a plugin's raw result yields: a passive plugin was
/// not consulted; a consulted one kept the event exactly when it
/// returned non-zero, and a trap counts as dropped.
pub open spec fn spec_outcome_of(r: Option<Result<i32, ZenithError>>) -> PluginOutcome {
    match r {
        None => PluginOutcome::Passive,
        Some(Ok(v)) => if v != 0 {
            PluginOutcome::Kept
        } else {
            PluginOutcome::Dropped
        },
        Some(Err(_)) => PluginOutcome::Trapped,
    }
}

/// The record of one dispatched event.
pub struct DispatchReport {
    /// Source identifier of the dispatched event.
    pub source_id: u32,
    /// Sequence number of the dispatched event.
    pub seq_no: u64,
    /// The raw result of each plugin's callback, in registration order;
    /// None for a passive plugin that was not consulted.
    pub results: Vec<Option<Result<i32, ZenithError>>>,
    /// One outcome per loaded plugin, classified from `results`.
    pub outcomes: Vec<PluginOutcome>,
    /// Whether every consulted plugin kept the event.
    pub accepted: bool,
    /// The released payload, for callers observing the release obligation.
    pub payload: Option<RecordBatch>,
}

impl DispatchReport {
    /// An event is accepted downstream exactly when no plugin dropped or
    /// trapped on it.
    pub open spec fn spec_accepted_of(outcomes: Seq<PluginOutcome>) -> bool {
        forall|i: int|
            0 <= i < outcomes.len() ==> !(outcomes[i] is Dropped || outcomes[i] is Trapped)
    }
}

/// The engine: the bounded event ring, the sandboxed plugin host, the
/// dispatch statistics, and the cooperative running flag.
pub struct ZenithEngine {
    buffer: ZenithRingBuffer,
    host: WasmHost,
    stats: DataPlaneStats,
    running: bool,
}

impl ZenithEngine {
    /// The queued events, oldest first.
    pub closed spec fn spec_buffer(&self) -> Seq<ZenithEvent> {
        self.buffer@
    }

    /// The ring capacity fixed at construction.
    pub closed spec fn spec_capacity(&self) -> nat {
        self.buffer.spec_capacity()
    }

    /// The loaded plugin identifiers, in registration order.
    pub closed spec fn spec_plugin_ids(&self) -> Seq<u64> {
        self.host.spec_ids()
    }

    /// The identifier the next loaded plugin will receive.
    pub closed spec fn spec_next_plugin_id(&self) -> u64 {
        self.host.spec_next_id()
    }

    /// Which loaded plugins are passive, in registration order.
    pub closed spec fn spec_plugin_passives(&self) -> Seq<bool> {
        self.host.spec_passives()
    }

    /// The dispatch statistics.
    pub closed spec fn spec_stats(&self) -> DataPlaneStats {
        self.stats
    }

    /// The cooperative running flag.
    pub closed spec fn spec_running(&self) -> bool {
        self.running
    }

    /// Every queued event still owes its release callbacks.
    pub open spec fn all_live(events: Seq<ZenithEvent>) -> bool {
        forall|i: int| 0 <= i < events.len() ==> (#[trigger] events[i]).spec_live()
    }

    /// Well-formed engine: the host registry is well formed and every
    /// queued event still owes its release callbacks.
    pub closed spec fn wf(&self) -> bool {
        &&& self.host.wf()
        &&& Self::all_live(self.spec_buffer())
    }

    /// Build an engine with an empty ring of `buffer_size` slots and no
    /// plugins. Fails only when the sandbox runtime cannot be constructed.
    pub fn new(buffer_size: usize) -> (r: Result<ZenithEngine, ZenithError>)
        requires
            1 <= buffer_size <= 0x1000_0000,
        ensures
            r matches Ok(e) ==> {
                &&& e.wf()
                &&& e.spec_buffer() == Seq::<ZenithEvent>::empty()
                &&& e.spec_capacity() == buffer_size
                &&& e.spec_plugin_ids() == Seq::<u64>::empty()
                &&& e.spec_stats() == (DataPlaneStats {
                    events_received: 0,
                    events_processed: 0,
                    events_dropped: 0,
                    bytes_processed: 0,
                })
                &&& e.spec_running()
            },
            r matches Err(err) ==> err is WasmError,
    {
        let host = match WasmHost::new() {
            Ok(h) => h,
            Err(e) => { return Err(e) },
        };
        Ok(
            ZenithEngine {
                buffer: ZenithRingBuffer::new(buffer_size),
                host,
                stats: DataPlaneStats {
                    events_received: 0,
                    events_processed: 0,
                    events_dropped: 0,
                    bytes_processed: 0,
                },
                running: true,
            },
        )
    }

    /// The ring, for observation.
    pub fn get_ring_buffer(&self) -> (r: &ZenithRingBuffer)
        ensures
            r@ == self.spec_buffer(),
    {
        &self.buffer
    }

    /// Current ring occupancy.
    pub fn buffer_len(&self) -> (r: usize)
        ensures
            r == self.spec_buffer().len(),
    {
        self.buffer.len()
    }

    /// Number of loaded plugins.
    pub fn plugin_count(&self) -> (r: usize)
        ensures
            r == self.spec_plugin_ids().len(),
    {
        self.host.plugin_count()
    }

    /// The identifier the next loaded plugin will receive; callers can
    /// test the load precondition against it.
    pub fn next_plugin_id(&self) -> (r: u64)
        ensures
            r == self.spec_next_plugin_id(),
    {
        self.host.next_id()
    }

    /// The dispatch statistics.
    pub fn get_stats(&self) -> (r: DataPlaneStats)
        ensures
            r == self.spec_stats(),
    {
        self.stats
    }

    /// Whether the consumer should keep running.
    pub fn is_running(&self) -> (r: bool)
        ensures
            r == self.spec_running(),
    {
        self.running
    }

    /// Mark the engine running; the surrounding runtime then drives the
    /// consumer loop.
    pub fn start(&mut self)
        requires
            old(self).wf(),
        ensures
            final(self).wf(),
            final(self).spec_running(),
            final(self).spec_buffer() == old(self).spec_buffer(),
            final(self).spec_plugin_ids() == old(self).spec_plugin_ids(),
            final(self).spec_stats() == old(self).spec_stats(),
    {
        self.running = true;
    }

    /// Take ownership of a record batch at the boundary and enqueue it as
    /// an event. Status 0 means enqueued: the release obligation moved
    /// into the queue. Status -4 means the descriptors were malformed and
    /// status -2 that the ring was full; in both cases the release
    /// callbacks have been driven exactly once and the released batch is
    /// handed back for observation.
    pub fn publish(&mut self, batch: RecordBatch, source_id: u32, seq_no: u64) -> (r: (
        i32,
        Option<RecordBatch>,
    ))
        requires
            old(self).wf(),
            batch.spec_live(),
        ensures
            final(self).wf(),
            final(self).spec_capacity() == old(self).spec_capacity(),
            final(self).spec_plugin_ids() == old(self).spec_plugin_ids(),
            final(self).spec_running() == old(self).spec_running(),
            !batch.spec_well_formed() ==> {
                &&& r.0 == -4
                &&& (r.1 matches Some(b) && b.spec_released())
                &&& final(self).spec_buffer() == old(self).spec_buffer()
                &&& final(self).spec_stats() == old(self).spec_stats()
            },
            batch.spec_well_formed() && old(self).spec_buffer().len() < old(self).spec_capacity()
                ==> {
                &&& r.0 == 0
                &&& r.1 is None
                &&& final(self).spec_buffer().len() == old(self).spec_buffer().len() + 1
                &&& final(self).spec_buffer().subrange(0, old(self).spec_buffer().len() as int)
                    == old(self).spec_buffer()
                &&& final(self).spec_buffer().last().header.source_id == source_id
                &&& final(self).spec_buffer().last().header.seq_no == seq_no
                &&& final(self).spec_buffer().last().payload == Some(batch)
                &&& final(self).spec_stats() == (DataPlaneStats {
                    events_received: old(self).spec_stats().events_received.saturating_add(1),
                    ..old(self).spec_stats()
                })
            },
            batch.spec_well_formed() && old(self).spec_buffer().len() >= old(self).spec_capacity()
                ==> {
                &&& r.0 == -2
                &&& (r.1 matches Some(b) && b.spec_released())
                &&& final(self).spec_buffer() == old(self).spec_buffer()
                &&& final(self).spec_stats() == old(self).spec_stats()
            },
    {
        if !batch.well_formed() {
            let mut b = batch;
            b.release();
            return (-4, Some(b));
        }
        let event = ZenithEvent::new(source_id, seq_no, batch);
        match self.buffer.try_push(event) {
            Ok(()) => {
                self.stats.events_received = self.stats.events_received.saturating_add(1);
                (0, None)
            },
            Err(ev) => {
                match ev.payload {
                    Some(mut b) => {
                        b.release();
                        (-2, Some(b))
                    },
                    None => {
                        proof {
                            assert(false);
                        }
                        (-2, None)
                    },
                }
            },
        }
    }

    /// Load a plugin from bytecode; see the host for the phase semantics.
    pub fn load_plugin(&mut self, wasm_bytes: &[u8]) -> (r: Result<u64, ZenithError>)
        requires
            old(self).wf(),
            old(self).spec_next_plugin_id() < u64::MAX,
        ensures
            final(self).wf(),
            final(self).spec_buffer() == old(self).spec_buffer(),
            final(self).spec_stats() == old(self).spec_stats(),
            final(self).spec_running() == old(self).spec_running(),
            r matches Ok(id) ==> {
                &&& id == old(self).spec_next_plugin_id()
                &&& final(self).spec_plugin_ids() == old(self).spec_plugin_ids().push(id)
            },
            r is Err ==> {
                &&& final(self).spec_plugin_ids() == old(self).spec_plugin_ids()
                &&& (r matches Err(e) && e is PluginLoad)
            },
    {
        self.host.load_plugin(wasm_bytes)
    }

    /// Unload the plugin with the given identifier; returns whether it was
    /// loaded.
    pub fn unload_plugin(&mut self, plugin_id: u64) -> (r: bool)
        requires
            old(self).wf(),
        ensures
            final(self).wf(),
            final(self).spec_buffer() == old(self).spec_buffer(),
            final(self).spec_stats() == old(self).spec_stats(),
            r == old(self).spec_plugin_ids().contains(plugin_id),
            forall|i: int|
                0 <= i < final(self).spec_plugin_ids().len() ==> final(self).spec_plugin_ids()[i]
                    != plugin_id,
    {
        self.host.unload(plugin_id)
    }

    /// One consumer-loop step: take the oldest event, consult every plugin
    /// in registration order, record the outcomes in the statistics, and
    /// destroy the event, driving its release callbacks exactly once.
    /// Returns None when the ring is empty (the caller then parks).
    pub fn dispatch_next(&mut self) -> (r: Option<DispatchReport>)
        requires
            old(self).wf(),
        ensures
            final(self).wf(),
            final(self).spec_capacity() == old(self).spec_capacity(),
            final(self).spec_plugin_ids() == old(self).spec_plugin_ids(),
            final(self).spec_running() == old(self).spec_running(),
            old(self).spec_buffer().len() == 0 ==> {
                &&& r is None
                &&& final(self).spec_buffer() == old(self).spec_buffer()
                &&& final(self).spec_stats() == old(self).spec_stats()
            },
            final(self).spec_plugin_passives() == old(self).spec_plugin_passives(),
            old(self).spec_buffer().len() > 0 ==> (r matches Some(rep) && {
                &&& final(self).spec_buffer() == old(self).spec_buffer().skip(1)
                &&& rep.source_id == old(self).spec_buffer()[0].header.source_id
                &&& rep.seq_no == old(self).spec_buffer()[0].header.seq_no
                &&& rep.outcomes@.len() == old(self).spec_plugin_ids().len()
                &&& rep.results@.len() == old(self).spec_plugin_ids().len()
                &&& forall|i: int|
                    0 <= i < rep.results@.len() ==> (((#[trigger] rep.results@[i]) is None) <==> old(
                        self,
                    ).spec_plugin_passives()[i])
                &&& forall|i: int|
                    0 <= i < rep.outcomes@.len() ==> (#[trigger] rep.outcomes@[i])
                        == spec_outcome_of(rep.results@[i])
                &&& forall|i: int|
                    0 <= i < rep.outcomes@.len() ==> (((#[trigger] rep.outcomes@[i]) is Passive)
                        <==> old(self).spec_plugin_passives()[i])
                &&& rep.accepted == DispatchReport::spec_accepted_of(rep.outcomes@)
                &&& (rep.payload is Some <==> old(self).spec_buffer()[0].payload is Some)
                &&& (rep.payload matches Some(b) ==> b.spec_released())
                &&& final(self).spec_stats() == (DataPlaneStats {
                    events_received: old(self).spec_stats().events_received,
                    events_processed: old(self).spec_stats().events_processed.saturating_add(1),
                    events_dropped: if rep.accepted {
                        old(self).spec_stats().events_dropped
                    } else {
                        old(self).spec_stats().events_dropped.saturating_add(1)
                    },
                    bytes_processed: old(self).spec_stats().bytes_processed.saturating_add(
                        match old(self).spec_buffer()[0].payload {
                            Some(b) => b.array.n_bytes,
                            None => 0,
                        },
                    ),
                })
            }),
    {
        let event = match self.buffer.pop() {
            Some(e) => e,
            None => { return None },
        };
        let source_id = event.header.source_id;
        let seq_no = event.header.seq_no;
        let n = self.host.plugin_count();
        let mut outcomes: Vec<PluginOutcome> = Vec::new();
        let mut results: Vec<Option<Result<i32, ZenithError>>> = Vec::new();
        let mut accepted = true;
        let mut i: usize = 0;
        while i < n
            invariant
                self.wf(),
                n == self.spec_plugin_ids().len(),
                i <= n,
                outcomes@.len() == i,
                results@.len() == i,
                accepted == DispatchReport::spec_accepted_of(outcomes@),
                forall|k: int|
                    0 <= k < i ==> (((#[trigger] results@[k]) is None) <==> old(
                        self,
                    ).spec_plugin_passives()[k]),
                forall|k: int|
                    0 <= k < i ==> (#[trigger] outcomes@[k]) == spec_outcome_of(results@[k]),
                forall|k: int|
                    0 <= k < i ==> (((#[trigger] outcomes@[k]) is Passive) <==> old(
                        self,
                    ).spec_plugin_passives()[k]),
                self.spec_plugin_ids() == old(self).spec_plugin_ids(),
                self.spec_plugin_passives() == old(self).spec_plugin_passives(),
                self.spec_buffer() == old(self).spec_buffer().skip(1),
                self.spec_capacity() == old(self).spec_capacity(),
                self.spec_stats() == old(self).spec_stats(),
                self.spec_running() == old(self).spec_running(),
            decreases n - i,
        {
            let result: Option<Result<i32, ZenithError>> = if self.host.is_passive_at(i) {
                None
            } else {
                Some(self.host.invoke_at(i, source_id, seq_no))
            };
            let outcome: PluginOutcome = match &result {
                None => PluginOutcome::Passive,
                Some(res) => match res {
                    Ok(v) => if *v != 0 {
                        PluginOutcome::Kept
                    } else {
                        PluginOutcome::Dropped
                    },
                    Err(_) => PluginOutcome::Trapped,
                },
            };
            results.push(result);
            let is_drop = matches!(outcome, PluginOutcome::Dropped | PluginOutcome::Trapped);
            let ghost prev = outcomes@;
            let ghost prev_accepted = accepted;
            if is_drop {
                accepted = false;
            }
            outcomes.push(outcome);
            proof {
                if accepted {
                    assert forall|k: int|
                        0 <= k < outcomes@.len() implies !((#[trigger] outcomes@[k]) is Dropped
                        || outcomes@[k] is Trapped) by {
                        if k < prev.len() {
                            assert(outcomes@[k] == prev[k]);
                        } else {
                            assert(outcomes@[k] == outcome);
                        }
                    }
                } else {
                    if !prev_accepted {
                        let k = choose|k: int|
                            0 <= k < prev.len() && (prev[k] is Dropped || prev[k] is Trapped);
                        assert(outcomes@[k] == prev[k]);
                        assert(!DispatchReport::spec_accepted_of(outcomes@));
                    } else {
                        assert(outcomes@[prev.len() as int] == outcome);
                        assert(!DispatchReport::spec_accepted_of(outcomes@));
                    }
                }
            }
            i = i + 1;
        }
        let bytes: u64 = match &event.payload {
            Some(b) => b.array.n_bytes,
            None => 0,
        };
        assert(event == old(self).spec_buffer()[0]);
        assert(event.spec_live());
        let payload = event.destroy();
        self.stats.events_processed = self.stats.events_processed.saturating_add(1);
        self.stats.bytes_processed = self.stats.bytes_processed.saturating_add(bytes);
        if !accepted {
            self.stats.events_dropped = self.stats.events_dropped.saturating_add(1);
        }
        Some(DispatchReport { source_id, seq_no, results, outcomes, accepted, payload })
    }

    /// Cooperative shutdown: clear the running flag and tear the ring
    /// down, driving the release callbacks of every un-popped event
    /// exactly once. The loop leaves nothing queued.
    pub fn shutdown(&mut self)
        requires
            old(self).wf(),
        ensures
            final(self).wf(),
            !final(self).spec_running(),
            final(self).spec_buffer().len() == 0,
            final(self).spec_plugin_ids() == old(self).spec_plugin_ids(),
            final(self).spec_stats() == old(self).spec_stats(),
    {
        self.running = false;
        while !self.buffer.is_empty()
            invariant
                self.wf(),
                !self.spec_running(),
                self.spec_plugin_ids() == old(self).spec_plugin_ids(),
                self.spec_stats() == old(self).spec_stats(),
            decreases self.spec_buffer().len(),
        {
            let ghost before = self.spec_buffer();
            match self.buffer.pop() {
                Some(event) => {
                    assert(event == before[0]);
                    assert(event.spec_live());
                    let _ = event.destroy();
                },
                None => {},
            }
        }
    }
}

} // verus!
