//! The data-plane event types and statistics.
//!
//! Events here are the plain in-plane representation used by the
//! processing pipeline; the ingestion core's events carry the foreign
//! payload model instead.

use vstd::prelude::*;

pub mod pipeline;
pub mod processor;

verus! {

/// An event in the data plane.
#[derive(Debug, Clone, PartialEq, Eq)]
pub struct Event {
    /// Unique event identifier.
    pub id: u64,
    /// Identifier of the producing source.
    pub source_id: u32,
    /// Wall-clock timestamp in nanoseconds since the epoch.
    pub timestamp_ns: u64,
    /// Opaque payload bytes.
    pub data: Vec<u8>,
}

/// The mathematical view of a data-plane event.
pub struct EventView {
    /// Unique event identifier.
    pub id: u64,
    /// Identifier of the producing source.
    pub source_id: u32,
    /// Wall-clock timestamp in nanoseconds since the epoch.
    pub timestamp_ns: u64,
    /// Payload bytes.
    pub data: Seq<u8>,
}

impl View for Event {
    type V = EventView;

    open spec fn view(&self) -> EventView {
        EventView {
            id: self.id,
            source_id: self.source_id,
            timestamp_ns: self.timestamp_ns,
            data: self.data@,
        }
    }
}

/// Byte-for-byte copy of a payload.
pub fn copy_bytes(v: &Vec<u8>) -> (r: Vec<u8>)
    ensures
        r@ == v@,
{
    let mut r: Vec<u8> = Vec::new();
    let n = v.len();
    let mut i: usize = 0;
    while i < n
        invariant
            n == v@.len(),
            i <= n,
            r@ == v@.subrange(0, i as int),
        decreases n - i,
    {
        r.push(v[i]);
        proof {
            assert(r@ =~= v@.subrange(0, i + 1 as int));
        }
        i = i + 1;
    }
    proof {
        assert(r@ =~= v@);
    }
    r
}

impl Event {
    /// A field-for-field copy of the event.
    pub fn duplicate(&self) -> (r: Event)
        ensures
            r@ == self@,
    {
        Event {
            id: self.id,
            source_id: self.source_id,
            timestamp_ns: self.timestamp_ns,
            data: copy_bytes(&self.data),
        }
    }
}

/// Counters describing data-plane progress. All counters saturate at
/// their maximum instead of wrapping or panicking.
#[derive(Debug, Clone, PartialEq, Eq, Structural, Copy)]
pub struct DataPlaneStats {
    /// Events accepted at the ingress boundary.
    pub events_received: u64,
    /// Events taken off the queue and dispatched.
    pub events_processed: u64,
    /// Events some plugin dropped or trapped on.
    pub events_dropped: u64,
    /// Payload bytes carried by the dispatched events.
    pub bytes_processed: u64,
}

impl Default for DataPlaneStats {
    /// All counters start at zero.
    fn default() -> (r: DataPlaneStats)
        ensures
            r.events_received == 0,
            r.events_processed == 0,
            r.events_dropped == 0,
            r.bytes_processed == 0,
    {
        DataPlaneStats { events_received: 0, events_processed: 0, events_dropped: 0, bytes_processed: 0 }
    }
}

} // verus!
