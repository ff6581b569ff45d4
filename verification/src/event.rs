//! Events and the columnar payload model.
//!
//! An event is a header plus an optional payload. The payload is a columnar
//! record batch taken over from the foreign boundary: the column buffers
//! themselves stay foreign, so the engine tracks only the shape it checked
//! and the release obligation it took over. The engine owes the foreign
//! side exactly one invocation of each descriptor's release callback.

use vstd::prelude::*;
use crate::clock;

verus! {

/// The array descriptor of a columnar batch, as handed over the foreign
/// boundary: the shape the engine reads, plus whether its release callback
/// has been driven yet.
#[derive(Clone, Copy, PartialEq, Eq, Structural, Debug)]
pub struct ForeignArray {
    /// Number of child arrays (the record-batch columns).
    pub n_children: u32,
    /// Number of rows in the batch.
    pub n_rows: u64,
    /// Total payload bytes referenced by the batch buffers.
    pub n_bytes: u64,
    /// Whether the descriptor's release callback has been invoked.
    pub released: bool,
}

/// The schema descriptor of a columnar batch, as handed over the foreign
/// boundary.
#[derive(Clone, Copy, PartialEq, Eq, Structural, Debug)]
pub struct ForeignSchema {
    /// Whether the root of the schema is a struct (the only accepted root:
    /// its fields form the record-batch columns).
    pub struct_root: bool,
    /// Number of fields under the root.
    pub n_fields: u32,
    /// Whether the descriptor's release callback has been invoked.
    pub released: bool,
}

/// A record batch: the pair of foreign descriptors the engine took
/// ownership of at the boundary.
#[derive(Clone, Copy, PartialEq, Eq, Structural, Debug)]
pub struct RecordBatch {
    /// The array descriptor.
    pub array: ForeignArray,
    /// The schema descriptor.
    pub schema: ForeignSchema,
}

impl RecordBatch {
    /// A batch is well formed when the schema root is a struct and the
    /// array's children match the schema's fields one for one.
    pub open spec fn spec_well_formed(self) -> bool {
        self.schema.struct_root && self.array.n_children == self.schema.n_fields
    }

    /// Both release callbacks are still owed to the foreign side.
    pub open spec fn spec_live(self) -> bool {
        !self.array.released && !self.schema.released
    }

    /// Both release callbacks have been invoked.
    pub open spec fn spec_released(self) -> bool {
        self.array.released && self.schema.released
    }

    /// Executable form of the well-formedness check made at the boundary.
    pub fn well_formed(&self) -> (r: bool)
        ensures
            r == self.spec_well_formed(),
    {
        self.schema.struct_root && self.array.n_children == self.schema.n_fields
    }

    /// Invoke both release callbacks. The obligation is owed exactly once:
    /// the caller must not have released the batch before, and afterwards
    /// the batch is fully released.
    pub fn release(&mut self)
        requires
            old(self).spec_live(),
        ensures
            final(self).spec_released(),
            final(self).array.n_children == old(self).array.n_children,
            final(self).array.n_rows == old(self).array.n_rows,
            final(self).array.n_bytes == old(self).array.n_bytes,
            final(self).schema.struct_root == old(self).schema.struct_root,
            final(self).schema.n_fields == old(self).schema.n_fields,
    {
        self.array.released = true;
        self.schema.released = true;
    }
}

/// The fixed-size header carried by every event.
#[derive(Clone, Copy, PartialEq, Eq, Structural, Debug)]
pub struct EventHeader {
    /// Identifier of the producer that published the event.
    pub source_id: u32,
    /// Monotonic sequence number assigned by the producer.
    pub seq_no: u64,
    /// Wall-clock timestamp in nanoseconds since the Unix epoch.
    pub timestamp_ns: u64,
    /// Flags word; zero on construction.
    pub flags: u32,
}

impl EventHeader {
    /// Build a header for the given producer and sequence number, stamped
    /// with the wall clock.
    pub fn new(source_id: u32, seq_no: u64) -> (h: EventHeader)
        ensures
            h.source_id == source_id,
            h.seq_no == seq_no,
            h.flags == 0,
    {
        let now = clock::system_time_now();
        let timestamp_ns = clock::nanos_since_unix_epoch(&now);
        EventHeader { source_id, seq_no, timestamp_ns, flags: 0 }
    }
}

/// An event: a header and an optional columnar payload. Header-only events
/// serve as heartbeats.
#[derive(Clone, Copy, PartialEq, Eq, Structural, Debug)]
pub struct ZenithEvent {
    /// The event header.
    pub header: EventHeader,
    /// The columnar payload, if any.
    pub payload: Option<RecordBatch>,
}

impl ZenithEvent {
    /// An event whose payload release obligations, if any, are still owed.
    pub open spec fn spec_live(self) -> bool {
        match self.payload {
            Some(batch) => batch.spec_live(),
            None => true,
        }
    }

    /// Build an event carrying the given payload, stamped with the wall
    /// clock.
    pub fn new(source_id: u32, seq_no: u64, payload: RecordBatch) -> (e: ZenithEvent)
        ensures
            e.header.source_id == source_id,
            e.header.seq_no == seq_no,
            e.header.flags == 0,
            e.payload == Some(payload),
    {
        ZenithEvent { header: EventHeader::new(source_id, seq_no), payload: Some(payload) }
    }

    /// Destroy the event: drive the payload's release callbacks, exactly
    /// once each. Returns the payload in its released state so a caller
    /// can observe that the obligation was met.
    pub fn destroy(self) -> (r: Option<RecordBatch>)
        requires
            self.spec_live(),
        ensures
            self.payload is Some <==> r is Some,
            r matches Some(batch) ==> {
                &&& batch.spec_released()
                &&& batch.array.n_children == self.payload->Some_0.array.n_children
                &&& batch.schema.n_fields == self.payload->Some_0.schema.n_fields
            },
    {
        match self.payload {
            Some(mut batch) => {
                batch.release();
                Some(batch)
            },
            None => None,
        }
    }
}

} // verus!
