//! Collective communication descriptors.

use vstd::prelude::*;

verus! {

/// Collective operation types.
#[derive(Debug, Clone, Copy, PartialEq, Eq, Structural)]
pub enum CollectiveOp {
    /// All-reduce (sum).
    AllReduce,
    /// Broadcast from the root.
    Broadcast,
    /// All-gather.
    AllGather,
    /// Reduce-scatter.
    ReduceScatter,
    /// Point-to-point send.
    Send,
    /// Point-to-point receive.
    Recv,
}

/// Relies on uuid's Uuid::new_v4 and its Display form: a random
/// version-4 identifier rendered in the hyphenated form, which is always
/// 36 characters. The value is random, so nothing more is stated.
#[verifier::external_body]
fn fresh_uuid_string() -> (r: String)
    ensures
        r@.len() == 36,
{
    uuid::Uuid::new_v4().to_string()
}

/// A communicator handle for one rank of a collective group.
pub struct NcclCommunicator {
    /// Number of ranks in the group.
    pub world_size: usize,
    /// This rank.
    pub rank: usize,
    /// Unique identifier of the group.
    pub unique_id: String,
}

impl NcclCommunicator {
    /// Build a communicator handle for the given rank, with a fresh
    /// group identifier.
    pub fn new(world_size: usize, rank: usize) -> (c: NcclCommunicator)
        ensures
            c.world_size == world_size,
            c.rank == rank,
            c.unique_id@.len() == 36,
    {
        NcclCommunicator { world_size, rank, unique_id: fresh_uuid_string() }
    }

    /// Whether this is the root rank.
    pub fn is_root(&self) -> (r: bool)
        ensures
            r == (self.rank == 0),
    {
        self.rank == 0
    }
}

} // verus!
