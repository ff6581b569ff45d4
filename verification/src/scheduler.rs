//! The gang scheduler: a batch-mode placement engine that atomically
//! reserves groups of resources across a fleet of worker nodes, honoring
//! topology affinity, priority, and quotas.

use vstd::prelude::*;

pub mod config;
pub mod engine;
pub mod job;
pub mod node;

verus! {

/// Scheduler errors.
#[derive(Clone, PartialEq, Eq, Debug)]
pub enum Error {
    /// Job-related errors.
    Job(String),
    /// Node-related errors.
    Node(String),
    /// Scheduling errors, including an aborted reservation.
    Scheduling(String),
    /// Configuration errors.
    Config(String),
}

} // verus!
