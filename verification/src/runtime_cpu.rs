//! The low-latency CPU runtime: configuration, topology model, telemetry,
//! and thread placement.

use vstd::prelude::*;

pub mod allocator;
pub mod config;
pub mod engine;
pub mod numa;
pub mod telemetry;
pub mod thread;

verus! {

/// Errors of the CPU runtime.
#[derive(Clone, PartialEq, Eq, Debug)]
pub enum Error {
    /// The configuration was rejected.
    Config(String),
    /// A memory allocation failed.
    Allocation(String),
    /// Thread placement failed.
    Affinity(String),
}

} // verus!
