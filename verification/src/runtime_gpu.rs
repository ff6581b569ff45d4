//! The GPU runtime: device topology, kernel selection, memory placement,
//! and collective communication descriptors.

use vstd::prelude::*;

pub mod collective;
pub mod config;
pub mod device;
pub mod kernel;
pub mod memory;

verus! {

/// GPU runtime errors.
#[derive(Clone, PartialEq, Eq, Debug)]
pub enum Error {
    /// Device errors.
    Device(String),
    /// Kernel errors.
    Kernel(String),
    /// Memory errors.
    Memory(String),
    /// Collective-communication errors.
    Collective(String),
    /// Configuration errors.
    Config(String),
}

} // verus!
