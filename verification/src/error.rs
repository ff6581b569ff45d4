//! Error taxonomy of the data-plane core.
//!
//! Foreign-boundary calls convert these to integer status codes; internal
//! callers use the rich variants. Nothing in the data path panics on an
//! expected error.

use vstd::prelude::*;

verus! {

/// The load-time phase at which a plugin was rejected.
#[derive(Clone, Copy, PartialEq, Eq, Structural, Debug)]
pub enum PluginLoadPhase {
    /// The bytecode failed validation or compilation.
    Compile,
    /// The module's imports could not be resolved against the host table.
    Link,
    /// Instantiation of the compiled module failed.
    Instantiate,
}

/// Errors surfaced by the event-ingestion core and the plugin host.
#[derive(Clone, PartialEq, Eq, Debug)]
pub enum ZenithError {
    /// A producer exceeded the ring capacity; recoverable by the producer.
    BufferFull,
    /// A plugin failed at load time; fatal for that module, not the engine.
    PluginLoad(PluginLoadPhase, String),
    /// A plugin trapped during dispatch; the event is marked dropped for
    /// that plugin and the engine continues.
    PluginTrap(String),
    /// An invocation named a plugin that is not loaded, or one without an
    /// `on_event` export.
    PluginMissing,
    /// The foreign descriptors handed to publish were malformed.
    ForeignDescriptorInvalid,
    /// The sandbox runtime itself could not be constructed.
    WasmError(String),
    /// An I/O failure reported by the surrounding runtime.
    IoError(String),
}

} // verus!
