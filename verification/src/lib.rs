//! Core of a heterogeneous data-plane and workload-orchestration platform.
//!
//! The crate has three tightly coupled subsystems: an event-ingestion core
//! (a bounded ring buffer fed through a foreign-descriptor boundary), a
//! sandboxed plugin host, and a gang scheduler that atomically reserves
//! groups of resources across a fleet of worker nodes.

pub mod clock;
pub mod dataplane;
pub mod engine;
pub mod error;
pub mod event;
pub mod models;
pub mod proto;
pub mod ring_buffer;
pub mod runtime_cpu;
pub mod runtime_gpu;
pub mod scheduler;
pub mod wasm_host;
