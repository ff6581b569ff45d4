//! Configuration for the CPU runtime.

use vstd::prelude::*;
use crate::runtime_cpu::Error;

verus! {

/// Configuration for the CPU engine.
#[derive(Debug, Clone, Copy, PartialEq, Eq, Structural)]
pub struct EngineConfig {
    /// Enable NUMA-aware memory allocation.
    pub numa_aware: bool,
    /// Enable hugepage support.
    pub hugepages: bool,
    /// Number of submission-ring entries for the I/O backend.
    pub io_uring_entries: u32,
    /// Enable thread pinning.
    pub thread_pinning: bool,
    /// Number of worker threads (0 = auto-detect).
    pub worker_threads: usize,
    /// Preferred NUMA node (-1 = any).
    pub preferred_numa_node: i32,
    /// Ring buffer size for data ingestion.
    pub ring_buffer_size: usize,
    /// Enable telemetry collection.
    pub telemetry_enabled: bool,
    /// Telemetry collection interval in milliseconds.
    pub telemetry_interval_ms: u64,
    /// Metrics port (0 = disabled).
    pub metrics_port: u16,
}

/// Default used for boolean settings absent from configuration text.
pub fn default_true() -> (r: bool)
    ensures
        r,
{
    true
}

/// Default number of submission-ring entries.
pub fn default_io_uring_entries() -> (r: u32)
    ensures
        r == 4096,
{
    4096
}

/// Default NUMA node preference: any node.
pub fn default_numa_node() -> (r: i32)
    ensures
        r == -1,
{
    -1
}

/// Default ingestion ring size: one mebi-entry.
pub fn default_ring_buffer_size() -> (r: usize)
    ensures
        r == 1024 * 1024,
{
    1024 * 1024
}

/// Default telemetry interval: one second.
pub fn default_telemetry_interval() -> (r: u64)
    ensures
        r == 1000,
{
    1000
}

impl EngineConfig {
    /// The configuration every field defaults to.
    pub open spec fn spec_default() -> EngineConfig {
        EngineConfig {
            numa_aware: true,
            hugepages: true,
            io_uring_entries: 4096,
            thread_pinning: true,
            worker_threads: 0,
            preferred_numa_node: (-1) as i32,
            ring_buffer_size: (1024 * 1024) as usize,
            telemetry_enabled: true,
            telemetry_interval_ms: 1000,
            metrics_port: 0,
        }
    }

    /// A configuration is valid when its ring and submission-queue sizes
    /// are positive.
    pub open spec fn spec_valid(self) -> bool {
        self.io_uring_entries > 0 && self.ring_buffer_size > 0
    }

    /// Start building a configuration from the defaults.
    pub fn builder() -> (b: EngineConfigBuilder)
        ensures
            b.config == EngineConfig::spec_default(),
    {
        EngineConfigBuilder { config: EngineConfig::default() }
    }

    /// Reject a configuration whose ring or submission-queue size is zero,
    /// and only such a configuration.
    pub fn validate(&self) -> (r: Result<(), Error>)
        ensures
            r is Ok <==> self.spec_valid(),
            r matches Err(e) ==> e is Config,
    {
        if self.io_uring_entries == 0 {
            return Err(Error::Config(String::from_str("io_uring_entries must be > 0")));
        }
        if self.ring_buffer_size == 0 {
            return Err(Error::Config(String::from_str("ring_buffer_size must be > 0")));
        }
        Ok(())
    }
}

impl Default for EngineConfig {
    /// The documented default for every field.
    fn default() -> (r: EngineConfig)
        ensures
            r == EngineConfig::spec_default(),
    {
        EngineConfig {
            numa_aware: true,
            hugepages: true,
            io_uring_entries: 4096,
            thread_pinning: true,
            worker_threads: 0,
            preferred_numa_node: -1,
            ring_buffer_size: 1024 * 1024,
            telemetry_enabled: true,
            telemetry_interval_ms: 1000,
            metrics_port: 0,
        }
    }
}

/// Builder for `EngineConfig`.
#[derive(Debug, Clone, Copy, PartialEq, Eq, Structural)]
pub struct EngineConfigBuilder {
    /// The configuration being assembled.
    pub config: EngineConfig,
}

impl EngineConfigBuilder {
    /// Enable or disable NUMA awareness.
    pub fn numa_aware(self, enabled: bool) -> (b: EngineConfigBuilder)
        ensures
            b.config == (EngineConfig { numa_aware: enabled, ..self.config }),
    {
        EngineConfigBuilder { config: EngineConfig { numa_aware: enabled, ..self.config } }
    }

    /// Enable or disable hugepages.
    pub fn hugepages(self, enabled: bool) -> (b: EngineConfigBuilder)
        ensures
            b.config == (EngineConfig { hugepages: enabled, ..self.config }),
    {
        EngineConfigBuilder { config: EngineConfig { hugepages: enabled, ..self.config } }
    }

    /// Set the number of submission-ring entries.
    pub fn io_uring_entries(self, entries: u32) -> (b: EngineConfigBuilder)
        ensures
            b.config == (EngineConfig { io_uring_entries: entries, ..self.config }),
    {
        EngineConfigBuilder { config: EngineConfig { io_uring_entries: entries, ..self.config } }
    }

    /// Enable or disable thread pinning.
    pub fn thread_pinning(self, enabled: bool) -> (b: EngineConfigBuilder)
        ensures
            b.config == (EngineConfig { thread_pinning: enabled, ..self.config }),
    {
        EngineConfigBuilder { config: EngineConfig { thread_pinning: enabled, ..self.config } }
    }

    /// Set the number of worker threads.
    pub fn worker_threads(self, count: usize) -> (b: EngineConfigBuilder)
        ensures
            b.config == (EngineConfig { worker_threads: count, ..self.config }),
    {
        EngineConfigBuilder { config: EngineConfig { worker_threads: count, ..self.config } }
    }

    /// Set the ingestion ring size.
    pub fn ring_buffer_size(self, size: usize) -> (b: EngineConfigBuilder)
        ensures
            b.config == (EngineConfig { ring_buffer_size: size, ..self.config }),
    {
        EngineConfigBuilder { config: EngineConfig { ring_buffer_size: size, ..self.config } }
    }

    /// Set the metrics port.
    pub fn metrics_port(self, port: u16) -> (b: EngineConfigBuilder)
        ensures
            b.config == (EngineConfig { metrics_port: port, ..self.config }),
    {
        EngineConfigBuilder { config: EngineConfig { metrics_port: port, ..self.config } }
    }

    /// Validate and yield the configuration: exactly the valid ones pass.
    pub fn build(self) -> (r: Result<EngineConfig, Error>)
        ensures
            r matches Ok(c) ==> c == self.config && self.config.spec_valid(),
            r is Err <==> !self.config.spec_valid(),
            r matches Err(e) ==> e is Config,
    {
        match self.config.validate() {
            Ok(()) => Ok(self.config),
            Err(e) => Err(e),
        }
    }
}

impl Default for EngineConfigBuilder {
    /// A builder starting from the default configuration.
    fn default() -> (b: EngineConfigBuilder)
        ensures
            b.config == EngineConfig::spec_default(),
    {
        EngineConfigBuilder { config: EngineConfig::default() }
    }
}

} // verus!
