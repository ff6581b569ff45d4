//! Memory manager: tiered offload placement decisions.

use vstd::prelude::*;

verus! {

/// A memory tier.
#[derive(Debug, Clone, Copy, PartialEq, Eq, Structural)]
pub enum MemoryTier {
    /// Device memory (fastest).
    GpuVram,
    /// Host memory.
    CpuRam,
    /// Non-volatile storage (slowest).
    Nvme,
}

/// A placement decision.
#[derive(Debug, Clone, Copy, PartialEq, Eq, Structural)]
pub struct MemoryPlacement {
    /// Tier to place the data on.
    pub tier: MemoryTier,
    /// Estimated access latency in microseconds.
    pub latency_us: u64,
    /// Estimated bandwidth in whole gigabytes per second.
    pub bandwidth_gbps: u64,
}

/// The tiered memory manager.
pub struct MemoryManager {
    gpu_memory_limit: u64,
    cpu_memory_limit: u64,
    gpu_memory_used: u64,
    cpu_memory_used: u64,
}

impl MemoryManager {
    /// The device-memory budget.
    pub closed spec fn spec_gpu_limit(&self) -> u64 {
        self.gpu_memory_limit
    }

    /// The host-memory budget.
    pub closed spec fn spec_cpu_limit(&self) -> u64 {
        self.cpu_memory_limit
    }

    /// Device memory accounted as used.
    pub closed spec fn spec_gpu_used(&self) -> u64 {
        self.gpu_memory_used
    }

    /// Host memory accounted as used.
    pub closed spec fn spec_cpu_used(&self) -> u64 {
        self.cpu_memory_used
    }

    /// The placement the manager decides for a request: high-priority
    /// data goes to the device when it fits, data fitting in host memory
    /// goes there, and everything else spills to storage.
    pub open spec fn spec_placement(&self, size: u64, priority: u32) -> MemoryPlacement {
        if priority > 5 && self.spec_gpu_used() + size <= self.spec_gpu_limit() {
            MemoryPlacement { tier: MemoryTier::GpuVram, latency_us: 1, bandwidth_gbps: 2000 }
        } else if self.spec_cpu_used() + size <= self.spec_cpu_limit() {
            MemoryPlacement { tier: MemoryTier::CpuRam, latency_us: 100, bandwidth_gbps: 100 }
        } else {
            MemoryPlacement { tier: MemoryTier::Nvme, latency_us: 10000, bandwidth_gbps: 7 }
        }
    }

    /// A manager with the given budgets and nothing accounted as used.
    pub fn new(gpu_memory_limit: u64, cpu_memory_limit: u64) -> (m: MemoryManager)
        ensures
            m.spec_gpu_limit() == gpu_memory_limit,
            m.spec_cpu_limit() == cpu_memory_limit,
            m.spec_gpu_used() == 0,
            m.spec_cpu_used() == 0,
    {
        MemoryManager {
            gpu_memory_limit,
            cpu_memory_limit,
            gpu_memory_used: 0,
            cpu_memory_used: 0,
        }
    }

    /// Decide where to place `size` bytes of the given priority.
    pub fn decide_placement(&self, size: u64, priority: u32) -> (r: MemoryPlacement)
        ensures
            r == self.spec_placement(size, priority),
    {
        if priority > 5 && (self.gpu_memory_used as u128) + (size as u128)
            <= self.gpu_memory_limit as u128 {
            return MemoryPlacement { tier: MemoryTier::GpuVram, latency_us: 1, bandwidth_gbps: 2000 };
        }
        if (self.cpu_memory_used as u128) + (size as u128) <= self.cpu_memory_limit as u128 {
            return MemoryPlacement { tier: MemoryTier::CpuRam, latency_us: 100, bandwidth_gbps: 100 };
        }
        MemoryPlacement { tier: MemoryTier::Nvme, latency_us: 10000, bandwidth_gbps: 7 }
    }

    /// Device memory still available under the budget.
    pub fn available_gpu_memory(&self) -> (r: u64)
        ensures
            r == self.spec_gpu_limit().saturating_sub(self.spec_gpu_used()),
    {
        self.gpu_memory_limit.saturating_sub(self.gpu_memory_used)
    }

    /// Host memory still available under the budget.
    pub fn available_cpu_memory(&self) -> (r: u64)
        ensures
            r == self.spec_cpu_limit().saturating_sub(self.spec_cpu_used()),
    {
        self.cpu_memory_limit.saturating_sub(self.cpu_memory_used)
    }
}

} // verus!
