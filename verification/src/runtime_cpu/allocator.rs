//! Configuration of the NUMA-aware allocator.
//!
//! The allocation calls themselves work on raw memory and live with the
//! surrounding runtime; the policy the allocator is built from is modelled
//! and verified here.

use vstd::prelude::*;

verus! {

/// NUMA-aware allocator configuration.
#[derive(Debug, Clone, Copy, PartialEq, Eq, Structural)]
pub struct AllocatorConfig {
    /// Preferred NUMA node (-1 for any).
    pub preferred_node: i32,
    /// Use hugepages when available.
    pub use_hugepages: bool,
    /// Minimum size in bytes for a hugepage allocation.
    pub hugepage_threshold: usize,
    /// Zero-initialize allocations.
    pub zero_init: bool,
}

impl AllocatorConfig {
    /// The documented defaults: any node, hugepages from two mebibytes,
    /// no zero-initialization.
    pub open spec fn spec_default() -> AllocatorConfig {
        AllocatorConfig {
            preferred_node: (-1) as i32,
            use_hugepages: true,
            hugepage_threshold: (2 * 1024 * 1024) as usize,
            zero_init: false,
        }
    }
}

impl Default for AllocatorConfig {
    /// The documented default for every field.
    fn default() -> (r: AllocatorConfig)
        ensures
            r == AllocatorConfig::spec_default(),
    {
        AllocatorConfig {
            preferred_node: -1,
            use_hugepages: true,
            hugepage_threshold: 2 * 1024 * 1024,
            zero_init: false,
        }
    }
}

/// The NUMA-aware allocator: it carries the policy its allocations follow.
#[derive(Debug, Clone, Copy, PartialEq, Eq, Structural)]
pub struct NumaAllocator {
    config: AllocatorConfig,
}

impl NumaAllocator {
    /// The policy the allocator was built with.
    pub closed spec fn spec_config(&self) -> AllocatorConfig {
        self.config
    }

    /// Build an allocator following the given policy.
    pub fn new(config: AllocatorConfig) -> (a: NumaAllocator)
        ensures
            a.spec_config() == config,
    {
        NumaAllocator { config }
    }

    /// Build an allocator following the default policy.
    pub fn with_defaults() -> (a: NumaAllocator)
        ensures
            a.spec_config() == AllocatorConfig::spec_default(),
    {
        NumaAllocator::new(AllocatorConfig::default())
    }

    /// Whether an allocation of the given size is served from hugepages
    /// under this policy.
    pub fn uses_hugepages_for(&self, size: usize) -> (r: bool)
        ensures
            r == (self.spec_config().use_hugepages && size
                >= self.spec_config().hugepage_threshold),
    {
        self.config.use_hugepages && size >= self.config.hugepage_threshold
    }
}

} // verus!
