//! GPU runtime configuration.

use vstd::prelude::*;

verus! {

/// GPU runtime configuration.
#[derive(Debug, Clone, PartialEq, Eq)]
pub struct GpuRuntimeConfig {
    /// Enable automatic kernel selection.
    pub auto_kernel_select: bool,
    /// Enable memory offload to host memory.
    pub enable_cpu_offload: bool,
    /// Enable memory offload to storage.
    pub enable_nvme_offload: bool,
    /// Storage offload path.
    pub nvme_offload_path: Option<String>,
    /// Default numeric precision name.
    pub default_precision: String,
    /// Enable dynamic precision switching.
    pub dynamic_precision: bool,
    /// Device memory limit per device in bytes (0 = no limit).
    pub gpu_memory_limit: u64,
    /// Network interface for collective transport.
    pub nccl_socket_ifname: Option<String>,
    /// Enable profiling.
    pub profiling_enabled: bool,
}

impl Default for GpuRuntimeConfig {
    /// The documented defaults: automatic kernel selection and host
    /// offload on, storage offload off, half precision, no limits.
    fn default() -> (r: GpuRuntimeConfig)
        ensures
            r.auto_kernel_select,
            r.enable_cpu_offload,
            !r.enable_nvme_offload,
            r.nvme_offload_path is None,
            r.default_precision@ == "float16"@,
            !r.dynamic_precision,
            r.gpu_memory_limit == 0,
            r.nccl_socket_ifname is None,
            !r.profiling_enabled,
    {
        GpuRuntimeConfig {
            auto_kernel_select: true,
            enable_cpu_offload: true,
            enable_nvme_offload: false,
            nvme_offload_path: None,
            default_precision: String::from_str("float16"),
            dynamic_precision: false,
            gpu_memory_limit: 0,
            nccl_socket_ifname: None,
            profiling_enabled: false,
        }
    }
}

} // verus!
