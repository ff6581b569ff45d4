use zenith::runtime_gpu::collective::NcclCommunicator;
use zenith::runtime_gpu::device::{GpuDevice, GpuTopology, NvLinkConnection};
use zenith::runtime_gpu::kernel::{KernelBackend, KernelCriteria, KernelManager};
use zenith::runtime_gpu::memory::{MemoryManager, MemoryTier};

fn device(index: u32) -> GpuDevice {
    GpuDevice {
        index,
        name: String::from("test accelerator"),
        uuid: String::from("GPU-TEST"),
        compute_major: 8,
        compute_minor: 0,
        total_memory: 80 * 1024 * 1024 * 1024,
        free_memory: 78 * 1024 * 1024 * 1024,
        sm_count: 108,
        utilization: 0,
        temperature: 40,
        power_usage: 100,
        power_limit: 400,
        pcie_gen: 4,
        pcie_width: 16,
    }
}

#[test]
fn test_empty_topology() {
    let topo = GpuTopology::empty();
    assert_eq!(topo.gpu_count(), 0);
}

#[test]
fn nvlink_lookup_is_symmetric() {
    let topo = GpuTopology {
        devices: vec![device(0), device(1), device(2)],
        nvlink_connections: vec![NvLinkConnection {
            source: 0,
            target: 1,
            link_count: 12,
            bandwidth_gbps: 600,
        }],
        nvswitch_present: false,
        numa_affinity: vec![(0, 0), (1, 0), (2, 1)],
    };
    assert!(topo.has_nvlink(0, 1));
    assert!(topo.has_nvlink(1, 0));
    assert!(!topo.has_nvlink(0, 2));
    assert_eq!(topo.gpus_on_numa(0), vec![0, 1]);
    assert_eq!(topo.gpus_on_numa(1), vec![2]);
    assert_eq!(topo.total_memory(), 3 * 80 * 1024 * 1024 * 1024);
    assert_eq!(topo.free_memory(), 3 * 78 * 1024 * 1024 * 1024);
}

#[test]
fn kernel_selection_priority() {
    let cpu_only = KernelManager::new();
    let criteria = KernelCriteria {
        op_type: String::from("matmul"),
        input_shapes: vec![vec![16, 16], vec![16, 16]],
        dtype: String::from("float16"),
        available_backends: vec![KernelBackend::Cuda, KernelBackend::Cpu],
    };
    assert_eq!(cpu_only.select(&criteria), KernelBackend::Cpu);

    let with_cuda = KernelManager::with_backends(vec![KernelBackend::Cpu, KernelBackend::Cuda]);
    assert_eq!(with_cuda.select(&criteria), KernelBackend::Cuda);

    let triton_host = KernelManager::with_backends(vec![KernelBackend::Triton, KernelBackend::Cpu]);
    let triton_criteria = KernelCriteria {
        op_type: String::from("softmax"),
        input_shapes: vec![vec![64]],
        dtype: String::from("float32"),
        available_backends: vec![KernelBackend::Triton, KernelBackend::Tvm],
    };
    assert_eq!(triton_host.select(&triton_criteria), KernelBackend::Triton);
}

#[test]
fn memory_placement_tiers() {
    let mm = MemoryManager::new(1000, 500);
    let high = mm.decide_placement(100, 6);
    assert_eq!(high.tier, MemoryTier::GpuVram);
    assert_eq!(high.latency_us, 1);
    assert_eq!(high.bandwidth_gbps, 2000);

    let medium = mm.decide_placement(100, 1);
    assert_eq!(medium.tier, MemoryTier::CpuRam);

    let spill = mm.decide_placement(600, 1);
    assert_eq!(spill.tier, MemoryTier::Nvme);
    assert_eq!(spill.latency_us, 10000);

    assert_eq!(mm.available_gpu_memory(), 1000);
    assert_eq!(mm.available_cpu_memory(), 500);
}

#[test]
fn communicator_identity() {
    let root = NcclCommunicator::new(4, 0);
    assert!(root.is_root());
    assert_eq!(root.world_size, 4);
    assert_eq!(root.unique_id.len(), 36);

    let peer = NcclCommunicator::new(4, 3);
    assert!(!peer.is_root());
    assert_ne!(root.unique_id, peer.unique_id);
}
