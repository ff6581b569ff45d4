//! GPU device descriptions and system topology.

use vstd::prelude::*;

verus! {

/// One GPU device.
#[derive(Debug, Clone, PartialEq, Eq)]
pub struct GpuDevice {
    /// Device index.
    pub index: u32,
    /// Device name.
    pub name: String,
    /// Device UUID.
    pub uuid: String,
    /// Compute capability, major part.
    pub compute_major: u32,
    /// Compute capability, minor part.
    pub compute_minor: u32,
    /// Total memory in bytes.
    pub total_memory: u64,
    /// Free memory in bytes.
    pub free_memory: u64,
    /// Number of streaming multiprocessors.
    pub sm_count: u32,
    /// Current utilization (0-100).
    pub utilization: u32,
    /// Temperature in degrees Celsius.
    pub temperature: u32,
    /// Power usage in watts.
    pub power_usage: u32,
    /// Power limit in watts.
    pub power_limit: u32,
    /// PCIe generation.
    pub pcie_gen: u32,
    /// PCIe width.
    pub pcie_width: u32,
}

/// A fast inter-device link between two GPUs.
#[derive(Debug, Clone, Copy, PartialEq, Eq, Structural)]
pub struct NvLinkConnection {
    /// Source device index.
    pub source: u32,
    /// Target device index.
    pub target: u32,
    /// Number of links bonded.
    pub link_count: u32,
    /// Bandwidth in gigabytes per second.
    pub bandwidth_gbps: u32,
}

/// The GPU topology of one host.
#[derive(Debug, Clone, PartialEq, Eq)]
pub struct GpuTopology {
    /// All GPUs on the host.
    pub devices: Vec<GpuDevice>,
    /// The inter-device links.
    pub nvlink_connections: Vec<NvLinkConnection>,
    /// Whether a switched all-to-all fabric is present.
    pub nvswitch_present: bool,
    /// NUMA affinity pairs: (device index, NUMA node).
    pub numa_affinity: Vec<(u32, u32)>,
}

/// Whether some link of `links` connects `a` and `b` in either direction.
pub open spec fn spec_linked(links: Seq<NvLinkConnection>, a: u32, b: u32) -> bool {
    exists|i: int|
        0 <= i < links.len() && ((links[i].source == a && links[i].target == b) || (links[i].source
            == b && links[i].target == a))
}

/// The devices of the affinity list that sit on `node`, in list order.
pub open spec fn spec_gpus_on(pairs: Seq<(u32, u32)>, node: u32) -> Seq<u32>
    decreases pairs.len(),
{
    if pairs.len() == 0 {
        Seq::empty()
    } else if pairs.last().1 == node {
        spec_gpus_on(pairs.drop_last(), node).push(pairs.last().0)
    } else {
        spec_gpus_on(pairs.drop_last(), node)
    }
}

/// Every device the selection yields comes from the affinity list, and a
/// list that maps each device at most once yields no duplicates.
pub proof fn lemma_gpus_on_distinct(pairs: Seq<(u32, u32)>, node: u32)
    ensures
        forall|k: int| #![trigger spec_gpus_on(pairs, node)[k]]
            0 <= k < spec_gpus_on(pairs, node).len() ==> exists|i: int|
                0 <= i < pairs.len() && (#[trigger] pairs[i]).0 == spec_gpus_on(pairs, node)[k],
        (forall|i: int, j: int| 0 <= i < j < pairs.len() ==> pairs[i].0 != pairs[j].0) ==> (
        forall|a: int, b: int|
            0 <= a < b < spec_gpus_on(pairs, node).len() ==> spec_gpus_on(pairs, node)[a]
                != spec_gpus_on(pairs, node)[b]),
    decreases pairs.len(),
{
    if pairs.len() > 0 {
        lemma_gpus_on_distinct(pairs.drop_last(), node);
        let rest = spec_gpus_on(pairs.drop_last(), node);
        let whole = spec_gpus_on(pairs, node);
        assert forall|k: int| #![trigger whole[k]]
            0 <= k < whole.len() implies exists|i: int|
            0 <= i < pairs.len() && (#[trigger] pairs[i]).0 == whole[k] by {
            if k < rest.len() {
                let i = choose|i: int|
                    0 <= i < pairs.drop_last().len() && (#[trigger] pairs.drop_last()[i]).0
                        == rest[k];
                assert(pairs[i].0 == whole[k]);
            } else {
                assert(pairs[pairs.len() - 1].0 == whole[k]);
            }
        }
        if forall|i: int, j: int| 0 <= i < j < pairs.len() ==> pairs[i].0 != pairs[j].0 {
            assert forall|i: int, j: int|
                0 <= i < j < pairs.drop_last().len() implies pairs.drop_last()[i].0
                != pairs.drop_last()[j].0 by {
                assert(pairs[i].0 != pairs[j].0);
            }
            if pairs.last().1 == node {
                assert forall|a: int, b: int|
                    0 <= a < b < whole.len() implies whole[a] != whole[b] by {
                    if b < rest.len() {
                        assert(whole[a] == rest[a] && whole[b] == rest[b]);
                    } else {
                        assert(whole[b] == pairs.last().0);
                        assert(whole[a] == rest[a]);
                        let i = choose|i: int|
                            0 <= i < pairs.drop_last().len() && (
                            #[trigger] pairs.drop_last()[i]).0 == rest[a];
                        assert(pairs[i].0 != pairs[pairs.len() - 1].0);
                    }
                }
            }
        }
    }
}

/// Sum of the total memory of a device sequence.
pub open spec fn spec_total_memory(devices: Seq<GpuDevice>) -> int
    decreases devices.len(),
{
    if devices.len() == 0 {
        0
    } else {
        spec_total_memory(devices.drop_last()) + devices.last().total_memory
    }
}

/// Sum of the free memory of a device sequence.
pub open spec fn spec_free_memory(devices: Seq<GpuDevice>) -> int
    decreases devices.len(),
{
    if devices.len() == 0 {
        0
    } else {
        spec_free_memory(devices.drop_last()) + devices.last().free_memory
    }
}

impl GpuTopology {
    /// A topology with no devices, for hosts without a usable driver.
    pub fn empty() -> (t: GpuTopology)
        ensures
            t.devices@ == Seq::<GpuDevice>::empty(),
            t.nvlink_connections@ == Seq::<NvLinkConnection>::empty(),
            !t.nvswitch_present,
            t.numa_affinity@ == Seq::<(u32, u32)>::empty(),
    {
        GpuTopology {
            devices: Vec::new(),
            nvlink_connections: Vec::new(),
            nvswitch_present: false,
            numa_affinity: Vec::new(),
        }
    }

    /// Number of GPUs.
    pub fn gpu_count(&self) -> (r: usize)
        ensures
            r == self.devices@.len(),
    {
        self.devices.len()
    }

    /// Whether a fast link connects the two GPUs, in either direction.
    pub fn has_nvlink(&self, gpu1: u32, gpu2: u32) -> (r: bool)
        ensures
            r == spec_linked(self.nvlink_connections@, gpu1, gpu2),
    {
        let n = self.nvlink_connections.len();
        let mut i: usize = 0;
        while i < n
            invariant
                n == self.nvlink_connections@.len(),
                i <= n,
                forall|k: int|
                    0 <= k < i ==> !((self.nvlink_connections@[k].source == gpu1
                        && self.nvlink_connections@[k].target == gpu2) || (
                    self.nvlink_connections@[k].source == gpu2 && self.nvlink_connections@[k].target
                        == gpu1)),
            decreases n - i,
        {
            let c = &self.nvlink_connections[i];
            if (c.source == gpu1 && c.target == gpu2) || (c.source == gpu2 && c.target == gpu1) {
                return true;
            }
            i = i + 1;
        }
        false
    }

    /// The affinity list maps each device to at most one NUMA node; this
    /// is what the selection's freedom from duplicates rests on.
    pub open spec fn spec_affinity_unique(self) -> bool {
        forall|i: int, j: int|
            0 <= i < j < self.numa_affinity@.len() ==> self.numa_affinity@[i].0
                != self.numa_affinity@[j].0
    }

    /// The GPUs on the given NUMA node, in affinity-list order; with a
    /// well-formed affinity list no device appears twice.
    pub fn gpus_on_numa(&self, numa_node: u32) -> (r: Vec<u32>)
        ensures
            r@ == spec_gpus_on(self.numa_affinity@, numa_node),
            self.spec_affinity_unique() ==> forall|a: int, b: int|
                0 <= a < b < r@.len() ==> r@[a] != r@[b],
    {
        proof {
            lemma_gpus_on_distinct(self.numa_affinity@, numa_node);
        }
        let mut r: Vec<u32> = Vec::new();
        let n = self.numa_affinity.len();
        let mut i: usize = 0;
        proof {
            assert(self.numa_affinity@.subrange(0, 0) =~= Seq::<(u32, u32)>::empty());
        }
        while i < n
            invariant
                n == self.numa_affinity@.len(),
                i <= n,
                r@ == spec_gpus_on(self.numa_affinity@.subrange(0, i as int), numa_node),
            decreases n - i,
        {
            let pair = self.numa_affinity[i];
            proof {
                let pre = self.numa_affinity@.subrange(0, i as int);
                let post = self.numa_affinity@.subrange(0, i + 1 as int);
                assert(post.drop_last() =~= pre);
                assert(post.last() == self.numa_affinity@[i as int]);
            }
            if pair.1 == numa_node {
                r.push(pair.0);
            }
            i = i + 1;
        }
        proof {
            assert(self.numa_affinity@.subrange(0, n as int) =~= self.numa_affinity@);
        }
        r
    }

    /// Total GPU memory over all devices, clamped to the counter range.
    pub fn total_memory(&self) -> (r: u64)
        ensures
            r == if spec_total_memory(self.devices@) <= u64::MAX {
                spec_total_memory(self.devices@)
            } else {
                u64::MAX as int
            },
    {
        let mut total: u64 = 0;
        let n = self.devices.len();
        let mut i: usize = 0;
        proof {
            assert(self.devices@.subrange(0, 0) =~= Seq::<GpuDevice>::empty());
        }
        while i < n
            invariant
                n == self.devices@.len(),
                i <= n,
                total == if spec_total_memory(self.devices@.subrange(0, i as int)) <= u64::MAX {
                    spec_total_memory(self.devices@.subrange(0, i as int))
                } else {
                    u64::MAX as int
                },
            decreases n - i,
        {
            total = total.saturating_add(self.devices[i].total_memory);
            proof {
                let pre = self.devices@.subrange(0, i as int);
                let post = self.devices@.subrange(0, i + 1 as int);
                assert(post.drop_last() =~= pre);
                assert(post.last() == self.devices@[i as int]);
            }
            i = i + 1;
        }
        proof {
            assert(self.devices@.subrange(0, n as int) =~= self.devices@);
        }
        total
    }

    /// Total free GPU memory over all devices, clamped to the counter
    /// range.
    pub fn free_memory(&self) -> (r: u64)
        ensures
            r == if spec_free_memory(self.devices@) <= u64::MAX {
                spec_free_memory(self.devices@)
            } else {
                u64::MAX as int
            },
    {
        let mut total: u64 = 0;
        let n = self.devices.len();
        let mut i: usize = 0;
        proof {
            assert(self.devices@.subrange(0, 0) =~= Seq::<GpuDevice>::empty());
        }
        while i < n
            invariant
                n == self.devices@.len(),
                i <= n,
                total == if spec_free_memory(self.devices@.subrange(0, i as int)) <= u64::MAX {
                    spec_free_memory(self.devices@.subrange(0, i as int))
                } else {
                    u64::MAX as int
                },
            decreases n - i,
        {
            total = total.saturating_add(self.devices[i].free_memory);
            proof {
                let pre = self.devices@.subrange(0, i as int);
                let post = self.devices@.subrange(0, i + 1 as int);
                assert(post.drop_last() =~= pre);
                assert(post.last() == self.devices@[i as int]);
            }
            i = i + 1;
        }
        proof {
            assert(self.devices@.subrange(0, n as int) =~= self.devices@);
        }
        total
    }
}

} // verus!
