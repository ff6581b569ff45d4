//! The machine's NUMA layout, as the runtime reasons about it.
//!
//! Discovery reads the operating system and lives with the surrounding
//! runtime; the model here holds what the engine's decisions read: the
//! nodes, their CPU sets, and their memory.

use vstd::prelude::*;

verus! {

/// One NUMA node: its identifier, the CPUs it owns, and its memory.
#[derive(Debug, Clone, PartialEq, Eq)]
pub struct NumaNode {
    /// The node identifier.
    pub node_id: u32,
    /// Indices of the CPU cores on this node.
    pub cpu_cores: Vec<usize>,
    /// Bytes of memory attached to this node.
    pub total_memory: u64,
}

/// The NUMA layout: the nodes in identifier order.
#[derive(Debug, Clone, PartialEq, Eq)]
pub struct NumaTopology {
    /// The nodes.
    pub nodes: Vec<NumaNode>,
}

/// Sum of the CPU counts of a node sequence.
pub open spec fn spec_cpu_count(nodes: Seq<NumaNode>) -> int
    decreases nodes.len(),
{
    if nodes.len() == 0 {
        0
    } else {
        spec_cpu_count(nodes.drop_last()) + nodes.last().cpu_cores.len()
    }
}

/// Sum of the memory of a node sequence.
pub open spec fn spec_memory(nodes: Seq<NumaNode>) -> int
    decreases nodes.len(),
{
    if nodes.len() == 0 {
        0
    } else {
        spec_memory(nodes.drop_last()) + nodes.last().total_memory
    }
}

impl NumaTopology {
    /// Build a topology from discovered nodes.
    pub fn from_nodes(nodes: Vec<NumaNode>) -> (t: NumaTopology)
        ensures
            t.nodes == nodes,
    {
        NumaTopology { nodes }
    }

    /// A topology with no nodes, for hosts whose layout cannot be read.
    pub fn empty() -> (t: NumaTopology)
        ensures
            t.nodes@ == Seq::<NumaNode>::empty(),
    {
        NumaTopology { nodes: Vec::new() }
    }

    /// Number of NUMA nodes.
    pub fn num_nodes(&self) -> (r: usize)
        ensures
            r == self.nodes@.len(),
    {
        self.nodes.len()
    }

    /// The nodes, for iteration.
    pub fn nodes(&self) -> (r: &Vec<NumaNode>)
        ensures
            r == &self.nodes,
    {
        &self.nodes
    }

    /// Total number of CPUs over all nodes, clamped to the machine word.
    pub fn num_cpus(&self) -> (r: usize)
        ensures
            r == if spec_cpu_count(self.nodes@) <= usize::MAX {
                spec_cpu_count(self.nodes@)
            } else {
                usize::MAX as int
            },
    {
        let mut total: usize = 0;
        let n = self.nodes.len();
        let mut i: usize = 0;
        proof {
            assert(self.nodes@.subrange(0, 0) =~= Seq::<NumaNode>::empty());
        }
        while i < n
            invariant
                n == self.nodes@.len(),
                i <= n,
                total == if spec_cpu_count(self.nodes@.subrange(0, i as int)) <= usize::MAX {
                    spec_cpu_count(self.nodes@.subrange(0, i as int))
                } else {
                    usize::MAX as int
                },
            decreases n - i,
        {
            total = total.saturating_add(self.nodes[i].cpu_cores.len());
            proof {
                let pre = self.nodes@.subrange(0, i as int);
                let post = self.nodes@.subrange(0, i + 1 as int);
                assert(post.drop_last() =~= pre);
                assert(post.last() == self.nodes@[i as int]);
            }
            i = i + 1;
        }
        proof {
            assert(self.nodes@.subrange(0, n as int) =~= self.nodes@);
        }
        total
    }

    /// Total memory over all nodes, clamped to the counter range.
    pub fn total_memory(&self) -> (r: u64)
        ensures
            r == if spec_memory(self.nodes@) <= u64::MAX {
                spec_memory(self.nodes@)
            } else {
                u64::MAX as int
            },
    {
        let mut total: u64 = 0;
        let n = self.nodes.len();
        let mut i: usize = 0;
        proof {
            assert(self.nodes@.subrange(0, 0) =~= Seq::<NumaNode>::empty());
        }
        while i < n
            invariant
                n == self.nodes@.len(),
                i <= n,
                total == if spec_memory(self.nodes@.subrange(0, i as int)) <= u64::MAX {
                    spec_memory(self.nodes@.subrange(0, i as int))
                } else {
                    u64::MAX as int
                },
            decreases n - i,
        {
            total = total.saturating_add(self.nodes[i].total_memory);
            proof {
                let pre = self.nodes@.subrange(0, i as int);
                let post = self.nodes@.subrange(0, i + 1 as int);
                assert(post.drop_last() =~= pre);
                assert(post.last() == self.nodes@[i as int]);
            }
            i = i + 1;
        }
        proof {
            assert(self.nodes@.subrange(0, n as int) =~= self.nodes@);
        }
        total
    }
}

} // verus!
