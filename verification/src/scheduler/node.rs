//! Worker nodes and the node registry.

use vstd::prelude::*;
use crate::scheduler::job::LinkKind;

verus! {

/// Liveness state of a worker node.
#[derive(Debug, Clone, Copy, PartialEq, Eq, Structural)]
pub enum NodeState {
    /// Heartbeating and accepting placements.
    Active,
    /// Heartbeat lapsed; placements lost.
    Inactive,
    /// Withdrawn by the operator.
    Maintenance,
}

/// One accelerator of a node, with its topology descriptors.
#[derive(Debug, Clone, Copy, PartialEq, Eq, Structural)]
pub struct Accelerator {
    /// Device index on the node; equals its position in the node's list.
    pub index: u32,
    /// Device memory in bytes.
    pub memory: u64,
    /// Compute capability.
    pub capability: u32,
    /// The link group the device belongs to; devices of one group are
    /// pairwise connected.
    pub link_group: u32,
    /// The kind of link joining the device's group.
    pub link_kind: LinkKind,
    /// The memory domain the device belongs to.
    pub memory_domain: u32,
}

/// A worker node: identity, capacities, devices, and liveness.
#[derive(Debug, Clone, PartialEq, Eq)]
pub struct Node {
    /// Unique node identifier.
    pub id: u64,
    /// Network address.
    pub address: String,
    /// CPU cores offered.
    pub cpu_capacity: u32,
    /// Host memory offered, in bytes.
    pub memory_capacity: u64,
    /// The accelerators, indexed by position.
    pub accelerators: Vec<Accelerator>,
    /// Liveness state.
    pub state: NodeState,
    /// Timestamp of the last heartbeat received.
    pub last_heartbeat: u64,
}

impl Node {
    /// Well-formed node: each accelerator's index names its position.
    pub open spec fn wf(self) -> bool {
        forall|i: int|
            0 <= i < self.accelerators@.len() ==> (#[trigger] self.accelerators@[i]).index == i
    }

    /// Check well-formedness.
    pub fn check_wf(&self) -> (r: bool)
        ensures
            r == self.wf(),
    {
        let n = self.accelerators.len();
        let mut i: usize = 0;
        while i < n
            invariant
                n == self.accelerators@.len(),
                i <= n,
                forall|k: int| 0 <= k < i ==> (#[trigger] self.accelerators@[k]).index == k,
            decreases n - i,
        {
            if self.accelerators[i].index as usize != i {
                return false;
            }
            i = i + 1;
        }
        true
    }
}

/// The registry of worker nodes.
#[derive(Debug, Clone, PartialEq, Eq)]
pub struct NodeRegistry {
    /// The nodes, in registration order.
    pub nodes: Vec<Node>,
}

impl NodeRegistry {
    /// Well-formed registry: node identifiers unique, each node well
    /// formed.
    pub open spec fn wf(self) -> bool {
        &&& forall|i: int, j: int|
            0 <= i < j < self.nodes@.len() ==> self.nodes@[i].id != self.nodes@[j].id
        &&& forall|i: int| 0 <= i < self.nodes@.len() ==> (#[trigger] self.nodes@[i]).wf()
    }

    /// Whether some node carries the given identifier.
    pub open spec fn spec_has_node(self, node_id: u64) -> bool {
        exists|i: int| 0 <= i < self.nodes@.len() && self.nodes@[i].id == node_id
    }

    /// An empty registry.
    pub fn new() -> (r: NodeRegistry)
        ensures
            r.nodes@ == Seq::<Node>::empty(),
            r.wf(),
    {
        NodeRegistry { nodes: Vec::new() }
    }

    /// Number of registered nodes.
    pub fn len(&self) -> (r: usize)
        ensures
            r == self.nodes@.len(),
    {
        self.nodes.len()
    }

    /// The position of the node with the given identifier.
    pub fn find(&self, node_id: u64) -> (r: Option<usize>)
        ensures
            r matches Some(i) ==> i < self.nodes@.len() && self.nodes@[i as int].id == node_id,
            r is None ==> !self.spec_has_node(node_id),
    {
        let n = self.nodes.len();
        let mut i: usize = 0;
        while i < n
            invariant
                n == self.nodes@.len(),
                i <= n,
                forall|k: int| 0 <= k < i ==> self.nodes@[k].id != node_id,
            decreases n - i,
        {
            if self.nodes[i].id == node_id {
                return Some(i);
            }
            i = i + 1;
        }
        None
    }

    /// Register a node. Rejected when the identifier is taken or the
    /// node's device indices do not match their positions; accepted
    /// exactly otherwise, appending the node.
    pub fn register(&mut self, node: Node) -> (r: bool)
        requires
            old(self).wf(),
        ensures
            final(self).wf(),
            r == (!old(self).spec_has_node(node.id) && node.wf()),
            r ==> final(self).nodes@ == old(self).nodes@.push(node),
            !r ==> final(self).nodes@ == old(self).nodes@,
    {
        if !node.check_wf() {
            return false;
        }
        match self.find(node.id) {
            Some(_) => {
                proof {
                    assert(old(self).spec_has_node(node.id));
                }
                false
            },
            None => {
                self.nodes.push(node);
                true
            },
        }
    }

    /// Record a heartbeat: refresh the node's timestamp and bring an
    /// inactive node back to active. A maintenance node stays withdrawn.
    /// Returns whether the node is known.
    pub fn heartbeat(&mut self, node_id: u64, now: u64) -> (r: bool)
        requires
            old(self).wf(),
        ensures
            final(self).wf(),
            final(self).nodes@.len() == old(self).nodes@.len(),
            r == old(self).spec_has_node(node_id),
            forall|k: int|
                0 <= k < final(self).nodes@.len() ==> {
                    let before = old(self).nodes@[k];
                    let after = #[trigger] final(self).nodes@[k];
                    if before.id == node_id {
                        &&& after.last_heartbeat == now
                        &&& after.state == (if before.state is Inactive {
                            NodeState::Active
                        } else {
                            before.state
                        })
                        &&& after.id == before.id
                        &&& after.cpu_capacity == before.cpu_capacity
                        &&& after.memory_capacity == before.memory_capacity
                        &&& after.accelerators == before.accelerators
                    } else {
                        after == before
                    }
                },
    {
        let idx = match self.find(node_id) {
            Some(i) => i,
            None => {
                proof {
                    assert(!old(self).spec_has_node(node_id));
                }
                return false;
            },
        };
        let node = &mut self.nodes[idx];
        node.last_heartbeat = now;
        if matches!(node.state, NodeState::Inactive) {
            node.state = NodeState::Active;
        }
        proof {
            assert forall|k: int| 0 <= k < self.nodes@.len() implies (#[trigger] self.nodes@[k]).wf()
            by {
                assert(old(self).nodes@[k].wf());
                if k != idx {
                    assert(self.nodes@[k] == old(self).nodes@[k]);
                }
            }
            assert forall|k: int|
                0 <= k < self.nodes@.len() implies old(self).nodes@[k].id != node_id || k
                == idx by {
                if k != idx && old(self).nodes@[k].id == node_id {
                    assert(old(self).nodes@[idx as int].id == node_id);
                }
            }
        }
        true
    }
}

} // verus!
