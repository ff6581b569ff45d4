//! The scheduling engine: queueing, feasibility, gang reservation,
//! backfill, preemption, and the heartbeat sweep.
//!
//! The registry and the job queue are mutated only through the operations
//! here, each of which preserves the scheduler invariant: reservations
//! name running jobs and known nodes, no device is booked twice, and the
//! resources committed on every node stay within its capacity.

use vstd::prelude::*;
use crate::scheduler::config::SchedulerConfig;
use crate::scheduler::job::{
    Constraint, Job, JobDescriptor, JobState, Reservation, ReservationEntry, ResourceLimits,
};
use crate::scheduler::node::{Accelerator, Node, NodeRegistry, NodeState};
use crate::scheduler::Error;

verus! {

/// Sum of a measure over a sequence.
pub open spec fn spec_sum<T>(s: Seq<T>, f: spec_fn(T) -> int) -> int
    decreases s.len(),
{
    if s.len() == 0 {
        0
    } else {
        spec_sum(s.drop_last(), f) + f(s.last())
    }
}

/// A sum of a nonnegative measure is monotone in the prefix.
pub proof fn lemma_sum_prefix_le<T>(s: Seq<T>, f: spec_fn(T) -> int, i: int)
    requires
        0 <= i <= s.len(),
        forall|t: T| #[trigger] f(t) >= 0,
    ensures
        spec_sum(s.subrange(0, i), f) <= spec_sum(s, f),
        spec_sum(s, f) >= 0,
    decreases s.len(),
{
    if s.len() == 0 {
        assert(s.subrange(0, i) =~= s);
    } else if i == s.len() {
        assert(s.subrange(0, i) =~= s);
        lemma_sum_prefix_le(s.drop_last(), f, s.len() - 1);
    } else {
        assert(s.subrange(0, i) =~= s.drop_last().subrange(0, i));
        lemma_sum_prefix_le(s.drop_last(), f, i);
    }
}

/// Removing one element removes exactly its measure from the sum.
pub proof fn lemma_sum_remove<T>(s: Seq<T>, f: spec_fn(T) -> int, i: int)
    requires
        0 <= i < s.len(),
    ensures
        spec_sum(s.remove(i), f) == spec_sum(s, f) - f(s[i]),
    decreases s.len(),
{
    if i == s.len() - 1 {
        assert(s.remove(i) =~= s.drop_last());
    } else {
        lemma_sum_remove(s.drop_last(), f, i);
        assert(s.remove(i).drop_last() =~= s.drop_last().remove(i));
        assert(s.remove(i).last() == s.last());
    }
}

/// Pointwise-equal measures have equal sums.
pub proof fn lemma_sum_pointwise<T>(s: Seq<T>, f: spec_fn(T) -> int, g: spec_fn(T) -> int)
    requires
        forall|t: T| #[trigger] f(t) == g(t),
    ensures
        spec_sum(s, f) == spec_sum(s, g),
    decreases s.len(),
{
    if s.len() > 0 {
        lemma_sum_pointwise(s.drop_last(), f, g);
    }
}

/// A sum over a sequence equals the sum over the prefix before `i`, plus
/// the element at `i`, plus the sum over the rest.
pub proof fn lemma_sum_push<T>(s: Seq<T>, f: spec_fn(T) -> int, t: T)
    ensures
        spec_sum(s.push(t), f) == spec_sum(s, f) + f(t),
{
    assert(s.push(t).drop_last() =~= s);
}

/// How many times `dev` occurs in a device list.
pub open spec fn spec_count_dev(devs: Seq<u32>, dev: u32) -> int
    decreases devs.len(),
{
    if devs.len() == 0 {
        0
    } else {
        spec_count_dev(devs.drop_last(), dev) + if devs.last() == dev {
            1int
        } else {
            0int
        }
    }
}

/// A device count is nonnegative, and zero exactly when the device is
/// absent.
pub proof fn lemma_count_dev_member(devs: Seq<u32>, dev: u32)
    ensures
        spec_count_dev(devs, dev) >= 0,
        (spec_count_dev(devs, dev) > 0) == (exists|i: int| 0 <= i < devs.len() && devs[i] == dev),
    decreases devs.len(),
{
    if devs.len() == 0 {
    } else {
        lemma_count_dev_member(devs.drop_last(), dev);
        if spec_count_dev(devs, dev) > 0 {
            if devs.last() == dev {
                assert(devs[devs.len() - 1] == dev);
            } else {
                let i = choose|i: int|
                    0 <= i < devs.len() - 1 && devs.drop_last()[i] == dev;
                assert(devs[i] == dev);
            }
        }
        if exists|i: int| 0 <= i < devs.len() && devs[i] == dev {
            let i = choose|i: int| 0 <= i < devs.len() && devs[i] == dev;
            if i < devs.len() - 1 {
                assert(devs.drop_last()[i] == dev);
            }
        }
    }
}

/// In a duplicate-free device list every count is at most one.
pub proof fn lemma_count_dev_distinct(devs: Seq<u32>, dev: u32)
    requires
        forall|i: int, j: int| 0 <= i < j < devs.len() ==> devs[i] != devs[j],
    ensures
        spec_count_dev(devs, dev) <= 1,
    decreases devs.len(),
{
    if devs.len() == 0 {
    } else {
        lemma_count_dev_distinct(devs.drop_last(), dev);
        if devs.last() == dev {
            lemma_count_dev_member(devs.drop_last(), dev);
            if spec_count_dev(devs.drop_last(), dev) > 0 {
                let i = choose|i: int|
                    0 <= i < devs.len() - 1 && devs.drop_last()[i] == dev;
                assert(devs[i] == devs[devs.len() - 1]);
            }
        } else {
            lemma_count_dev_member(devs.drop_last(), dev);
        }
    }
}

/// The CPU cores an entry list debits on one node.
pub open spec fn spec_entries_cpu(entries: Seq<ReservationEntry>, node_id: u64) -> int {
    spec_sum(
        entries,
        |e: ReservationEntry|
            if e.node_id == node_id {
                e.cpu_cores as int
            } else {
                0
            },
    )
}

/// The host memory an entry list debits on one node.
pub open spec fn spec_entries_mem(entries: Seq<ReservationEntry>, node_id: u64) -> int {
    spec_sum(
        entries,
        |e: ReservationEntry|
            if e.node_id == node_id {
                e.memory_bytes as int
            } else {
                0
            },
    )
}

/// How many times an entry list books one device of one node.
pub open spec fn spec_entries_dev(entries: Seq<ReservationEntry>, node_id: u64, dev: u32) -> int {
    spec_sum(
        entries,
        |e: ReservationEntry|
            if e.node_id == node_id {
                spec_count_dev(e.device_indices@, dev)
            } else {
                0
            },
    )
}

/// The CPU cores all reservations together debit on one node.
pub open spec fn spec_res_cpu(rs: Seq<Reservation>, node_id: u64) -> int {
    spec_sum(rs, |r: Reservation| spec_entries_cpu(r.entries@, node_id))
}

/// The host memory all reservations together debit on one node.
pub open spec fn spec_res_mem(rs: Seq<Reservation>, node_id: u64) -> int {
    spec_sum(rs, |r: Reservation| spec_entries_mem(r.entries@, node_id))
}

/// How many reservations book one device of one node.
pub open spec fn spec_res_dev(rs: Seq<Reservation>, node_id: u64, dev: u32) -> int {
    spec_sum(rs, |r: Reservation| spec_entries_dev(r.entries@, node_id, dev))
}

/// Whether some reservation books the device.
pub open spec fn spec_device_reserved(rs: Seq<Reservation>, node_id: u64, dev: u32) -> bool {
    spec_res_dev(rs, node_id, dev) > 0
}

/// Entry measures are nonnegative.
pub proof fn lemma_entry_measures_nonneg(entries: Seq<ReservationEntry>, node_id: u64, dev: u32)
    ensures
        spec_entries_cpu(entries, node_id) >= 0,
        spec_entries_mem(entries, node_id) >= 0,
        spec_entries_dev(entries, node_id, dev) >= 0,
    decreases entries.len(),
{
    if entries.len() > 0 {
        lemma_entry_measures_nonneg(entries.drop_last(), node_id, dev);
        lemma_count_dev_member(entries.last().device_indices@, dev);
    }
}

/// Reservation measures are nonnegative.
pub proof fn lemma_res_measures_nonneg(rs: Seq<Reservation>, node_id: u64, dev: u32)
    ensures
        spec_res_cpu(rs, node_id) >= 0,
        spec_res_mem(rs, node_id) >= 0,
        spec_res_dev(rs, node_id, dev) >= 0,
    decreases rs.len(),
{
    if rs.len() > 0 {
        lemma_res_measures_nonneg(rs.drop_last(), node_id, dev);
        lemma_entry_measures_nonneg(rs.last().entries@, node_id, dev);
    }
}

/// In an entry list whose node identifiers are distinct, the debit on a
/// node is the debit of its sole entry, or nothing.
pub proof fn lemma_entries_unique(entries: Seq<ReservationEntry>, node_id: u64, dev: u32)
    requires
        forall|i: int, j: int|
            0 <= i < j < entries.len() ==> entries[i].node_id != entries[j].node_id,
    ensures
        (forall|i: int| 0 <= i < entries.len() ==> entries[i].node_id != node_id) ==> {
            &&& spec_entries_cpu(entries, node_id) == 0
            &&& spec_entries_mem(entries, node_id) == 0
            &&& spec_entries_dev(entries, node_id, dev) == 0
        },
        forall|i: int|
            0 <= i < entries.len() && (#[trigger] entries[i]).node_id == node_id ==> {
                &&& spec_entries_cpu(entries, node_id) == entries[i].cpu_cores
                &&& spec_entries_mem(entries, node_id) == entries[i].memory_bytes
                &&& spec_entries_dev(entries, node_id, dev) == spec_count_dev(
                    entries[i].device_indices@,
                    dev,
                )
            },
    decreases entries.len(),
{
    if entries.len() > 0 {
        lemma_entries_unique(entries.drop_last(), node_id, dev);
        lemma_entry_measures_nonneg(entries.drop_last(), node_id, dev);
        assert forall|i: int|
            0 <= i < entries.len() && (#[trigger] entries[i]).node_id == node_id implies {
            &&& spec_entries_cpu(entries, node_id) == entries[i].cpu_cores
            &&& spec_entries_mem(entries, node_id) == entries[i].memory_bytes
            &&& spec_entries_dev(entries, node_id, dev) == spec_count_dev(
                entries[i].device_indices@,
                dev,
            )
        } by {
            if i == entries.len() - 1 {
                assert forall|k: int|
                    0 <= k < entries.len() - 1 implies (#[trigger] entries.drop_last()[k]).node_id
                    != node_id by {
                    assert(entries[k].node_id != entries[i].node_id);
                }
            } else {
                assert(entries.drop_last()[i].node_id == node_id);
                assert(entries.last().node_id != entries[i].node_id);
            }
        }
    }
}


/// What one scheduling cycle did.
#[derive(Debug, Clone, PartialEq, Eq)]
pub struct CycleReport {
    /// Jobs placed this cycle, in placement order.
    pub placed: Vec<u64>,
    /// Jobs moved from running back to queued to make room.
    pub preempted: Vec<u64>,
}

/// The gang scheduler.
pub struct Scheduler {
    config: SchedulerConfig,
    registry: NodeRegistry,
    jobs: Vec<Job>,
    reservations: Vec<Reservation>,
    principal_quotas: Vec<(u32, ResourceLimits)>,
    project_quotas: Vec<(u32, ResourceLimits)>,
    next_job_id: u64,
    preemption_margin: u32,
}

impl Scheduler {
    /// The jobs, in submission order.
    pub closed spec fn spec_jobs(&self) -> Seq<Job> {
        self.jobs@
    }

    /// The live reservations.
    pub closed spec fn spec_reservations(&self) -> Seq<Reservation> {
        self.reservations@
    }

    /// The node registry.
    pub closed spec fn spec_registry(&self) -> NodeRegistry {
        self.registry
    }

    /// The configuration.
    pub closed spec fn spec_config(&self) -> SchedulerConfig {
        self.config
    }

    /// The priority margin preemption requires.
    pub closed spec fn spec_margin(&self) -> u32 {
        self.preemption_margin
    }

    /// The identifier the next submitted job will receive.
    pub closed spec fn spec_next_job_id(&self) -> u64 {
        self.next_job_id
    }

    /// The job carrying an identifier, when one does.
    pub open spec fn spec_job_of(&self, job_id: u64) -> Option<Job> {
        if exists|i: int| 0 <= i < self.spec_jobs().len() && self.spec_jobs()[i].id == job_id {
            Some(
                self.spec_jobs()[choose|i: int|
                    0 <= i < self.spec_jobs().len() && self.spec_jobs()[i].id == job_id],
            )
        } else {
            None
        }
    }

    /// The node carrying an identifier, when one does.
    pub open spec fn spec_node_of(&self, node_id: u64) -> Option<Node> {
        if self.spec_registry().spec_has_node(node_id) {
            Some(
                self.spec_registry().nodes@[choose|i: int|
                    0 <= i < self.spec_registry().nodes@.len()
                        && self.spec_registry().nodes@[i].id == node_id],
            )
        } else {
            None
        }
    }

    /// The scheduler invariant.
    ///
    /// Structure: node and job identifiers are unique and below the
    /// identifier counter; every reservation names a running job, no two
    /// reservations name one job, every entry names a known node with
    /// valid, duplicate-free device indices.
    ///
    /// Capacity: on every node, the committed cores and memory stay
    /// within its capacity and no device is booked twice.
    pub closed spec fn wf(&self) -> bool {
        &&& self.registry.wf()
        &&& forall|i: int, j: int|
            0 <= i < j < self.jobs@.len() ==> self.jobs@[i].id != self.jobs@[j].id
        &&& forall|i: int| 0 <= i < self.jobs@.len() ==> (#[trigger] self.jobs@[i]).id < self.next_job_id
        &&& forall|i: int, j: int|
            0 <= i < j < self.reservations@.len() ==> self.reservations@[i].job_id
                != self.reservations@[j].job_id
        &&& forall|i: int|
            0 <= i < self.reservations@.len() ==> exists|k: int|
                0 <= k < self.jobs@.len() && self.jobs@[k].id == (
                #[trigger] self.reservations@[i]).job_id && self.jobs@[k].state is Running
        &&& forall|i: int, k: int|
            0 <= i < self.reservations@.len() && 0 <= k < self.reservations@[i].entries@.len()
                ==> self.spec_entry_on_node(#[trigger] self.reservations@[i].entries@[k])
        &&& forall|n: int|
            0 <= n < self.registry.nodes@.len() ==> self.spec_node_within_capacity(
                #[trigger] self.registry.nodes@[n],
            )
    }

    /// An entry names a known node and books valid, duplicate-free
    /// devices on it.
    pub closed spec fn spec_entry_on_node(&self, e: ReservationEntry) -> bool {
        &&& self.registry.spec_has_node(e.node_id)
        &&& forall|d: int|
            0 <= d < e.device_indices@.len() ==> ((#[trigger] e.device_indices@[d]) as int)
                < self.spec_node_of(e.node_id)->Some_0.accelerators@.len()
        &&& forall|d1: int, d2: int|
            0 <= d1 < d2 < e.device_indices@.len() ==> e.device_indices@[d1]
                != e.device_indices@[d2]
    }

    /// The committed resources on a node stay within its capacity, and no
    /// device of it is booked twice.
    pub closed spec fn spec_node_within_capacity(&self, n: Node) -> bool {
        &&& spec_res_cpu(self.reservations@, n.id) <= n.cpu_capacity
        &&& spec_res_mem(self.reservations@, n.id) <= n.memory_capacity
        &&& forall|dev: u32| #[trigger] spec_res_dev(self.reservations@, n.id, dev) <= 1
    }

    /// A fresh scheduler with no nodes, jobs, or reservations, and the
    /// given preemption margin.
    pub fn new(config: SchedulerConfig, preemption_margin: u32) -> (s: Scheduler)
        ensures
            s.wf(),
            s.spec_jobs() == Seq::<Job>::empty(),
            s.spec_reservations() == Seq::<Reservation>::empty(),
            s.spec_registry().nodes@ == Seq::<Node>::empty(),
            s.spec_config() == config,
            s.spec_margin() == preemption_margin,
            s.spec_next_job_id() == 0,
    {
        let s = Scheduler {
            config,
            registry: NodeRegistry::new(),
            jobs: Vec::new(),
            reservations: Vec::new(),
            principal_quotas: Vec::new(),
            project_quotas: Vec::new(),
            next_job_id: 0,
            preemption_margin: 0,
        };
        let s = Scheduler { preemption_margin, ..s };
        proof {
            assert forall|n: int|
                0 <= n < s.registry.nodes@.len() implies s.spec_node_within_capacity(
                #[trigger] s.registry.nodes@[n],
            ) by {}
        }
        s
    }

    /// Register a worker node; rejected when its identifier is taken or
    /// its device indices are malformed.
    pub fn register_node(&mut self, node: Node) -> (r: bool)
        requires
            old(self).wf(),
        ensures
            final(self).wf(),
            r == (!old(self).spec_registry().spec_has_node(node.id) && node.wf()),
            r ==> final(self).spec_registry().nodes@ == old(self).spec_registry().nodes@.push(node),
            !r ==> final(self).spec_registry().nodes@ == old(self).spec_registry().nodes@,
            final(self).spec_jobs() == old(self).spec_jobs(),
            final(self).spec_reservations() == old(self).spec_reservations(),
            final(self).spec_config() == old(self).spec_config(),
            final(self).spec_margin() == old(self).spec_margin(),
    {
        let ghost had = self.registry.spec_has_node(node.id);
        let r = self.registry.register(node);
        proof {
            if !r {
                self.lemma_registry_shape_preserved(old(self));
            }
            if r {
                assert forall|n: int|
                    0 <= n < self.registry.nodes@.len() implies self.spec_node_within_capacity(
                    #[trigger] self.registry.nodes@[n],
                ) by {
                    if n < self.registry.nodes@.len() - 1 {
                        assert(self.registry.nodes@[n] == old(self).registry.nodes@[n]);
                        assert(old(self).spec_node_within_capacity(old(self).registry.nodes@[n]));
                    } else {
                        let nd = self.registry.nodes@[n];
                        assert(nd == node);
                        assert(!had);
                        self.lemma_fresh_node_unbooked(node.id);
                    }
                }
                assert forall|i: int, k: int|
                    0 <= i < self.reservations@.len() && 0 <= k
                        < self.reservations@[i].entries@.len() implies self.spec_entry_on_node(
                    #[trigger] self.reservations@[i].entries@[k]) by {
                    assert(old(self).spec_entry_on_node(old(self).reservations@[i].entries@[k]));
                    let e = self.reservations@[i].entries@[k];
                    let j = choose|j: int|
                        0 <= j < old(self).registry.nodes@.len() && old(
                            self,
                        ).registry.nodes@[j].id == e.node_id;
                    assert(self.registry.nodes@[j] == old(self).registry.nodes@[j]);
                    assert(self.registry.spec_has_node(e.node_id));
                    assert(self.spec_node_of(e.node_id) == old(self).spec_node_of(e.node_id));
                }
            }
        }
        r
    }

    /// On a well-formed scheduler, a node identifier no reservation can
    /// name (because the registry does not know it) carries no debits.
    proof fn lemma_fresh_node_unbooked(&self, node_id: u64)
        requires
            forall|i: int, k: int|
                0 <= i < self.spec_reservations().len() && 0 <= k
                    < self.spec_reservations()[i].entries@.len() ==> (
                #[trigger] self.spec_reservations()[i].entries@[k]).node_id != node_id,
        ensures
            spec_res_cpu(self.spec_reservations(), node_id) == 0,
            spec_res_mem(self.spec_reservations(), node_id) == 0,
            forall|dev: u32| #[trigger] spec_res_dev(self.spec_reservations(), node_id, dev) == 0,
    {
        self.lemma_unbooked_rec(self.spec_reservations(), node_id);
    }

    /// Helper induction for `lemma_fresh_node_unbooked`.
    proof fn lemma_unbooked_rec(&self, rs: Seq<Reservation>, node_id: u64)
        requires
            forall|i: int, k: int|
                0 <= i < rs.len() && 0 <= k < rs[i].entries@.len() ==> (
                #[trigger] rs[i].entries@[k]).node_id != node_id,
        ensures
            spec_res_cpu(rs, node_id) == 0,
            spec_res_mem(rs, node_id) == 0,
            forall|dev: u32| #[trigger] spec_res_dev(rs, node_id, dev) == 0,
        decreases rs.len(),
    {
        if rs.len() > 0 {
            assert forall|i: int, k: int|
                0 <= i < rs.drop_last().len() && 0 <= k < rs.drop_last()[i].entries@.len() implies (
                #[trigger] rs.drop_last()[i].entries@[k]).node_id != node_id by {
                assert(rs[i].entries@[k].node_id != node_id);
            }
            self.lemma_unbooked_rec(rs.drop_last(), node_id);
            let last = rs.last();
            assert forall|k: int|
                0 <= k < last.entries@.len() implies (#[trigger] last.entries@[k]).node_id
                != node_id by {
                assert(rs[rs.len() - 1].entries@[k].node_id != node_id);
            }
            assert(spec_entries_cpu(last.entries@, node_id) == 0 && spec_entries_mem(
                last.entries@,
                node_id,
            ) == 0) by {
                Self::lemma_entries_off_node(last.entries@, node_id, 0u32);
            }
            assert(spec_res_cpu(rs, node_id) == 0);
            assert(spec_res_mem(rs, node_id) == 0);
            assert forall|dev: u32| #[trigger] spec_res_dev(rs, node_id, dev) == 0 by {
                Self::lemma_entries_off_node(last.entries@, node_id, dev);
                assert(spec_res_dev(rs.drop_last(), node_id, dev) == 0);
            }
        }
    }

    /// Entries all off one node debit nothing on it.
    proof fn lemma_entries_off_node(entries: Seq<ReservationEntry>, node_id: u64, dev: u32)
        requires
            forall|k: int| 0 <= k < entries.len() ==> (#[trigger] entries[k]).node_id != node_id,
        ensures
            spec_entries_cpu(entries, node_id) == 0,
            spec_entries_mem(entries, node_id) == 0,
            spec_entries_dev(entries, node_id, dev) == 0,
        decreases entries.len(),
    {
        if entries.len() > 0 {
            Self::lemma_entries_off_node(entries.drop_last(), node_id, dev);
        }
    }

    /// Record a heartbeat from a node.
    pub fn heartbeat(&mut self, node_id: u64, now: u64) -> (r: bool)
        requires
            old(self).wf(),
        ensures
            final(self).wf(),
            r == old(self).spec_registry().spec_has_node(node_id),
            final(self).spec_jobs() == old(self).spec_jobs(),
            final(self).spec_reservations() == old(self).spec_reservations(),
            final(self).spec_registry().nodes@.len() == old(self).spec_registry().nodes@.len(),
    {
        let r = self.registry.heartbeat(node_id, now);
        proof {
            self.lemma_registry_shape_preserved(old(self));
        }
        r
    }

    /// When only node states and heartbeats changed (identifiers,
    /// capacities, and accelerators intact) and jobs and reservations are
    /// untouched, the invariant carries over.
    proof fn lemma_registry_shape_preserved(&self, prev: &Scheduler)
        requires
            prev.wf(),
            self.registry.wf(),
            self.jobs@ == prev.jobs@,
            self.reservations@ == prev.reservations@,
            self.next_job_id == prev.next_job_id,
            self.registry.nodes@.len() == prev.registry.nodes@.len(),
            forall|k: int|
                0 <= k < self.registry.nodes@.len() ==> {
                    let a = #[trigger] self.registry.nodes@[k];
                    let b = prev.registry.nodes@[k];
                    a.id == b.id && a.cpu_capacity == b.cpu_capacity && a.memory_capacity
                        == b.memory_capacity && a.accelerators == b.accelerators
                },
        ensures
            self.wf(),
    {
        assert forall|i: int, k: int|
            0 <= i < self.reservations@.len() && 0 <= k < self.reservations@[i].entries@.len()
            implies self.spec_entry_on_node(#[trigger] self.reservations@[i].entries@[k]) by {
            assert(prev.spec_entry_on_node(prev.reservations@[i].entries@[k]));
            let e = self.reservations@[i].entries@[k];
            let j = choose|j: int|
                0 <= j < prev.registry.nodes@.len() && prev.registry.nodes@[j].id == e.node_id;
            assert(self.registry.nodes@[j].id == e.node_id);
            assert(self.registry.spec_has_node(e.node_id));
            let j2 = choose|j2: int|
                0 <= j2 < self.registry.nodes@.len() && self.registry.nodes@[j2].id == e.node_id;
            assert(prev.registry.nodes@[j2].id == e.node_id);
            assert(prev.spec_node_of(e.node_id) == Some(prev.registry.nodes@[j2]));
            assert(self.spec_node_of(e.node_id).is_some());
            assert(self.spec_node_of(e.node_id)->Some_0.accelerators@.len()
                == prev.spec_node_of(e.node_id)->Some_0.accelerators@.len());
        }
        assert forall|n: int|
            0 <= n < self.registry.nodes@.len() implies self.spec_node_within_capacity(
            #[trigger] self.registry.nodes@[n],
        ) by {
            assert(prev.spec_node_within_capacity(prev.registry.nodes@[n]));
            assert(self.registry.nodes@[n].id == prev.registry.nodes@[n].id);
        }
    }
}


impl Scheduler {
    /// Submit a job: it enters the queue immediately, in `Queued` state,
    /// under a fresh identifier.
    pub fn submit(&mut self, descriptor: JobDescriptor, now: u64) -> (r: u64)
        requires
            old(self).wf(),
            old(self).spec_next_job_id() < u64::MAX,
        ensures
            final(self).wf(),
            r == old(self).spec_next_job_id(),
            final(self).spec_jobs() == old(self).spec_jobs().push(
                Job { id: r, descriptor, submitted_at: now, state: JobState::Queued },
            ),
            final(self).spec_next_job_id() == old(self).spec_next_job_id() + 1,
            final(self).spec_reservations() == old(self).spec_reservations(),
            final(self).spec_registry() == old(self).spec_registry(),
            final(self).spec_config() == old(self).spec_config(),
            final(self).spec_margin() == old(self).spec_margin(),
    {
        let id = self.next_job_id;
        let job = Job { id, descriptor, submitted_at: now, state: JobState::Queued };
        self.jobs.push(job);
        self.next_job_id = id + 1;
        proof {
            assert forall|i: int|
                0 <= i < self.reservations@.len() implies exists|k: int|
                0 <= k < self.jobs@.len() && self.jobs@[k].id == (
                #[trigger] self.reservations@[i]).job_id && self.jobs@[k].state is Running by {
                assert(old(self).reservations@[i] == self.reservations@[i]);
                let k = choose|k: int|
                    0 <= k < old(self).jobs@.len() && old(self).jobs@[k].id == (
                    old(self).reservations@[i]).job_id && old(self).jobs@[k].state is Running;
                assert(self.jobs@[k] == old(self).jobs@[k]);
            }
            assert forall|n: int|
                0 <= n < self.registry.nodes@.len() implies self.spec_node_within_capacity(
                #[trigger] self.registry.nodes@[n],
            ) by {
                assert(old(self).spec_node_within_capacity(old(self).registry.nodes@[n]));
            }
            assert forall|i: int, k: int|
                0 <= i < self.reservations@.len() && 0 <= k < self.reservations@[i].entries@.len()
                implies self.spec_entry_on_node(#[trigger] self.reservations@[i].entries@[k]) by {
                assert(old(self).spec_entry_on_node(old(self).reservations@[i].entries@[k]));
            }
        }
        id
    }

    /// The position of the job with the given identifier.
    fn find_job(&self, job_id: u64) -> (r: Option<usize>)
        ensures
            r matches Some(i) ==> i < self.spec_jobs().len() && self.spec_jobs()[i as int].id
                == job_id,
            r is None ==> forall|i: int|
                0 <= i < self.spec_jobs().len() ==> self.spec_jobs()[i].id != job_id,
    {
        let n = self.jobs.len();
        let mut i: usize = 0;
        while i < n
            invariant
                n == self.jobs@.len(),
                i <= n,
                forall|k: int| 0 <= k < i ==> self.jobs@[k].id != job_id,
            decreases n - i,
        {
            if self.jobs[i].id == job_id {
                return Some(i);
            }
            i = i + 1;
        }
        None
    }

    /// The state of the job with the given identifier.
    pub fn job_state(&self, job_id: u64) -> (r: Option<JobState>)
        requires
            self.wf(),
        ensures
            r == match self.spec_job_of(job_id) {
                Some(j) => Some(j.state),
                None => None,
            },
    {
        match self.find_job(job_id) {
            Some(i) => {
                proof {
                    let k = choose|k: int|
                        0 <= k < self.spec_jobs().len() && self.spec_jobs()[k].id == job_id;
                    self.lemma_job_id_unique(i as int, k);
                }
                Some(self.jobs[i].state)
            },
            None => None,
        }
    }

    /// When the invariant holds and two jobs carry one identifier, they
    /// are the same position.
    proof fn lemma_job_id_unique(&self, i: int, k: int)
        requires
            self.wf(),
            0 <= i < self.spec_jobs().len(),
            0 <= k < self.spec_jobs().len(),
            self.spec_jobs()[i].id == self.spec_jobs()[k].id,
        ensures
            i == k,
    {
        if i < k {
            assert(self.jobs@[i].id != self.jobs@[k].id);
        } else if k < i {
            assert(self.jobs@[k].id != self.jobs@[i].id);
        }
    }

    /// Helper: the invariant survives a change of one job's state when
    /// the old state was not `Running`, or when the job keeps its
    /// reservation-free status.
    proof fn lemma_state_change_no_reservation(&self, prev: &Scheduler, idx: int, st: JobState)
        requires
            prev.wf(),
            0 <= idx < prev.spec_jobs().len(),
            !(prev.spec_jobs()[idx].state is Running),
            self.spec_jobs() == prev.spec_jobs().update(
                idx,
                Job { state: st, ..prev.spec_jobs()[idx] },
            ),
            self.spec_reservations() == prev.spec_reservations(),
            self.spec_registry() == prev.spec_registry(),
            self.spec_next_job_id() == prev.spec_next_job_id(),
        ensures
            self.wf(),
    {
        assert forall|i: int|
            0 <= i < self.reservations@.len() implies exists|k: int|
            0 <= k < self.jobs@.len() && self.jobs@[k].id == (
            #[trigger] self.reservations@[i]).job_id && self.jobs@[k].state is Running by {
            let k = choose|k: int|
                0 <= k < prev.jobs@.len() && prev.jobs@[k].id == self.reservations@[i].job_id
                    && prev.jobs@[k].state is Running;
            assert(k != idx);
            assert(self.jobs@[k] == prev.jobs@[k]);
        }
        assert forall|n: int|
            0 <= n < self.registry.nodes@.len() implies self.spec_node_within_capacity(
            #[trigger] self.registry.nodes@[n],
        ) by {
            assert(prev.spec_node_within_capacity(prev.registry.nodes@[n]));
        }
        assert forall|i: int, k: int|
            0 <= i < self.reservations@.len() && 0 <= k < self.reservations@[i].entries@.len()
            implies self.spec_entry_on_node(#[trigger] self.reservations@[i].entries@[k]) by {
            assert(prev.spec_entry_on_node(prev.reservations@[i].entries@[k]));
        }
    }

    /// Cancel a queued job: it leaves the queue as `Cancelled`. Only a
    /// queued job can be cancelled; the call reports whether it was.
    pub fn cancel(&mut self, job_id: u64) -> (r: bool)
        requires
            old(self).wf(),
        ensures
            final(self).wf(),
            r == (match old(self).spec_job_of(job_id) {
                Some(j) => j.state is Queued,
                None => false,
            }),
            final(self).spec_reservations() == old(self).spec_reservations(),
            final(self).spec_registry() == old(self).spec_registry(),
            final(self).spec_jobs().len() == old(self).spec_jobs().len(),
            r ==> exists|i: int|
                {
                    &&& 0 <= i < old(self).spec_jobs().len()
                    &&& old(self).spec_jobs()[i].id == job_id
                    &&& final(self).spec_jobs() == old(self).spec_jobs().update(
                        i,
                        Job { state: JobState::Cancelled, ..old(self).spec_jobs()[i] },
                    )
                },
            !r ==> final(self).spec_jobs() == old(self).spec_jobs(),
    {
        let idx = match self.find_job(job_id) {
            Some(i) => i,
            None => { return false },
        };
        proof {
            let k = choose|k: int|
                0 <= k < self.spec_jobs().len() && self.spec_jobs()[k].id == job_id;
            self.lemma_job_id_unique(idx as int, k);
        }
        if !matches!(self.jobs[idx].state, JobState::Queued) {
            return false;
        }
        let job = &mut self.jobs[idx];
        job.state = JobState::Cancelled;
        proof {
            assert(self.jobs@ =~= old(self).jobs@.update(
                idx as int,
                Job { state: JobState::Cancelled, ..old(self).jobs@[idx as int] },
            ));
            self.lemma_state_change_no_reservation(old(self), idx as int, JobState::Cancelled);
        }
        true
    }
}


/// An element of a nonnegative sum is at most the sum.
pub proof fn lemma_sum_element_le<T>(s: Seq<T>, f: spec_fn(T) -> int, i: int)
    requires
        0 <= i < s.len(),
        forall|t: T| #[trigger] f(t) >= 0,
    ensures
        f(s[i]) <= spec_sum(s, f),
    decreases s.len(),
{
    if i == s.len() - 1 {
        lemma_sum_prefix_le(s.drop_last(), f, s.drop_last().len() as int);
    } else {
        lemma_sum_element_le(s.drop_last(), f, i);
    }
}

impl Scheduler {
    /// Whether a device of a node satisfies a job's per-device needs.
    pub open spec fn spec_device_ok(n: Node, job: Job, dev: u32) -> bool {
        &&& (dev as int) < n.accelerators@.len()
        &&& n.accelerators@[dev as int].memory >= job.descriptor.resources.accel_memory
        &&& n.accelerators@[dev as int].capability >= job.descriptor.resources.accel_capability
    }

    /// Whether one reservation entry is admissible for a job: it names an
    /// active known node, debits exactly the per-node request, stays
    /// within the node's remaining capacity, and books suitable, unbooked,
    /// distinct devices.
    pub open spec fn spec_entry_admissible(&self, job: Job, e: ReservationEntry) -> bool {
        &&& self.spec_registry().spec_has_node(e.node_id)
        &&& {
            let n = self.spec_node_of(e.node_id)->Some_0;
            &&& n.state is Active
            &&& e.cpu_cores == job.descriptor.resources.cpu_cores
            &&& e.memory_bytes == job.descriptor.resources.host_memory
            &&& spec_res_cpu(self.spec_reservations(), e.node_id) + e.cpu_cores <= n.cpu_capacity
            &&& spec_res_mem(self.spec_reservations(), e.node_id) + e.memory_bytes
                <= n.memory_capacity
            &&& forall|d: int|
                0 <= d < e.device_indices@.len() ==> Self::spec_device_ok(
                    n,
                    job,
                    #[trigger] e.device_indices@[d],
                )
            &&& forall|d: int|
                0 <= d < e.device_indices@.len() ==> !spec_device_reserved(
                    self.spec_reservations(),
                    e.node_id,
                    #[trigger] e.device_indices@[d],
                )
            &&& forall|d1: int, d2: int|
                0 <= d1 < d2 < e.device_indices@.len() ==> e.device_indices@[d1]
                    != e.device_indices@[d2]
        }
    }

    /// The accelerator a device index names on a node.
    pub open spec fn spec_dev(&self, node_id: u64, dev: u32) -> Accelerator {
        self.spec_node_of(node_id)->Some_0.accelerators@[dev as int]
    }

    /// Whether an entry list satisfies the job's placement constraint:
    /// unconstrained jobs may spread; the same-host, same-link, and
    /// same-memory-domain constraints demand one node, and for the latter
    /// two all chosen devices must share a link group of the stated kind,
    /// or a memory domain.
    pub open spec fn spec_constraint_ok(&self, job: Job, entries: Seq<ReservationEntry>) -> bool {
        match job.descriptor.constraint {
            Constraint::Any => true,
            Constraint::SameHost => entries.len() == 1,
            Constraint::SameLink(kind) => {
                &&& entries.len() == 1
                &&& forall|d: int|
                    0 <= d < entries[0].device_indices@.len() ==> (#[trigger] self.spec_dev(
                        entries[0].node_id,
                        entries[0].device_indices@[d],
                    )).link_kind == kind
                &&& forall|d1: int, d2: int|
                    0 <= d1 < entries[0].device_indices@.len() && 0 <= d2
                        < entries[0].device_indices@.len() ==> (#[trigger] self.spec_dev(
                        entries[0].node_id,
                        entries[0].device_indices@[d1],
                    )).link_group == (#[trigger] self.spec_dev(
                        entries[0].node_id,
                        entries[0].device_indices@[d2],
                    )).link_group
            },
            Constraint::SameMemoryDomain => {
                &&& entries.len() == 1
                &&& forall|d1: int, d2: int|
                    0 <= d1 < entries[0].device_indices@.len() && 0 <= d2
                        < entries[0].device_indices@.len() ==> (#[trigger] self.spec_dev(
                        entries[0].node_id,
                        entries[0].device_indices@[d1],
                    )).memory_domain == (#[trigger] self.spec_dev(
                        entries[0].node_id,
                        entries[0].device_indices@[d2],
                    )).memory_domain
            },
        }
    }

    /// Under a same-link constraint, a satisfied plan gives every chosen
    /// device the stated link kind.
    proof fn lemma_link_kind_of_ok(
        &self,
        job: Job,
        entries: Seq<ReservationEntry>,
        kind: crate::scheduler::job::LinkKind,
        d: int,
    )
        requires
            job.descriptor.constraint == Constraint::SameLink(kind),
            self.spec_constraint_ok(job, entries),
            0 <= d < entries[0].device_indices@.len(),
        ensures
            self.spec_dev(entries[0].node_id, entries[0].device_indices@[d]).link_kind == kind,
    {
    }

    /// Under a same-link constraint, a satisfied plan gives any two
    /// chosen devices one link group.
    proof fn lemma_link_group_of_ok(
        &self,
        job: Job,
        entries: Seq<ReservationEntry>,
        kind: crate::scheduler::job::LinkKind,
        d1: int,
        d2: int,
    )
        requires
            job.descriptor.constraint == Constraint::SameLink(kind),
            self.spec_constraint_ok(job, entries),
            0 <= d1 < entries[0].device_indices@.len(),
            0 <= d2 < entries[0].device_indices@.len(),
        ensures
            self.spec_dev(entries[0].node_id, entries[0].device_indices@[d1]).link_group
                == self.spec_dev(entries[0].node_id, entries[0].device_indices@[d2]).link_group,
    {
    }

    /// Under a same-memory-domain constraint, a satisfied plan gives any
    /// two chosen devices one memory domain.
    proof fn lemma_domain_of_ok(
        &self,
        job: Job,
        entries: Seq<ReservationEntry>,
        d1: int,
        d2: int,
    )
        requires
            job.descriptor.constraint is SameMemoryDomain,
            self.spec_constraint_ok(job, entries),
            0 <= d1 < entries[0].device_indices@.len(),
            0 <= d2 < entries[0].device_indices@.len(),
        ensures
            self.spec_dev(entries[0].node_id, entries[0].device_indices@[d1]).memory_domain
                == self.spec_dev(entries[0].node_id, entries[0].device_indices@[d2]).memory_domain,
    {
    }

    /// A gang plan is admissible for a job when it has at least one
    /// entry, one entry per node, books exactly the requested number of
    /// accelerators, every entry is admissible, and the placement
    /// constraint holds.
    pub open spec fn spec_admissible(&self, job: Job, entries: Seq<ReservationEntry>) -> bool {
        &&& entries.len() >= 1
        &&& forall|i: int, j: int|
            0 <= i < j < entries.len() ==> entries[i].node_id != entries[j].node_id
        &&& spec_sum(entries, |e: ReservationEntry| e.device_indices@.len() as int)
            == job.descriptor.resources.accelerators
        &&& forall|i: int|
            0 <= i < entries.len() ==> self.spec_entry_admissible(job, #[trigger] entries[i])
        &&& self.spec_constraint_ok(job, entries)
    }

    /// When the invariant holds and two registry nodes carry one
    /// identifier, they are the same position.
    proof fn lemma_node_id_unique(&self, i: int, k: int)
        requires
            self.spec_registry().wf(),
            0 <= i < self.spec_registry().nodes@.len(),
            0 <= k < self.spec_registry().nodes@.len(),
            self.spec_registry().nodes@[i].id == self.spec_registry().nodes@[k].id,
        ensures
            i == k,
    {
        if i < k {
            assert(self.registry.nodes@[i].id != self.registry.nodes@[k].id);
        } else if k < i {
            assert(self.registry.nodes@[k].id != self.registry.nodes@[i].id);
        }
    }

    /// The node at a registry position is the node its identifier names.
    proof fn lemma_node_at(&self, i: int)
        requires
            self.spec_registry().wf(),
            0 <= i < self.spec_registry().nodes@.len(),
        ensures
            self.spec_node_of(self.spec_registry().nodes@[i].id) == Some(
                self.spec_registry().nodes@[i],
            ),
    {
        let id = self.registry.nodes@[i].id;
        assert(self.registry.spec_has_node(id));
        let k = choose|k: int|
            0 <= k < self.registry.nodes@.len() && self.registry.nodes@[k].id == id;
        self.lemma_node_id_unique(i, k);
    }

    /// The CPU cores one entry list debits on a node, exactly.
    fn entries_cpu_exec(entries: &Vec<ReservationEntry>, node_id: u64) -> (r: u64)
        requires
            spec_entries_cpu(entries@, node_id) <= u64::MAX,
        ensures
            r == spec_entries_cpu(entries@, node_id),
    {
        let ghost f = |e: ReservationEntry|
            if e.node_id == node_id {
                e.cpu_cores as int
            } else {
                0
            };
        let mut acc: u64 = 0;
        let n = entries.len();
        let mut i: usize = 0;
        proof {
            assert(entries@.subrange(0, 0) =~= Seq::<ReservationEntry>::empty());
        }
        while i < n
            invariant
                n == entries@.len(),
                i <= n,
                spec_entries_cpu(entries@, node_id) <= u64::MAX,
                f == (|e: ReservationEntry|
                    if e.node_id == node_id {
                        e.cpu_cores as int
                    } else {
                        0
                    }),
                acc == spec_sum(entries@.subrange(0, i as int), f),
            decreases n - i,
        {
            proof {
                let pre = entries@.subrange(0, i as int);
                let post = entries@.subrange(0, i + 1 as int);
                assert(post.drop_last() =~= pre);
                assert(post.last() == entries@[i as int]);
                lemma_sum_prefix_le(entries@, f, i + 1 as int);
            }
            if entries[i].node_id == node_id {
                acc = acc + entries[i].cpu_cores as u64;
            }
            i = i + 1;
        }
        proof {
            assert(entries@.subrange(0, n as int) =~= entries@);
        }
        acc
    }

    /// The host memory one entry list debits on a node, exactly.
    fn entries_mem_exec(entries: &Vec<ReservationEntry>, node_id: u64) -> (r: u64)
        requires
            spec_entries_mem(entries@, node_id) <= u64::MAX,
        ensures
            r == spec_entries_mem(entries@, node_id),
    {
        let ghost f = |e: ReservationEntry|
            if e.node_id == node_id {
                e.memory_bytes as int
            } else {
                0
            };
        let mut acc: u64 = 0;
        let n = entries.len();
        let mut i: usize = 0;
        proof {
            assert(entries@.subrange(0, 0) =~= Seq::<ReservationEntry>::empty());
        }
        while i < n
            invariant
                n == entries@.len(),
                i <= n,
                spec_entries_mem(entries@, node_id) <= u64::MAX,
                f == (|e: ReservationEntry|
                    if e.node_id == node_id {
                        e.memory_bytes as int
                    } else {
                        0
                    }),
                acc == spec_sum(entries@.subrange(0, i as int), f),
            decreases n - i,
        {
            proof {
                let pre = entries@.subrange(0, i as int);
                let post = entries@.subrange(0, i + 1 as int);
                assert(post.drop_last() =~= pre);
                assert(post.last() == entries@[i as int]);
                lemma_sum_prefix_le(entries@, f, i + 1 as int);
            }
            if entries[i].node_id == node_id {
                acc = acc + entries[i].memory_bytes;
            }
            i = i + 1;
        }
        proof {
            assert(entries@.subrange(0, n as int) =~= entries@);
        }
        acc
    }

    /// The CPU cores all reservations debit on a registered node.
    fn committed_cpu(&self, node_id: u64, cap: u64) -> (r: u64)
        requires
            spec_res_cpu(self.spec_reservations(), node_id) <= cap,
        ensures
            r == spec_res_cpu(self.spec_reservations(), node_id),
    {
        let ghost f = |rr: Reservation| spec_entries_cpu(rr.entries@, node_id);
        proof {
            assert forall|t: Reservation| #[trigger] f(t) >= 0 by {
                lemma_entry_measures_nonneg(t.entries@, node_id, 0u32);
            }
        }
        let mut acc: u64 = 0;
        let n = self.reservations.len();
        let mut i: usize = 0;
        proof {
            assert(self.reservations@.subrange(0, 0) =~= Seq::<Reservation>::empty());
        }
        while i < n
            invariant
                n == self.reservations@.len(),
                i <= n,
                spec_res_cpu(self.spec_reservations(), node_id) <= cap,
                f == (|rr: Reservation| spec_entries_cpu(rr.entries@, node_id)),
                forall|t: Reservation| #[trigger] f(t) >= 0,
                acc == spec_sum(self.reservations@.subrange(0, i as int), f),
            decreases n - i,
        {
            proof {
                let pre = self.reservations@.subrange(0, i as int);
                let post = self.reservations@.subrange(0, i + 1 as int);
                assert(post.drop_last() =~= pre);
                assert(post.last() == self.reservations@[i as int]);
                lemma_sum_prefix_le(self.reservations@, f, i + 1 as int);
                lemma_sum_element_le(self.reservations@, f, i as int);
            }
            let part = Self::entries_cpu_exec(&self.reservations[i].entries, node_id);
            acc = acc + part;
            i = i + 1;
        }
        proof {
            assert(self.reservations@.subrange(0, n as int) =~= self.reservations@);
        }
        acc
    }

    /// The host memory all reservations debit on a registered node.
    fn committed_mem(&self, node_id: u64, cap: u64) -> (r: u64)
        requires
            spec_res_mem(self.spec_reservations(), node_id) <= cap,
        ensures
            r == spec_res_mem(self.spec_reservations(), node_id),
    {
        let ghost f = |rr: Reservation| spec_entries_mem(rr.entries@, node_id);
        proof {
            assert forall|t: Reservation| #[trigger] f(t) >= 0 by {
                lemma_entry_measures_nonneg(t.entries@, node_id, 0u32);
            }
        }
        let mut acc: u64 = 0;
        let n = self.reservations.len();
        let mut i: usize = 0;
        proof {
            assert(self.reservations@.subrange(0, 0) =~= Seq::<Reservation>::empty());
        }
        while i < n
            invariant
                n == self.reservations@.len(),
                i <= n,
                spec_res_mem(self.spec_reservations(), node_id) <= cap,
                f == (|rr: Reservation| spec_entries_mem(rr.entries@, node_id)),
                forall|t: Reservation| #[trigger] f(t) >= 0,
                acc == spec_sum(self.reservations@.subrange(0, i as int), f),
            decreases n - i,
        {
            proof {
                let pre = self.reservations@.subrange(0, i as int);
                let post = self.reservations@.subrange(0, i + 1 as int);
                assert(post.drop_last() =~= pre);
                assert(post.last() == self.reservations@[i as int]);
                lemma_sum_prefix_le(self.reservations@, f, i + 1 as int);
                lemma_sum_element_le(self.reservations@, f, i as int);
            }
            let part = Self::entries_mem_exec(&self.reservations[i].entries, node_id);
            acc = acc + part;
            i = i + 1;
        }
        proof {
            assert(self.reservations@.subrange(0, n as int) =~= self.reservations@);
        }
        acc
    }

    /// Whether a device list mentions the device.
    fn devs_contain(devs: &Vec<u32>, dev: u32) -> (r: bool)
        ensures
            r == (exists|i: int| 0 <= i < devs@.len() && devs@[i] == dev),
    {
        let n = devs.len();
        let mut i: usize = 0;
        while i < n
            invariant
                n == devs@.len(),
                i <= n,
                forall|k: int| 0 <= k < i ==> devs@[k] != dev,
            decreases n - i,
        {
            if devs[i] == dev {
                return true;
            }
            i = i + 1;
        }
        false
    }

    /// Whether any reservation books the device on the node.
    fn device_reserved(&self, node_id: u64, dev: u32) -> (r: bool)
        ensures
            r == spec_device_reserved(self.spec_reservations(), node_id, dev),
    {
        let ghost f = |rr: Reservation| spec_entries_dev(rr.entries@, node_id, dev);
        proof {
            assert forall|t: Reservation| #[trigger] f(t) >= 0 by {
                lemma_entry_measures_nonneg(t.entries@, node_id, dev);
            }
        }
        let n = self.reservations.len();
        let mut i: usize = 0;
        proof {
            assert(self.reservations@.subrange(0, 0) =~= Seq::<Reservation>::empty());
        }
        while i < n
            invariant
                n == self.reservations@.len(),
                i <= n,
                f == (|rr: Reservation| spec_entries_dev(rr.entries@, node_id, dev)),
                forall|t: Reservation| #[trigger] f(t) >= 0,
                spec_sum(self.reservations@.subrange(0, i as int), f) == 0,
            decreases n - i,
        {
            proof {
                let pre = self.reservations@.subrange(0, i as int);
                let post = self.reservations@.subrange(0, i + 1 as int);
                assert(post.drop_last() =~= pre);
                assert(post.last() == self.reservations@[i as int]);
            }
            if Self::entry_list_books(&self.reservations[i].entries, node_id, dev) {
                proof {
                    lemma_sum_element_le(self.reservations@, f, i as int);
                }
                return true;
            }
            i = i + 1;
        }
        proof {
            assert(self.reservations@.subrange(0, n as int) =~= self.reservations@);
        }
        false
    }

    /// Whether one entry list books the device on the node.
    fn entry_list_books(entries: &Vec<ReservationEntry>, node_id: u64, dev: u32) -> (r: bool)
        ensures
            r == (spec_entries_dev(entries@, node_id, dev) > 0),
    {
        let ghost f = |e: ReservationEntry|
            if e.node_id == node_id {
                spec_count_dev(e.device_indices@, dev)
            } else {
                0
            };
        proof {
            assert forall|t: ReservationEntry| #[trigger] f(t) >= 0 by {
                lemma_count_dev_member(t.device_indices@, dev);
            }
        }
        let n = entries.len();
        let mut i: usize = 0;
        proof {
            assert(entries@.subrange(0, 0) =~= Seq::<ReservationEntry>::empty());
        }
        while i < n
            invariant
                n == entries@.len(),
                i <= n,
                f == (|e: ReservationEntry|
                    if e.node_id == node_id {
                        spec_count_dev(e.device_indices@, dev)
                    } else {
                        0
                    }),
                forall|t: ReservationEntry| #[trigger] f(t) >= 0,
                spec_sum(entries@.subrange(0, i as int), f) == 0,
            decreases n - i,
        {
            proof {
                let pre = entries@.subrange(0, i as int);
                let post = entries@.subrange(0, i + 1 as int);
                assert(post.drop_last() =~= pre);
                assert(post.last() == entries@[i as int]);
                lemma_count_dev_member(entries@[i as int].device_indices@, dev);
            }
            if entries[i].node_id == node_id {
                if Self::devs_contain(&entries[i].device_indices, dev) {
                    proof {
                        lemma_sum_element_le(entries@, f, i as int);
                    }
                    return true;
                }
            }
            i = i + 1;
        }
        proof {
            assert(entries@.subrange(0, n as int) =~= entries@);
        }
        false
    }
}


impl Scheduler {
    /// Whether the node identifiers of an entry list are pairwise
    /// distinct.
    fn entries_nodes_distinct(entries: &Vec<ReservationEntry>) -> (r: bool)
        ensures
            r == (forall|i: int, j: int|
                0 <= i < j < entries@.len() ==> entries@[i].node_id != entries@[j].node_id),
    {
        let n = entries.len();
        let mut i: usize = 0;
        while i < n
            invariant
                n == entries@.len(),
                i <= n,
                forall|a: int, b: int|
                    0 <= a < b < entries@.len() && a < i ==> entries@[a].node_id
                        != entries@[b].node_id,
            decreases n - i,
        {
            let mut j: usize = i + 1;
            while j < n
                invariant
                    n == entries@.len(),
                    i < n,
                    i < j <= n,
                    forall|b: int| i < b < j ==> entries@[i as int].node_id != entries@[b].node_id,
                decreases n - j,
            {
                if entries[i].node_id == entries[j].node_id {
                    return false;
                }
                j = j + 1;
            }
            i = i + 1;
        }
        true
    }

    /// Whether the devices of a list are pairwise distinct.
    fn devs_distinct(devs: &Vec<u32>) -> (r: bool)
        ensures
            r == (forall|i: int, j: int| 0 <= i < j < devs@.len() ==> devs@[i] != devs@[j]),
    {
        let n = devs.len();
        let mut i: usize = 0;
        while i < n
            invariant
                n == devs@.len(),
                i <= n,
                forall|a: int, b: int| 0 <= a < b < devs@.len() && a < i ==> devs@[a] != devs@[b],
            decreases n - i,
        {
            let mut j: usize = i + 1;
            while j < n
                invariant
                    n == devs@.len(),
                    i < n,
                    i < j <= n,
                    forall|b: int| i < b < j ==> devs@[i as int] != devs@[b],
                decreases n - j,
            {
                if devs[i] == devs[j] {
                    return false;
                }
                j = j + 1;
            }
            i = i + 1;
        }
        true
    }

    /// Whether the entry list books exactly `want` devices in total.
    fn total_devices_matches(entries: &Vec<ReservationEntry>, want: u32) -> (r: bool)
        ensures
            r == (spec_sum(entries@, |e: ReservationEntry| e.device_indices@.len() as int)
                == want),
    {
        let ghost f = |e: ReservationEntry| e.device_indices@.len() as int;
        proof {
            assert forall|t: ReservationEntry| #[trigger] f(t) >= 0 by {}
        }
        let mut acc: u128 = 0;
        let n = entries.len();
        let mut i: usize = 0;
        proof {
            assert(entries@.subrange(0, 0) =~= Seq::<ReservationEntry>::empty());
        }
        while i < n
            invariant
                n == entries@.len(),
                i <= n,
                f == (|e: ReservationEntry| e.device_indices@.len() as int),
                forall|t: ReservationEntry| #[trigger] f(t) >= 0,
                acc <= 0xffff_ffffu128,
                acc == spec_sum(entries@.subrange(0, i as int), f),
            decreases n - i,
        {
            proof {
                let pre = entries@.subrange(0, i as int);
                let post = entries@.subrange(0, i + 1 as int);
                assert(post.drop_last() =~= pre);
                assert(post.last() == entries@[i as int]);
            }
            let len_i = entries[i].device_indices.len();
            acc = acc + len_i as u128;
            if acc > 0xffff_ffffu128 {
                proof {
                    lemma_sum_prefix_le(entries@, f, i + 1 as int);
                }
                return false;
            }
            i = i + 1;
        }
        proof {
            assert(entries@.subrange(0, n as int) =~= entries@);
        }
        acc == want as u128
    }

    /// Whether one entry is admissible for a job.
    fn check_entry(&self, job: &Job, e: &ReservationEntry) -> (r: bool)
        requires
            self.wf(),
        ensures
            r == self.spec_entry_admissible(*job, *e),
    {
        let nidx = match self.registry.find(e.node_id) {
            Some(i) => i,
            None => { return false },
        };
        proof {
            self.lemma_node_at(nidx as int);
        }
        let node = &self.registry.nodes[nidx];
        if !matches!(node.state, NodeState::Active) {
            return false;
        }
        if e.cpu_cores != job.descriptor.resources.cpu_cores {
            return false;
        }
        if e.memory_bytes != job.descriptor.resources.host_memory {
            return false;
        }
        proof {
            assert(self.spec_node_within_capacity(self.registry.nodes@[nidx as int]));
        }
        let used_cpu = self.committed_cpu(e.node_id, node.cpu_capacity as u64);
        if (used_cpu as u128) + (e.cpu_cores as u128) > node.cpu_capacity as u128 {
            return false;
        }
        let used_mem = self.committed_mem(e.node_id, node.memory_capacity);
        if (used_mem as u128) + (e.memory_bytes as u128) > node.memory_capacity as u128 {
            return false;
        }
        let nd = e.device_indices.len();
        let mut d: usize = 0;
        while d < nd
            invariant
                self.wf(),
                nd == e.device_indices@.len(),
                d <= nd,
                nidx < self.registry.nodes@.len(),
                self.spec_node_of(e.node_id) == Some(self.registry.nodes@[nidx as int]),
                forall|k: int|
                    0 <= k < d ==> Self::spec_device_ok(
                        self.spec_node_of(e.node_id)->Some_0,
                        *job,
                        #[trigger] e.device_indices@[k],
                    ),
                forall|k: int|
                    0 <= k < d ==> !spec_device_reserved(
                        self.spec_reservations(),
                        e.node_id,
                        #[trigger] e.device_indices@[k],
                    ),
            decreases nd - d,
        {
            let dev = e.device_indices[d];
            if dev as usize >= self.registry.nodes[nidx].accelerators.len() {
                return false;
            }
            let acc = &self.registry.nodes[nidx].accelerators[dev as usize];
            if acc.memory < job.descriptor.resources.accel_memory {
                return false;
            }
            if acc.capability < job.descriptor.resources.accel_capability {
                return false;
            }
            if self.device_reserved(e.node_id, dev) {
                return false;
            }
            d = d + 1;
        }
        if !Self::devs_distinct(&e.device_indices) {
            return false;
        }
        true
    }

    /// Whether the placement constraint holds of the entry list.
    fn check_constraint(&self, job: &Job, entries: &Vec<ReservationEntry>) -> (r: bool)
        requires
            self.wf(),
            forall|i: int|
                0 <= i < entries@.len() ==> self.spec_entry_admissible(*job, #[trigger] entries@[i]),
        ensures
            r == self.spec_constraint_ok(*job, entries@),
    {
        match job.descriptor.constraint {
            Constraint::Any => true,
            Constraint::SameHost => entries.len() == 1,
            Constraint::SameLink(kind) => {
                if entries.len() != 1 {
                    return false;
                }
                proof {
                    assert(self.spec_entry_admissible(*job, entries@[0]));
                }
                let e = &entries[0];
                let nidx = match self.registry.find(e.node_id) {
                    Some(i) => i,
                    None => { return false },
                };
                proof {
                    self.lemma_node_at(nidx as int);
                }
                let nd = e.device_indices.len();
                let mut d: usize = 0;
                while d < nd
                    invariant
                        self.wf(),
                        job.descriptor.constraint == Constraint::SameLink(kind),
                        nd == e.device_indices@.len(),
                        d <= nd,
                        e == entries@[0],
                        entries@.len() == 1,
                        nidx < self.registry.nodes@.len(),
                        self.spec_node_of(e.node_id) == Some(self.registry.nodes@[nidx as int]),
                        self.spec_entry_admissible(*job, entries@[0]),
                        forall|k: int|
                            0 <= k < d ==> (#[trigger] self.spec_dev(
                                entries@[0].node_id,
                                entries@[0].device_indices@[k],
                            )).link_kind == kind,
                        forall|k: int|
                            0 <= k < d ==> (#[trigger] self.spec_dev(
                                entries@[0].node_id,
                                entries@[0].device_indices@[k],
                            )).link_group == self.spec_dev(
                                entries@[0].node_id,
                                entries@[0].device_indices@[0],
                            ).link_group,
                    decreases nd - d,
                {
                    proof {
                        assert(Self::spec_device_ok(
                            self.spec_node_of(e.node_id)->Some_0,
                            *job,
                            e.device_indices@[d as int],
                        ));
                    }
                    let dev = e.device_indices[d] as usize;
                    let acc = &self.registry.nodes[nidx].accelerators[dev];
                    if !(acc.link_kind == kind) {
                        proof {
                            assert(entries@[0] == *e);
                            assert(self.spec_dev(
                                entries@[0].node_id,
                                entries@[0].device_indices@[d as int],
                            ).link_kind != kind);
                            if self.spec_constraint_ok(*job, entries@) {
                                self.lemma_link_kind_of_ok(*job, entries@, kind, d as int);
                            }
                            assert(!self.spec_constraint_ok(*job, entries@));
                        }
                        return false;
                    }
                    if d > 0 {
                        proof {
                            assert(Self::spec_device_ok(
                                self.spec_node_of(e.node_id)->Some_0,
                                *job,
                                e.device_indices@[0],
                            ));
                        }
                        let dev0 = e.device_indices[0] as usize;
                        let acc0 = &self.registry.nodes[nidx].accelerators[dev0];
                        if acc.link_group != acc0.link_group {
                            proof {
                                assert(entries@[0] == *e);
                                assert(self.spec_dev(
                                    entries@[0].node_id,
                                    entries@[0].device_indices@[0],
                                ).link_group != self.spec_dev(
                                    entries@[0].node_id,
                                    entries@[0].device_indices@[d as int],
                                ).link_group);
                                if self.spec_constraint_ok(*job, entries@) {
                                    self.lemma_link_group_of_ok(*job, entries@, kind, 0, d as int);
                                }
                                assert(!self.spec_constraint_ok(*job, entries@));
                            }
                            return false;
                        }
                    }
                    d = d + 1;
                }
                proof {
                    assert forall|d1: int, d2: int|
                        0 <= d1 < entries@[0].device_indices@.len() && 0 <= d2
                            < entries@[0].device_indices@.len() implies (#[trigger] self.spec_dev(
                        entries@[0].node_id,
                        entries@[0].device_indices@[d1],
                    )).link_group == (#[trigger] self.spec_dev(
                        entries@[0].node_id,
                        entries@[0].device_indices@[d2],
                    )).link_group by {
                        assert(self.spec_dev(
                            entries@[0].node_id,
                            entries@[0].device_indices@[d1],
                        ).link_group == self.spec_dev(
                            entries@[0].node_id,
                            entries@[0].device_indices@[0],
                        ).link_group);
                        assert(self.spec_dev(
                            entries@[0].node_id,
                            entries@[0].device_indices@[d2],
                        ).link_group == self.spec_dev(
                            entries@[0].node_id,
                            entries@[0].device_indices@[0],
                        ).link_group);
                    }
                }
                true
            },
            Constraint::SameMemoryDomain => {
                if entries.len() != 1 {
                    return false;
                }
                proof {
                    assert(self.spec_entry_admissible(*job, entries@[0]));
                }
                let e = &entries[0];
                let nidx = match self.registry.find(e.node_id) {
                    Some(i) => i,
                    None => { return false },
                };
                proof {
                    self.lemma_node_at(nidx as int);
                }
                let nd = e.device_indices.len();
                let mut d: usize = 0;
                while d < nd
                    invariant
                        self.wf(),
                        job.descriptor.constraint is SameMemoryDomain,
                        nd == e.device_indices@.len(),
                        d <= nd,
                        e == entries@[0],
                        entries@.len() == 1,
                        nidx < self.registry.nodes@.len(),
                        self.spec_node_of(e.node_id) == Some(self.registry.nodes@[nidx as int]),
                        self.spec_entry_admissible(*job, entries@[0]),
                        forall|k: int|
                            0 <= k < d ==> (#[trigger] self.spec_dev(
                                entries@[0].node_id,
                                entries@[0].device_indices@[k],
                            )).memory_domain == self.spec_dev(
                                entries@[0].node_id,
                                entries@[0].device_indices@[0],
                            ).memory_domain,
                    decreases nd - d,
                {
                    proof {
                        assert(Self::spec_device_ok(
                            self.spec_node_of(e.node_id)->Some_0,
                            *job,
                            e.device_indices@[d as int],
                        ));
                    }
                    if d > 0 {
                        proof {
                            assert(Self::spec_device_ok(
                                self.spec_node_of(e.node_id)->Some_0,
                                *job,
                                e.device_indices@[0],
                            ));
                        }
                        let dev = e.device_indices[d] as usize;
                        let acc = &self.registry.nodes[nidx].accelerators[dev];
                        let dev0 = e.device_indices[0] as usize;
                        let acc0 = &self.registry.nodes[nidx].accelerators[dev0];
                        if acc.memory_domain != acc0.memory_domain {
                            proof {
                                assert(entries@[0] == *e);
                                assert(self.spec_dev(
                                    entries@[0].node_id,
                                    entries@[0].device_indices@[0],
                                ).memory_domain != self.spec_dev(
                                    entries@[0].node_id,
                                    entries@[0].device_indices@[d as int],
                                ).memory_domain);
                                if self.spec_constraint_ok(*job, entries@) {
                                    self.lemma_domain_of_ok(*job, entries@, 0, d as int);
                                }
                                assert(!self.spec_constraint_ok(*job, entries@));
                            }
                            return false;
                        }
                    }
                    d = d + 1;
                }
                proof {
                    assert forall|d1: int, d2: int|
                        0 <= d1 < entries@[0].device_indices@.len() && 0 <= d2
                            < entries@[0].device_indices@.len() implies (#[trigger] self.spec_dev(
                        entries@[0].node_id,
                        entries@[0].device_indices@[d1],
                    )).memory_domain == (#[trigger] self.spec_dev(
                        entries@[0].node_id,
                        entries@[0].device_indices@[d2],
                    )).memory_domain by {
                        assert(self.spec_dev(
                            entries@[0].node_id,
                            entries@[0].device_indices@[d1],
                        ).memory_domain == self.spec_dev(
                            entries@[0].node_id,
                            entries@[0].device_indices@[0],
                        ).memory_domain);
                        assert(self.spec_dev(
                            entries@[0].node_id,
                            entries@[0].device_indices@[d2],
                        ).memory_domain == self.spec_dev(
                            entries@[0].node_id,
                            entries@[0].device_indices@[0],
                        ).memory_domain);
                    }
                }
                true
            },
        }
    }

    /// Whether a gang plan is admissible for a job in the current state.
    pub fn check_admissible(&self, job: &Job, entries: &Vec<ReservationEntry>) -> (r: bool)
        requires
            self.wf(),
        ensures
            r == self.spec_admissible(*job, entries@),
    {
        if entries.len() == 0 {
            return false;
        }
        if !Self::entries_nodes_distinct(entries) {
            return false;
        }
        if !Self::total_devices_matches(entries, job.descriptor.resources.accelerators) {
            return false;
        }
        let n = entries.len();
        let mut i: usize = 0;
        while i < n
            invariant
                self.wf(),
                n == entries@.len(),
                i <= n,
                forall|k: int|
                    0 <= k < i ==> self.spec_entry_admissible(*job, #[trigger] entries@[k]),
            decreases n - i,
        {
            if !self.check_entry(job, &entries[i]) {
                return false;
            }
            i = i + 1;
        }
        self.check_constraint(job, entries)
    }
}


impl Scheduler {
    /// The invariant survives a change of one job's state when no
    /// reservation names the job.
    proof fn lemma_state_change_unreferenced(&self, prev: &Scheduler, idx: int, st: JobState)
        requires
            prev.wf(),
            0 <= idx < prev.spec_jobs().len(),
            forall|i: int|
                0 <= i < prev.spec_reservations().len() ==> (
                #[trigger] prev.spec_reservations()[i]).job_id != prev.spec_jobs()[idx].id,
            self.spec_jobs() == prev.spec_jobs().update(
                idx,
                Job { state: st, ..prev.spec_jobs()[idx] },
            ),
            self.spec_reservations() == prev.spec_reservations(),
            self.spec_registry() == prev.spec_registry(),
            self.spec_next_job_id() == prev.spec_next_job_id(),
        ensures
            self.wf(),
    {
        assert forall|i: int|
            0 <= i < self.reservations@.len() implies exists|k: int|
            0 <= k < self.jobs@.len() && self.jobs@[k].id == (
            #[trigger] self.reservations@[i]).job_id && self.jobs@[k].state is Running by {
            let k = choose|k: int|
                0 <= k < prev.jobs@.len() && prev.jobs@[k].id == prev.reservations@[i].job_id
                    && prev.jobs@[k].state is Running;
            assert(prev.reservations@[i].job_id != prev.jobs@[idx].id);
            if k == idx {
                assert(prev.jobs@[k].id == prev.jobs@[idx].id);
            }
            assert(k != idx);
            assert(self.jobs@[k] == prev.jobs@[k]);
        }
        assert forall|n: int|
            0 <= n < self.registry.nodes@.len() implies self.spec_node_within_capacity(
            #[trigger] self.registry.nodes@[n],
        ) by {
            assert(prev.spec_node_within_capacity(prev.registry.nodes@[n]));
        }
        assert forall|i: int, k: int|
            0 <= i < self.reservations@.len() && 0 <= k < self.reservations@[i].entries@.len()
            implies self.spec_entry_on_node(#[trigger] self.reservations@[i].entries@[k]) by {
            assert(prev.spec_entry_on_node(prev.reservations@[i].entries@[k]));
        }
    }

    /// Release the reservation held by a job, crediting all its debits at
    /// once. Returns whether one was held.
    fn release_reservation(&mut self, job_id: u64) -> (r: bool)
        requires
            old(self).wf(),
        ensures
            final(self).wf(),
            final(self).spec_jobs() == old(self).spec_jobs(),
            final(self).spec_registry() == old(self).spec_registry(),
            final(self).spec_next_job_id() == old(self).spec_next_job_id(),
            final(self).spec_config() == old(self).spec_config(),
            final(self).spec_margin() == old(self).spec_margin(),
            r == (exists|i: int|
                0 <= i < old(self).spec_reservations().len() && (
                #[trigger] old(self).spec_reservations()[i]).job_id == job_id),
            r ==> exists|i: int|
                {
                    &&& 0 <= i < old(self).spec_reservations().len()
                    &&& old(self).spec_reservations()[i].job_id == job_id
                    &&& final(self).spec_reservations() == old(self).spec_reservations().remove(i)
                },
            !r ==> final(self).spec_reservations() == old(self).spec_reservations(),
            forall|i: int|
                0 <= i < final(self).spec_reservations().len() ==> (
                #[trigger] final(self).spec_reservations()[i]).job_id != job_id,
    {
        let n = self.reservations.len();
        let mut i: usize = 0;
        while i < n
            invariant
                self.wf(),
                self == old(self),
                n == self.reservations@.len(),
                i <= n,
                forall|k: int| 0 <= k < i ==> self.reservations@[k].job_id != job_id,
            decreases n - i,
        {
            if self.reservations[i].job_id == job_id {
                proof {
                    assert((old(self).spec_reservations()[i as int]).job_id == job_id);
                }
                let _ = self.reservations.remove(i);
                proof {
                    let rs = old(self).reservations@;
                    assert(self.reservations@ =~= rs.remove(i as int));
                    assert forall|a: int|
                        0 <= a < self.reservations@.len() implies (
                        #[trigger] self.reservations@[a]).job_id != job_id by {
                        if a < i {
                        } else {
                            assert(self.reservations@[a] == rs[a + 1]);
                            assert(rs[i as int].job_id == job_id);
                            if rs[a + 1].job_id == job_id {
                                assert(rs[i as int].job_id == rs[a + 1].job_id);
                            }
                        }
                    }
                    assert forall|a: int, b: int|
                        0 <= a < b < self.reservations@.len() implies self.reservations@[a].job_id
                        != self.reservations@[b].job_id by {
                        let ai: int = if a < i { a } else { a + 1 };
                        let bi: int = if b < i { b } else { b + 1 };
                        assert(self.reservations@[a] == rs[ai]);
                        assert(self.reservations@[b] == rs[bi]);
                    }
                    assert forall|a: int|
                        0 <= a < self.reservations@.len() implies exists|k: int|
                        0 <= k < self.jobs@.len() && self.jobs@[k].id == (
                        #[trigger] self.reservations@[a]).job_id && self.jobs@[k].state
                        is Running by {
                        let ai: int = if a < i { a } else { a + 1 };
                        assert(self.reservations@[a] == rs[ai]);
                        assert(0 <= ai < rs.len());
                        assert((old(self).reservations@[ai]).job_id == self.reservations@[a].job_id);
                        let k = choose|k: int|
                            0 <= k < old(self).jobs@.len() && old(self).jobs@[k].id == (
                            old(self).reservations@[ai]).job_id && old(self).jobs@[k].state
                                is Running;
                        assert(self.jobs@[k] == old(self).jobs@[k]);
                    }
                    assert forall|a: int, k: int|
                        0 <= a < self.reservations@.len() && 0 <= k
                            < self.reservations@[a].entries@.len() implies self.spec_entry_on_node(
                        #[trigger] self.reservations@[a].entries@[k]) by {
                        let ai: int = if a < i { a } else { a + 1 };
                        assert(self.reservations@[a] == rs[ai]);
                        assert(old(self).spec_entry_on_node(rs[ai].entries@[k]));
                    }
                    assert forall|nn: int|
                        0 <= nn < self.registry.nodes@.len() implies self.spec_node_within_capacity(
                        #[trigger] self.registry.nodes@[nn],
                    ) by {
                        let node = self.registry.nodes@[nn];
                        assert(old(self).spec_node_within_capacity(node));
                        let fc = |rr: Reservation| spec_entries_cpu(rr.entries@, node.id);
                        let fm = |rr: Reservation| spec_entries_mem(rr.entries@, node.id);
                        lemma_sum_remove(rs, fc, i as int);
                        lemma_sum_remove(rs, fm, i as int);
                        lemma_entry_measures_nonneg(rs[i as int].entries@, node.id, 0u32);
                        assert forall|dev: u32|
                            #[trigger] spec_res_dev(self.reservations@, node.id, dev) <= 1 by {
                            let fd = |rr: Reservation| spec_entries_dev(rr.entries@, node.id, dev);
                            lemma_sum_remove(rs, fd, i as int);
                            lemma_entry_measures_nonneg(rs[i as int].entries@, node.id, dev);
                            assert(spec_res_dev(rs, node.id, dev) <= 1);
                        }
                    }
                }
                return true;
            }
            i = i + 1;
        }
        false
    }

    /// Atomic gang reservation: check every node-local debit against the
    /// current state, then apply them all by recording the reservation
    /// and moving the job to `Running`. Either everything commits, or
    /// nothing is mutated and the abort is reported. Succeeds exactly
    /// when the job is queued and the plan is admissible.
    pub fn commit_reservation(&mut self, job_id: u64, entries: Vec<ReservationEntry>) -> (r:
        Result<(), Error>)
        requires
            old(self).wf(),
        ensures
            final(self).wf(),
            final(self).spec_registry() == old(self).spec_registry(),
            final(self).spec_config() == old(self).spec_config(),
            final(self).spec_margin() == old(self).spec_margin(),
            final(self).spec_next_job_id() == old(self).spec_next_job_id(),
            r is Ok <==> (match old(self).spec_job_of(job_id) {
                Some(j) => j.state is Queued && old(self).spec_admissible(j, entries@),
                None => false,
            }),
            r is Err ==> {
                &&& final(self).spec_jobs() == old(self).spec_jobs()
                &&& final(self).spec_reservations() == old(self).spec_reservations()
            },
            r is Ok ==> exists|i: int|
                {
                    &&& 0 <= i < old(self).spec_jobs().len()
                    &&& old(self).spec_jobs()[i].id == job_id
                    &&& final(self).spec_jobs() == old(self).spec_jobs().update(
                        i,
                        Job { state: JobState::Running, ..old(self).spec_jobs()[i] },
                    )
                    &&& final(self).spec_reservations() == old(self).spec_reservations().push(
                        Reservation { job_id, entries: entries },
                    )
                },
    {
        let idx = match self.find_job(job_id) {
            Some(i) => i,
            None => {
                return Err(Error::Scheduling(String::from_str("reservation aborted: no such job")));
            },
        };
        proof {
            let k = choose|k: int|
                0 <= k < self.spec_jobs().len() && self.spec_jobs()[k].id == job_id;
            self.lemma_job_id_unique(idx as int, k);
        }
        if !matches!(self.jobs[idx].state, JobState::Queued) {
            return Err(Error::Scheduling(String::from_str("reservation aborted: job not queued")));
        }
        let job = Job {
            id: self.jobs[idx].id,
            descriptor: self.jobs[idx].descriptor,
            submitted_at: self.jobs[idx].submitted_at,
            state: self.jobs[idx].state,
        };
        proof {
            assert(job == self.jobs@[idx as int]);
        }
        if !self.check_admissible(&job, &entries) {
            return Err(Error::Scheduling(String::from_str("reservation aborted: plan rejected")));
        }
        let ghost prev = *self;
        let reservation = Reservation { job_id, entries };
        self.reservations.push(reservation);
        let jobref = &mut self.jobs[idx];
        jobref.state = JobState::Running;
        proof {
            let entries_v = self.reservations@.last().entries@;
            assert(self.jobs@ =~= prev.jobs@.update(
                idx as int,
                Job { state: JobState::Running, ..prev.jobs@[idx as int] },
            ));
            assert(self.reservations@ =~= prev.reservations@.push(self.reservations@.last()));
            // the new reservation names no already-reserved job
            assert forall|i: int|
                0 <= i < prev.reservations@.len() implies (
                #[trigger] prev.reservations@[i]).job_id != job_id by {
                let k = choose|k: int|
                    0 <= k < prev.jobs@.len() && prev.jobs@[k].id == prev.reservations@[i].job_id
                        && prev.jobs@[k].state is Running;
                if prev.reservations@[i].job_id == job_id {
                    prev.lemma_job_id_unique(k, idx as int);
                }
            }
            // uniqueness of reservation job identifiers
            assert forall|a: int, b: int|
                0 <= a < b < self.reservations@.len() implies self.reservations@[a].job_id
                != self.reservations@[b].job_id by {
                if b < self.reservations@.len() - 1 {
                    assert(self.reservations@[a] == prev.reservations@[a]);
                    assert(self.reservations@[b] == prev.reservations@[b]);
                } else {
                    assert(self.reservations@[a] == prev.reservations@[a]);
                    assert(self.reservations@[b].job_id == job_id);
                }
            }
            // every reservation names a running job
            assert forall|i: int|
                0 <= i < self.reservations@.len() implies exists|k: int|
                0 <= k < self.jobs@.len() && self.jobs@[k].id == (
                #[trigger] self.reservations@[i]).job_id && self.jobs@[k].state is Running by {
                if i < self.reservations@.len() - 1 {
                    assert(self.reservations@[i] == prev.reservations@[i]);
                    let k = choose|k: int|
                        0 <= k < prev.jobs@.len() && prev.jobs@[k].id == prev.reservations@[i].job_id
                            && prev.jobs@[k].state is Running;
                    assert(k != idx);
                    assert(self.jobs@[k] == prev.jobs@[k]);
                } else {
                    assert(self.jobs@[idx as int].id == job_id);
                    assert(self.jobs@[idx as int].state is Running);
                }
            }
            // entries sit on known nodes with valid devices
            assert forall|i: int, k: int|
                0 <= i < self.reservations@.len() && 0 <= k < self.reservations@[i].entries@.len()
                implies self.spec_entry_on_node(#[trigger] self.reservations@[i].entries@[k]) by {
                if i < self.reservations@.len() - 1 {
                    assert(self.reservations@[i] == prev.reservations@[i]);
                    assert(prev.spec_entry_on_node(prev.reservations@[i].entries@[k]));
                    prev.lemma_entry_same(self, prev.reservations@[i].entries@[k]);
                } else {
                    let e = self.reservations@[i].entries@[k];
                    assert(prev.spec_entry_admissible(job, e));
                    assert(prev.spec_registry().spec_has_node(e.node_id));
                    assert forall|d: int|
                        0 <= d < e.device_indices@.len() implies ((
                        #[trigger] e.device_indices@[d]) as int) < self.spec_node_of(
                        e.node_id,
                    )->Some_0.accelerators@.len() by {
                        assert(Self::spec_device_ok(
                            prev.spec_node_of(e.node_id)->Some_0,
                            job,
                            e.device_indices@[d],
                        ));
                        prev.lemma_entry_same(self, e);
                    }
                    prev.lemma_entry_same(self, e);
                }
            }
            // capacities respected on every node
            assert forall|nn: int|
                0 <= nn < self.registry.nodes@.len() implies self.spec_node_within_capacity(
                #[trigger] self.registry.nodes@[nn],
            ) by {
                let node = self.registry.nodes@[nn];
                assert(prev.spec_node_within_capacity(node));
                let fc = |rr: Reservation| spec_entries_cpu(rr.entries@, node.id);
                let fm = |rr: Reservation| spec_entries_mem(rr.entries@, node.id);
                lemma_sum_push(prev.reservations@, fc, self.reservations@.last());
                lemma_sum_push(prev.reservations@, fm, self.reservations@.last());
                lemma_entries_unique(entries_v, node.id, 0u32);
                if exists|i: int|
                    0 <= i < entries_v.len() && (#[trigger] entries_v[i]).node_id == node.id {
                    let i = choose|i: int|
                        0 <= i < entries_v.len() && (#[trigger] entries_v[i]).node_id == node.id;
                    assert(prev.spec_entry_admissible(job, entries_v[i]));
                    prev.lemma_node_id_is(node.id, nn);
                    assert(spec_entries_cpu(entries_v, node.id) == entries_v[i].cpu_cores);
                    assert(spec_entries_mem(entries_v, node.id) == entries_v[i].memory_bytes);
                } else {
                    assert forall|i: int|
                        0 <= i < entries_v.len() implies (#[trigger] entries_v[i]).node_id
                        != node.id by {}
                    assert(spec_entries_cpu(entries_v, node.id) == 0);
                    assert(spec_entries_mem(entries_v, node.id) == 0);
                }
                assert forall|dev: u32|
                    #[trigger] spec_res_dev(self.reservations@, node.id, dev) <= 1 by {
                    let fd = |rr: Reservation| spec_entries_dev(rr.entries@, node.id, dev);
                    lemma_sum_push(prev.reservations@, fd, self.reservations@.last());
                    lemma_entries_unique(entries_v, node.id, dev);
                    assert(spec_res_dev(prev.reservations@, node.id, dev) <= 1);
                    lemma_res_measures_nonneg(prev.reservations@, node.id, dev);
                    if exists|i: int|
                        0 <= i < entries_v.len() && (#[trigger] entries_v[i]).node_id == node.id {
                        let i = choose|i: int|
                            0 <= i < entries_v.len() && (#[trigger] entries_v[i]).node_id
                                == node.id;
                        assert(prev.spec_entry_admissible(job, entries_v[i]));
                        let e = entries_v[i];
                        lemma_count_dev_distinct(e.device_indices@, dev);
                        lemma_count_dev_member(e.device_indices@, dev);
                        if spec_count_dev(e.device_indices@, dev) > 0 {
                            let d = choose|d: int|
                                0 <= d < e.device_indices@.len() && e.device_indices@[d] == dev;
                            assert(!spec_device_reserved(prev.spec_reservations(), e.node_id, e.device_indices@[d]));
                            prev.lemma_node_id_is(node.id, nn);
                            lemma_res_measures_nonneg(prev.reservations@, node.id, dev);
                        }
                    } else {
                        assert forall|i: int|
                            0 <= i < entries_v.len() implies (#[trigger] entries_v[i]).node_id
                            != node.id by {}
                        assert(spec_entries_dev(entries_v, node.id, dev) == 0);
                    }
                }
            }
        }
        Ok(())
    }

    /// The node a reservation entry names reads the same through either
    /// of two states whose registries are equal.
    proof fn lemma_entry_same(&self, other: &Scheduler, e: ReservationEntry)
        requires
            self.spec_registry() == other.spec_registry(),
        ensures
            self.spec_node_of(e.node_id) == other.spec_node_of(e.node_id),
            self.spec_entry_on_node(e) == other.spec_entry_on_node(e),
    {
    }

    /// The registry node at a position is what its identifier resolves
    /// to.
    proof fn lemma_node_id_is(&self, node_id: u64, nn: int)
        requires
            self.spec_registry().wf(),
            0 <= nn < self.spec_registry().nodes@.len(),
            self.spec_registry().nodes@[nn].id == node_id,
        ensures
            self.spec_node_of(node_id) == Some(self.spec_registry().nodes@[nn]),
    {
        self.lemma_node_at(nn);
    }

    /// Finish a running job: its reservation is released and it becomes
    /// `Completed`. Returns whether the job was running.
    pub fn complete_job(&mut self, job_id: u64) -> (r: bool)
        requires
            old(self).wf(),
        ensures
            final(self).wf(),
            final(self).spec_registry() == old(self).spec_registry(),
            r == (match old(self).spec_job_of(job_id) {
                Some(j) => j.state is Running,
                None => false,
            }),
            !r ==> final(self).spec_jobs() == old(self).spec_jobs() && final(self).spec_reservations() == old(self).spec_reservations(),
            r ==> match final(self).spec_job_of(job_id) {
                Some(j) => j.state is Completed,
                None => false,
            },
            forall|i: int|
                0 <= i < final(self).spec_reservations().len() ==> (
                #[trigger] final(self).spec_reservations()[i]).job_id != job_id,
    {
        let idx = match self.find_job(job_id) {
            Some(i) => i,
            None => {
                proof {
                    self.lemma_no_reservation_for_unknown(job_id);
                }
                return false;
            },
        };
        proof {
            let k = choose|k: int|
                0 <= k < self.spec_jobs().len() && self.spec_jobs()[k].id == job_id;
            self.lemma_job_id_unique(idx as int, k);
        }
        if !matches!(self.jobs[idx].state, JobState::Running) {
            proof {
                assert forall|i: int|
                    0 <= i < self.spec_reservations().len() implies (
                    #[trigger] self.spec_reservations()[i]).job_id != job_id by {
                    let k = choose|k: int|
                        0 <= k < self.jobs@.len() && self.jobs@[k].id == self.reservations@[i].job_id
                            && self.jobs@[k].state is Running;
                    if self.reservations@[i].job_id == job_id {
                        self.lemma_job_id_unique(k, idx as int);
                    }
                }
            }
            return false;
        }
        let _ = self.release_reservation(job_id);
        let ghost mid = *self;
        let jobref = &mut self.jobs[idx];
        jobref.state = JobState::Completed;
        proof {
            assert(self.jobs@ =~= mid.jobs@.update(
                idx as int,
                Job { state: JobState::Completed, ..mid.jobs@[idx as int] },
            ));
            self.lemma_state_change_unreferenced(&mid, idx as int, JobState::Completed);
            let k = choose|k: int|
                0 <= k < self.spec_jobs().len() && self.spec_jobs()[k].id == job_id;
            self.lemma_job_id_unique(idx as int, k);
        }
        true
    }

    /// No reservation names a job the scheduler does not know.
    proof fn lemma_no_reservation_for_unknown(&self, job_id: u64)
        requires
            self.wf(),
            forall|i: int| 0 <= i < self.spec_jobs().len() ==> self.spec_jobs()[i].id != job_id,
        ensures
            forall|i: int|
                0 <= i < self.spec_reservations().len() ==> (
                #[trigger] self.spec_reservations()[i]).job_id != job_id,
    {
        assert forall|i: int|
            0 <= i < self.spec_reservations().len() implies (
            #[trigger] self.spec_reservations()[i]).job_id != job_id by {
            assert(0 <= i < self.reservations@.len());
            let rid = (self.reservations@[i]).job_id;
            let k = choose|k: int|
                0 <= k < self.jobs@.len() && self.jobs@[k].id == (self.reservations@[i]).job_id
                    && self.jobs@[k].state is Running;
            assert(self.jobs@[k].id == rid);
            assert(self.spec_jobs()[k].id != job_id);
        }
    }
}


/// The first limits recorded for an owner, scanning from the front.
pub open spec fn spec_find_quota(qs: Seq<(u32, ResourceLimits)>, owner: u32) -> Option<
    ResourceLimits,
>
    decreases qs.len(),
{
    if qs.len() == 0 {
        None
    } else if qs[0].0 == owner {
        Some(qs[0].1)
    } else {
        spec_find_quota(qs.skip(1), owner)
    }
}

impl Scheduler {
    /// The principal quota table.
    pub closed spec fn spec_principal_quotas(&self) -> Seq<(u32, ResourceLimits)> {
        self.principal_quotas@
    }

    /// The project quota table.
    pub closed spec fn spec_project_quotas(&self) -> Seq<(u32, ResourceLimits)> {
        self.project_quotas@
    }

    /// The accelerators committed to running jobs of a principal.
    pub open spec fn spec_principal_accels(&self, principal: u32) -> int {
        spec_sum(
            self.spec_jobs(),
            |j: Job|
                if j.state is Running && j.descriptor.principal == principal {
                    j.descriptor.resources.accelerators as int
                } else {
                    0
                },
        )
    }

    /// The accelerators committed to running jobs of a project.
    pub open spec fn spec_project_accels(&self, project: u32) -> int {
        spec_sum(
            self.spec_jobs(),
            |j: Job|
                if j.state is Running && j.descriptor.project == project {
                    j.descriptor.resources.accelerators as int
                } else {
                    0
                },
        )
    }

    /// The per-node CPU cores committed to running jobs of a principal,
    /// each request counted once.
    pub open spec fn spec_principal_cpu(&self, principal: u32) -> int {
        spec_sum(
            self.spec_jobs(),
            |j: Job|
                if j.state is Running && j.descriptor.principal == principal {
                    j.descriptor.resources.cpu_cores as int
                } else {
                    0
                },
        )
    }

    /// The host memory committed to running jobs of a principal, each
    /// request counted once.
    pub open spec fn spec_principal_mem(&self, principal: u32) -> int {
        spec_sum(
            self.spec_jobs(),
            |j: Job|
                if j.state is Running && j.descriptor.principal == principal {
                    j.descriptor.resources.host_memory as int
                } else {
                    0
                },
        )
    }

    /// The per-node CPU cores committed to running jobs of a project.
    pub open spec fn spec_project_cpu(&self, project: u32) -> int {
        spec_sum(
            self.spec_jobs(),
            |j: Job|
                if j.state is Running && j.descriptor.project == project {
                    j.descriptor.resources.cpu_cores as int
                } else {
                    0
                },
        )
    }

    /// The host memory committed to running jobs of a project.
    pub open spec fn spec_project_mem(&self, project: u32) -> int {
        spec_sum(
            self.spec_jobs(),
            |j: Job|
                if j.state is Running && j.descriptor.project == project {
                    j.descriptor.resources.host_memory as int
                } else {
                    0
                },
        )
    }

    /// Whether granting the job would keep its principal and project
    /// within their quotas; owners without a recorded quota are
    /// unlimited. Committed usage sums the requests of running jobs, in
    /// all three dimensions; per-node amounts count once per job.
    pub open spec fn spec_quota_ok(&self, job: Job) -> bool {
        &&& match spec_find_quota(self.spec_principal_quotas(), job.descriptor.principal) {
            Some(l) => {
                &&& self.spec_principal_accels(job.descriptor.principal)
                    + job.descriptor.resources.accelerators <= l.max_accelerators
                &&& self.spec_principal_cpu(job.descriptor.principal)
                    + job.descriptor.resources.cpu_cores <= l.max_cpu_cores
                &&& self.spec_principal_mem(job.descriptor.principal)
                    + job.descriptor.resources.host_memory <= l.max_host_memory
            },
            None => true,
        }
        &&& match spec_find_quota(self.spec_project_quotas(), job.descriptor.project) {
            Some(l) => {
                &&& self.spec_project_accels(job.descriptor.project)
                    + job.descriptor.resources.accelerators <= l.max_accelerators
                &&& self.spec_project_cpu(job.descriptor.project)
                    + job.descriptor.resources.cpu_cores <= l.max_cpu_cores
                &&& self.spec_project_mem(job.descriptor.project)
                    + job.descriptor.resources.host_memory <= l.max_host_memory
            },
            None => true,
        }
    }

    /// Record limits for a principal; the newest recording wins.
    pub fn set_principal_quota(&mut self, principal: u32, limits: ResourceLimits)
        requires
            old(self).wf(),
        ensures
            final(self).wf(),
            spec_find_quota(final(self).spec_principal_quotas(), principal) == Some(limits),
            final(self).spec_jobs() == old(self).spec_jobs(),
            final(self).spec_reservations() == old(self).spec_reservations(),
            final(self).spec_registry() == old(self).spec_registry(),
            final(self).spec_project_quotas() == old(self).spec_project_quotas(),
    {
        self.principal_quotas.insert(0, (principal, limits));
        proof {
            assert(self.principal_quotas@[0] == (principal, limits));
            self.lemma_quota_tables_irrelevant(old(self));
        }
    }

    /// Record limits for a project; the newest recording wins.
    pub fn set_project_quota(&mut self, project: u32, limits: ResourceLimits)
        requires
            old(self).wf(),
        ensures
            final(self).wf(),
            spec_find_quota(final(self).spec_project_quotas(), project) == Some(limits),
            final(self).spec_jobs() == old(self).spec_jobs(),
            final(self).spec_reservations() == old(self).spec_reservations(),
            final(self).spec_registry() == old(self).spec_registry(),
            final(self).spec_principal_quotas() == old(self).spec_principal_quotas(),
    {
        self.project_quotas.insert(0, (project, limits));
        proof {
            assert(self.project_quotas@[0] == (project, limits));
            self.lemma_quota_tables_irrelevant(old(self));
        }
    }

    /// The invariant does not read the quota tables.
    proof fn lemma_quota_tables_irrelevant(&self, prev: &Scheduler)
        requires
            prev.wf(),
            self.spec_jobs() == prev.spec_jobs(),
            self.spec_reservations() == prev.spec_reservations(),
            self.spec_registry() == prev.spec_registry(),
            self.spec_next_job_id() == prev.spec_next_job_id(),
        ensures
            self.wf(),
    {
        assert forall|i: int|
            0 <= i < self.reservations@.len() implies exists|k: int|
            0 <= k < self.jobs@.len() && self.jobs@[k].id == (
            #[trigger] self.reservations@[i]).job_id && self.jobs@[k].state is Running by {
            assert((prev.reservations@[i]).job_id == (self.reservations@[i]).job_id);
            let k = choose|k: int|
                0 <= k < prev.jobs@.len() && prev.jobs@[k].id == (
                prev.reservations@[i]).job_id && prev.jobs@[k].state is Running;
            assert(self.jobs@[k] == prev.jobs@[k]);
        }
        assert forall|n: int|
            0 <= n < self.registry.nodes@.len() implies self.spec_node_within_capacity(
            #[trigger] self.registry.nodes@[n],
        ) by {
            assert(prev.spec_node_within_capacity(prev.registry.nodes@[n]));
        }
        assert forall|i: int, k: int|
            0 <= i < self.reservations@.len() && 0 <= k < self.reservations@[i].entries@.len()
            implies self.spec_entry_on_node(#[trigger] self.reservations@[i].entries@[k]) by {
            assert(prev.spec_entry_on_node(prev.reservations@[i].entries@[k]));
        }
    }

    /// The committed usage of running jobs under a measure: one owner
    /// side (principal or project) and one resource dimension
    /// (accelerators, CPU cores, or host memory).
    fn sum_running_dim(&self, principal_side: bool, owner: u32, dim: u8) -> (r: u128)
        requires
            dim <= 2,
        ensures
            principal_side && dim == 0 ==> r == self.spec_principal_accels(owner),
            principal_side && dim == 1 ==> r == self.spec_principal_cpu(owner),
            principal_side && dim == 2 ==> r == self.spec_principal_mem(owner),
            !principal_side && dim == 0 ==> r == self.spec_project_accels(owner),
            !principal_side && dim == 1 ==> r == self.spec_project_cpu(owner),
            !principal_side && dim == 2 ==> r == self.spec_project_mem(owner),
            r <= 0xffff_ffff_ffff_ffffu128 * 0xffff_ffff_ffff_ffffu128,
    {
        let ghost f = |j: Job|
            if j.state is Running && (if principal_side {
                j.descriptor.principal == owner
            } else {
                j.descriptor.project == owner
            }) {
                if dim == 0 {
                    j.descriptor.resources.accelerators as int
                } else if dim == 1 {
                    j.descriptor.resources.cpu_cores as int
                } else {
                    j.descriptor.resources.host_memory as int
                }
            } else {
                0
            };
        proof {
            assert forall|t: Job| 0 <= #[trigger] f(t) <= 0xffff_ffff_ffff_ffff by {}
        }
        let mut acc: u128 = 0;
        let n = self.jobs.len();
        let mut i: usize = 0;
        proof {
            assert(self.jobs@.subrange(0, 0) =~= Seq::<Job>::empty());
        }
        while i < n
            invariant
                n == self.jobs@.len(),
                i <= n,
                dim <= 2,
                f == (|j: Job|
                    if j.state is Running && (if principal_side {
                        j.descriptor.principal == owner
                    } else {
                        j.descriptor.project == owner
                    }) {
                        if dim == 0 {
                            j.descriptor.resources.accelerators as int
                        } else if dim == 1 {
                            j.descriptor.resources.cpu_cores as int
                        } else {
                            j.descriptor.resources.host_memory as int
                        }
                    } else {
                        0
                    }),
                forall|t: Job| 0 <= #[trigger] f(t) <= 0xffff_ffff_ffff_ffff,
                acc == spec_sum(self.jobs@.subrange(0, i as int), f),
                acc <= i * 0xffff_ffff_ffff_ffff,
            decreases n - i,
        {
            proof {
                let pre = self.jobs@.subrange(0, i as int);
                let post = self.jobs@.subrange(0, i + 1 as int);
                assert(post.drop_last() =~= pre);
                assert(post.last() == self.jobs@[i as int]);
                assert(i * 0xffff_ffff_ffff_ffff + 0xffff_ffff_ffff_ffff == (i + 1)
                    * 0xffff_ffff_ffff_ffff) by (nonlinear_arith);
                assert((i + 1) * 0xffff_ffff_ffff_ffff <= 0xffff_ffff_ffff_ffff
                    * 0xffff_ffff_ffff_ffff) by (nonlinear_arith)
                    requires
                        i + 1 <= 0xffff_ffff_ffff_ffffu128,
                ;
            }
            let j = &self.jobs[i];
            let matches_owner: bool = if principal_side {
                j.descriptor.principal == owner
            } else {
                j.descriptor.project == owner
            };
            if matches!(j.state, JobState::Running) && matches_owner {
                let contribution: u128 = if dim == 0 {
                    j.descriptor.resources.accelerators as u128
                } else if dim == 1 {
                    j.descriptor.resources.cpu_cores as u128
                } else {
                    j.descriptor.resources.host_memory as u128
                };
                acc = acc + contribution;
            }
            i = i + 1;
        }
        proof {
            assert(self.jobs@.subrange(0, n as int) =~= self.jobs@);
            assert(n * 0xffff_ffff_ffff_ffff <= 0xffff_ffff_ffff_ffff * 0xffff_ffff_ffff_ffff)
                by (nonlinear_arith)
                requires
                    n <= 0xffff_ffff_ffff_ffffu128,
            ;
            if principal_side {
                if dim == 0 {
                    let g = |j: Job|
                        if j.state is Running && j.descriptor.principal == owner {
                            j.descriptor.resources.accelerators as int
                        } else {
                            0
                        };
                    assert forall|t: Job| #[trigger] f(t) == g(t) by {}
                    lemma_sum_pointwise(self.jobs@, f, g);
                } else if dim == 1 {
                    let g = |j: Job|
                        if j.state is Running && j.descriptor.principal == owner {
                            j.descriptor.resources.cpu_cores as int
                        } else {
                            0
                        };
                    assert forall|t: Job| #[trigger] f(t) == g(t) by {}
                    lemma_sum_pointwise(self.jobs@, f, g);
                } else {
                    let g = |j: Job|
                        if j.state is Running && j.descriptor.principal == owner {
                            j.descriptor.resources.host_memory as int
                        } else {
                            0
                        };
                    assert forall|t: Job| #[trigger] f(t) == g(t) by {}
                    lemma_sum_pointwise(self.jobs@, f, g);
                }
            } else {
                if dim == 0 {
                    let g = |j: Job|
                        if j.state is Running && j.descriptor.project == owner {
                            j.descriptor.resources.accelerators as int
                        } else {
                            0
                        };
                    assert forall|t: Job| #[trigger] f(t) == g(t) by {}
                    lemma_sum_pointwise(self.jobs@, f, g);
                } else if dim == 1 {
                    let g = |j: Job|
                        if j.state is Running && j.descriptor.project == owner {
                            j.descriptor.resources.cpu_cores as int
                        } else {
                            0
                        };
                    assert forall|t: Job| #[trigger] f(t) == g(t) by {}
                    lemma_sum_pointwise(self.jobs@, f, g);
                } else {
                    let g = |j: Job|
                        if j.state is Running && j.descriptor.project == owner {
                            j.descriptor.resources.host_memory as int
                        } else {
                            0
                        };
                    assert forall|t: Job| #[trigger] f(t) == g(t) by {}
                    lemma_sum_pointwise(self.jobs@, f, g);
                }
            }
        }
        acc
    }

    /// Look a quota up in a table.
    fn find_quota(qs: &Vec<(u32, ResourceLimits)>, owner: u32) -> (r: Option<ResourceLimits>)
        ensures
            r == spec_find_quota(qs@, owner),
    {
        let n = qs.len();
        let mut i: usize = 0;
        proof {
            assert(qs@.skip(0) =~= qs@);
        }
        while i < n
            invariant
                n == qs@.len(),
                i <= n,
                spec_find_quota(qs@, owner) == spec_find_quota(qs@.skip(i as int), owner),
            decreases n - i,
        {
            proof {
                assert(qs@.skip(i as int)[0] == qs@[i as int]);
                assert(qs@.skip(i as int).skip(1) =~= qs@.skip(i + 1 as int));
            }
            if qs[i].0 == owner {
                return Some(qs[i].1);
            }
            i = i + 1;
        }
        proof {
            assert(qs@.skip(n as int) =~= Seq::<(u32, ResourceLimits)>::empty());
        }
        None
    }

    /// Whether granting the job stays within the owner quotas.
    pub fn quota_ok(&self, job: &Job) -> (r: bool)
        ensures
            r == self.spec_quota_ok(*job),
    {
        match Self::find_quota(&self.principal_quotas, job.descriptor.principal) {
            Some(l) => {
                let accels = self.sum_running_dim(true, job.descriptor.principal, 0);
                if accels + (job.descriptor.resources.accelerators as u128) > l.max_accelerators
                    as u128 {
                    return false;
                }
                let cpu = self.sum_running_dim(true, job.descriptor.principal, 1);
                if cpu + (job.descriptor.resources.cpu_cores as u128) > l.max_cpu_cores as u128 {
                    return false;
                }
                let mem = self.sum_running_dim(true, job.descriptor.principal, 2);
                if mem + (job.descriptor.resources.host_memory as u128) > l.max_host_memory
                    as u128 {
                    return false;
                }
            },
            None => {},
        }
        match Self::find_quota(&self.project_quotas, job.descriptor.project) {
            Some(l) => {
                let accels = self.sum_running_dim(false, job.descriptor.project, 0);
                if accels + (job.descriptor.resources.accelerators as u128) > l.max_accelerators
                    as u128 {
                    return false;
                }
                let cpu = self.sum_running_dim(false, job.descriptor.project, 1);
                if cpu + (job.descriptor.resources.cpu_cores as u128) > l.max_cpu_cores as u128 {
                    return false;
                }
                let mem = self.sum_running_dim(false, job.descriptor.project, 2);
                if mem + (job.descriptor.resources.host_memory as u128) > l.max_host_memory
                    as u128 {
                    return false;
                }
            },
            None => {},
        }
        true
    }
}


impl Scheduler {
    /// Whether the node at a registry position is active and can take the
    /// job's per-node CPU and memory debit.
    pub open spec fn spec_node_fit(&self, nidx: int, job: Job) -> bool {
        let n = self.spec_registry().nodes@[nidx];
        &&& n.state is Active
        &&& spec_res_cpu(self.spec_reservations(), n.id) + job.descriptor.resources.cpu_cores
            <= n.cpu_capacity
        &&& spec_res_mem(self.spec_reservations(), n.id) + job.descriptor.resources.host_memory
            <= n.memory_capacity
    }

    /// Whether a device of the node suits the job and is unbooked, under
    /// optional link-group, link-kind, and memory-domain filters.
    pub open spec fn spec_usable(
        &self,
        nidx: int,
        d: int,
        job: Job,
        wg: Option<u32>,
        wk: Option<crate::scheduler::job::LinkKind>,
        wd: Option<u32>,
    ) -> bool {
        let n = self.spec_registry().nodes@[nidx];
        let a = n.accelerators@[d];
        &&& a.memory >= job.descriptor.resources.accel_memory
        &&& a.capability >= job.descriptor.resources.accel_capability
        &&& match wg {
            Some(g) => a.link_group == g,
            None => true,
        }
        &&& match wk {
            Some(kk) => a.link_kind == kk,
            None => true,
        }
        &&& match wd {
            Some(dom) => a.memory_domain == dom,
            None => true,
        }
        &&& !spec_device_reserved(self.spec_reservations(), n.id, a.index)
    }

    /// How many of the first `upto` devices of the node are usable.
    pub open spec fn spec_usable_count(
        &self,
        nidx: int,
        job: Job,
        wg: Option<u32>,
        wk: Option<crate::scheduler::job::LinkKind>,
        wd: Option<u32>,
        upto: int,
    ) -> int
        decreases upto,
    {
        if upto <= 0 {
            0
        } else {
            self.spec_usable_count(nidx, job, wg, wk, wd, upto - 1) + if self.spec_usable(
                nidx,
                upto - 1,
                job,
                wg,
                wk,
                wd,
            ) {
                1int
            } else {
                0int
            }
        }
    }

    /// A usable-device count is nonnegative and monotone in the range.
    proof fn lemma_usable_count_mono(
        &self,
        nidx: int,
        job: Job,
        wg: Option<u32>,
        wk: Option<crate::scheduler::job::LinkKind>,
        wd: Option<u32>,
        u1: int,
        u2: int,
    )
        requires
            0 <= u1 <= u2,
        ensures
            0 <= self.spec_usable_count(nidx, job, wg, wk, wd, u1) <= self.spec_usable_count(
                nidx,
                job,
                wg,
                wk,
                wd,
                u2,
            ),
        decreases u2,
    {
        if u2 > u1 {
            self.lemma_usable_count_mono(nidx, job, wg, wk, wd, u1, u2 - 1);
        } else if u1 > 0 {
            self.lemma_usable_count_mono(nidx, job, wg, wk, wd, u1 - 1, u1 - 1);
        }
    }

    /// Whether the node can host the whole gang under the constraint: it
    /// fits the per-node debit and offers enough usable devices, in one
    /// link group of the stated kind or one memory domain where the
    /// constraint asks for it.
    pub open spec fn spec_node_can_host(&self, nidx: int, job: Job) -> bool {
        let n = self.spec_registry().nodes@[nidx];
        let k = job.descriptor.resources.accelerators as int;
        let nd = n.accelerators@.len() as int;
        &&& self.spec_node_fit(nidx, job)
        &&& match job.descriptor.constraint {
            Constraint::Any => self.spec_usable_count(nidx, job, None, None, None, nd) >= k,
            Constraint::SameHost => self.spec_usable_count(nidx, job, None, None, None, nd) >= k,
            Constraint::SameLink(kind) => k == 0 || exists|a: int|
                0 <= a < nd && self.spec_usable_count(
                    nidx,
                    job,
                    Some((#[trigger] n.accelerators@[a]).link_group),
                    Some(kind),
                    None,
                    nd,
                ) >= k,
            Constraint::SameMemoryDomain => k == 0 || exists|a: int|
                0 <= a < nd && self.spec_usable_count(
                    nidx,
                    job,
                    None,
                    None,
                    Some((#[trigger] n.accelerators@[a]).memory_domain),
                    nd,
                ) >= k,
        }
    }

    /// The usable devices offered to the job by the first `upto` fitting
    /// nodes together.
    pub open spec fn spec_avail_total(&self, job: Job, upto: int) -> int
        decreases upto,
    {
        if upto <= 0 {
            0
        } else {
            self.spec_avail_total(job, upto - 1) + if self.spec_node_fit(upto - 1, job) {
                self.spec_usable_count(
                    upto - 1,
                    job,
                    None,
                    None,
                    None,
                    self.spec_registry().nodes@[upto - 1].accelerators@.len() as int,
                )
            } else {
                0
            }
        }
    }

    /// Deterministic feasibility of the job against the current snapshot:
    /// a constrained (or empty) gang needs one node that can host it; an
    /// unconstrained gang needs enough usable devices over the fitting
    /// nodes together.
    pub open spec fn spec_plan_feasible(&self, job: Job) -> bool {
        if job.descriptor.resources.accelerators == 0 || !(job.descriptor.constraint is Any) {
            exists|nidx: int|
                0 <= nidx < self.spec_registry().nodes@.len() && self.spec_node_can_host(nidx, job)
        } else {
            self.spec_avail_total(job, self.spec_registry().nodes@.len() as int)
                >= job.descriptor.resources.accelerators
        }
    }

    /// The pooled availability is monotone in the node prefix.
    proof fn lemma_avail_total_mono(&self, job: Job, u1: int, u2: int)
        requires
            0 <= u1 <= u2,
        ensures
            self.spec_avail_total(job, u1) <= self.spec_avail_total(job, u2),
        decreases u2,
    {
        if u2 > u1 {
            self.lemma_avail_total_mono(job, u1, u2 - 1);
            if self.spec_node_fit(u2 - 1, job) {
                self.lemma_usable_count_mono(
                    u2 - 1,
                    job,
                    None,
                    None,
                    None,
                    0,
                    self.spec_registry().nodes@[u2 - 1].accelerators@.len() as int,
                );
            }
        }
    }

    /// A device that suits the job and is unbooked, with no filters in
    /// play.
    pub open spec fn spec_usable_some(&self, nidx: int, d: int, job: Job) -> bool {
        let n = self.spec_registry().nodes@[nidx];
        let a = n.accelerators@[d];
        &&& a.memory >= job.descriptor.resources.accel_memory
        &&& a.capability >= job.descriptor.resources.accel_capability
        &&& !spec_device_reserved(self.spec_reservations(), n.id, a.index)
    }

    /// Whether the node at a registry position is active and can take the
    /// job's per-node CPU and memory debit.
    fn node_fits(&self, nidx: usize, job: &Job) -> (r: bool)
        requires
            self.wf(),
            nidx < self.spec_registry().nodes@.len(),
        ensures
            r == self.spec_node_fit(nidx as int, *job),
    {
        let node = &self.registry.nodes[nidx];
        if !matches!(node.state, NodeState::Active) {
            return false;
        }
        proof {
            assert(self.spec_node_within_capacity(self.registry.nodes@[nidx as int]));
        }
        let used_cpu = self.committed_cpu(node.id, node.cpu_capacity as u64);
        if (used_cpu as u128) + (job.descriptor.resources.cpu_cores as u128) > node.cpu_capacity
            as u128 {
            return false;
        }
        let used_mem = self.committed_mem(node.id, node.memory_capacity);
        if (used_mem as u128) + (job.descriptor.resources.host_memory as u128)
            > node.memory_capacity as u128 {
            return false;
        }
        true
    }

    /// Whether a device of the node suits the job and is free, with an
    /// optional link-group or memory-domain filter.
    fn device_usable(
        &self,
        nidx: usize,
        d: usize,
        job: &Job,
        want_group: Option<u32>,
        want_kind: Option<crate::scheduler::job::LinkKind>,
        want_domain: Option<u32>,
    ) -> (r: bool)
        requires
            self.wf(),
            nidx < self.spec_registry().nodes@.len(),
            d < self.spec_registry().nodes@[nidx as int].accelerators@.len(),
        ensures
            r == self.spec_usable(nidx as int, d as int, *job, want_group, want_kind, want_domain),
    {
        let node = &self.registry.nodes[nidx];
        let acc = &node.accelerators[d];
        if acc.memory < job.descriptor.resources.accel_memory {
            return false;
        }
        if acc.capability < job.descriptor.resources.accel_capability {
            return false;
        }
        match want_group {
            Some(g) => if acc.link_group != g {
                return false;
            },
            None => {},
        }
        match want_kind {
            Some(k) => if !(acc.link_kind == k) {
                return false;
            },
            None => {},
        }
        match want_domain {
            Some(dom) => if acc.memory_domain != dom {
                return false;
            },
            None => {},
        }
        if self.device_reserved(node.id, acc.index) {
            return false;
        }
        true
    }

    /// Collect up to `limit` usable devices of a node, lowest index
    /// first, under the given filters: exactly the lesser of `limit` and
    /// the node's usable count, each device usable, in strictly
    /// increasing order.
    fn pick_devices(
        &self,
        nidx: usize,
        job: &Job,
        limit: usize,
        want_group: Option<u32>,
        want_kind: Option<crate::scheduler::job::LinkKind>,
        want_domain: Option<u32>,
    ) -> (r: Vec<u32>)
        requires
            self.wf(),
            nidx < self.spec_registry().nodes@.len(),
        ensures
            ({
                let full = self.spec_usable_count(
                    nidx as int,
                    *job,
                    want_group,
                    want_kind,
                    want_domain,
                    self.spec_registry().nodes@[nidx as int].accelerators@.len() as int,
                );
                r@.len() == if full >= limit {
                    limit as int
                } else {
                    full
                }
            }),
            forall|e: int|
                0 <= e < r@.len() ==> ((#[trigger] r@[e]) as int)
                    < self.spec_registry().nodes@[nidx as int].accelerators@.len()
                    && self.spec_usable(
                    nidx as int,
                    r@[e] as int,
                    *job,
                    want_group,
                    want_kind,
                    want_domain,
                ),
            forall|a: int, b: int| 0 <= a < b < r@.len() ==> r@[a] < r@[b],
    {
        let mut picked: Vec<u32> = Vec::new();
        let nd = self.registry.nodes[nidx].accelerators.len();
        let mut d: usize = 0;
        while d < nd
            invariant
                self.wf(),
                nidx < self.spec_registry().nodes@.len(),
                nd == self.spec_registry().nodes@[nidx as int].accelerators@.len(),
                d <= nd,
                picked@.len() <= limit,
                ({
                    let part = self.spec_usable_count(
                        nidx as int,
                        *job,
                        want_group,
                        want_kind,
                        want_domain,
                        d as int,
                    );
                    picked@.len() == if part >= limit {
                        limit as int
                    } else {
                        part
                    }
                }),
                forall|e: int|
                    0 <= e < picked@.len() ==> ((#[trigger] picked@[e]) as int) < d as int
                        && self.spec_usable(
                        nidx as int,
                        picked@[e] as int,
                        *job,
                        want_group,
                        want_kind,
                        want_domain,
                    ),
                forall|a: int, b: int| 0 <= a < b < picked@.len() ==> picked@[a] < picked@[b],
            decreases nd - d,
        {
            if picked.len() >= limit {
                proof {
                    self.lemma_usable_count_mono(
                        nidx as int,
                        *job,
                        want_group,
                        want_kind,
                        want_domain,
                        d as int,
                        nd as int,
                    );
                }
                return picked;
            }
            if self.device_usable(nidx, d, job, want_group, want_kind, want_domain) {
                proof {
                    assert(self.registry.nodes@[nidx as int].wf());
                    assert(self.registry.nodes@[nidx as int].accelerators@[d as int].index
                        == d as u32);
                }
                picked.push(self.registry.nodes[nidx].accelerators[d].index);
            }
            d = d + 1;
        }
        picked
    }

    /// A single entry built from suitable, unbooked, distinct devices on
    /// a fitting node is an admissible plan.
    proof fn lemma_single_entry_admissible(
        &self,
        nidx: int,
        job: Job,
        entries: Seq<ReservationEntry>,
    )
        requires
            self.wf(),
            0 <= nidx < self.spec_registry().nodes@.len(),
            self.spec_node_fit(nidx, job),
            self.spec_node_of(self.spec_registry().nodes@[nidx].id) == Some(
                self.spec_registry().nodes@[nidx],
            ),
            entries.len() == 1,
            entries[0].node_id == self.spec_registry().nodes@[nidx].id,
            entries[0].cpu_cores == job.descriptor.resources.cpu_cores,
            entries[0].memory_bytes == job.descriptor.resources.host_memory,
            entries[0].device_indices@.len() == job.descriptor.resources.accelerators,
            forall|e: int|
                0 <= e < entries[0].device_indices@.len() ==> ((
                #[trigger] entries[0].device_indices@[e]) as int)
                    < self.spec_registry().nodes@[nidx].accelerators@.len()
                    && self.spec_usable_some(nidx, entries[0].device_indices@[e] as int, job),
            forall|x: int, y: int|
                0 <= x < y < entries[0].device_indices@.len() ==> entries[0].device_indices@[x]
                    < entries[0].device_indices@[y],
            match job.descriptor.constraint {
                Constraint::Any => true,
                Constraint::SameHost => true,
                Constraint::SameLink(kind) => forall|x: int, y: int|
                    0 <= x < entries[0].device_indices@.len() && 0 <= y
                        < entries[0].device_indices@.len() ==> {
                        let n = self.spec_registry().nodes@[nidx];
                        &&& n.accelerators@[(#[trigger] entries[0].device_indices@[x]) as int].link_kind
                            == kind
                        &&& n.accelerators@[entries[0].device_indices@[x] as int].link_group
                            == n.accelerators@[(#[trigger] entries[0].device_indices@[y]) as int].link_group
                    },
                Constraint::SameMemoryDomain => forall|x: int, y: int|
                    0 <= x < entries[0].device_indices@.len() && 0 <= y
                        < entries[0].device_indices@.len() ==> {
                        let n = self.spec_registry().nodes@[nidx];
                        n.accelerators@[(#[trigger] entries[0].device_indices@[x]) as int].memory_domain
                            == n.accelerators@[(#[trigger] entries[0].device_indices@[y]) as int].memory_domain
                    },
            },
        ensures
            self.spec_admissible(job, entries),
    {
        let n = self.spec_registry().nodes@[nidx];
        let e = entries[0];
        let f = |en: ReservationEntry| en.device_indices@.len() as int;
        assert(entries.drop_last() =~= Seq::<ReservationEntry>::empty());
        assert(spec_sum(Seq::<ReservationEntry>::empty(), f) == 0);
        assert(entries.last() == e);
        assert(spec_sum(entries, f) == e.device_indices@.len());
        assert(self.spec_registry().spec_has_node(e.node_id));
        assert forall|d: int|
            0 <= d < e.device_indices@.len() implies Self::spec_device_ok(
            self.spec_node_of(e.node_id)->Some_0,
            job,
            #[trigger] e.device_indices@[d],
        ) by {
            assert(self.spec_usable_some(nidx, e.device_indices@[d] as int, job));
        }
        assert forall|d: int|
            0 <= d < e.device_indices@.len() implies !spec_device_reserved(
            self.spec_reservations(),
            e.node_id,
            #[trigger] e.device_indices@[d],
        ) by {
            assert(self.spec_usable_some(nidx, e.device_indices@[d] as int, job));
            assert(n.wf());
            assert(n.accelerators@[e.device_indices@[d] as int].index == e.device_indices@[d]);
        }
        assert(self.spec_entry_admissible(job, e));
        match job.descriptor.constraint {
            Constraint::SameLink(kind) => {
                assert forall|x: int|
                    0 <= x < e.device_indices@.len() implies (#[trigger] self.spec_dev(
                    e.node_id,
                    e.device_indices@[x],
                )).link_kind == kind by {
                    assert(n.accelerators@[e.device_indices@[x] as int].link_kind == kind);
                }
                assert forall|x: int, y: int|
                    0 <= x < e.device_indices@.len() && 0 <= y < e.device_indices@.len()
                    implies (#[trigger] self.spec_dev(e.node_id, e.device_indices@[x])).link_group
                    == (#[trigger] self.spec_dev(e.node_id, e.device_indices@[y])).link_group by {
                    assert(n.accelerators@[e.device_indices@[x] as int].link_group
                        == n.accelerators@[e.device_indices@[y] as int].link_group);
                }
            },
            Constraint::SameMemoryDomain => {
                assert forall|x: int, y: int|
                    0 <= x < e.device_indices@.len() && 0 <= y < e.device_indices@.len()
                    implies (#[trigger] self.spec_dev(
                    e.node_id,
                    e.device_indices@[x],
                )).memory_domain == (#[trigger] self.spec_dev(
                    e.node_id,
                    e.device_indices@[y],
                )).memory_domain by {
                    assert(n.accelerators@[e.device_indices@[x] as int].memory_domain
                        == n.accelerators@[e.device_indices@[y] as int].memory_domain);
                }
            },
            _ => {},
        }
    }

    /// Build one single-node reservation entry for the job on the node.
    /// Succeeds exactly when the node can host the whole gang under the
    /// constraint, and then the plan is admissible.
    #[verifier::rlimit(100)]
    fn plan_single_node(&self, nidx: usize, job: &Job) -> (r: Option<Vec<ReservationEntry>>)
        requires
            self.wf(),
            nidx < self.spec_registry().nodes@.len(),
        ensures
            r is Some <==> self.spec_node_can_host(nidx as int, *job),
            r matches Some(p) ==> self.spec_admissible(*job, p@),
    {
        if !self.node_fits(nidx, job) {
            return None;
        }
        let k = job.descriptor.resources.accelerators as usize;
        let node_id = self.registry.nodes[nidx].id;
        let nd = self.registry.nodes[nidx].accelerators.len();
        let devices: Vec<u32> = match job.descriptor.constraint {
            Constraint::Any => self.pick_devices(nidx, job, k, None, None, None),
            Constraint::SameHost => self.pick_devices(nidx, job, k, None, None, None),
            Constraint::SameLink(kind) => {
                if k == 0 {
                    Vec::new()
                } else {
                    let mut found: Vec<u32> = Vec::new();
                    let mut done = false;
                    let mut a: usize = 0;
                    while a < nd && !done
                        invariant
                            self.wf(),
                            nidx < self.spec_registry().nodes@.len(),
                            nd == self.spec_registry().nodes@[nidx as int].accelerators@.len(),
                            a <= nd,
                            k == job.descriptor.resources.accelerators,
                            k >= 1,
                            job.descriptor.constraint == Constraint::SameLink(kind),
                            !done ==> found@.len() == 0,
                            !done ==> forall|a2: int|
                                0 <= a2 < a ==> self.spec_usable_count(
                                    nidx as int,
                                    *job,
                                    Some(
                                        (
                                        #[trigger] self.spec_registry().nodes@[nidx as int].accelerators@[a2]).link_group,
                                    ),
                                    Some(kind),
                                    None,
                                    nd as int,
                                ) < k as int,
                            done ==> ({
                                &&& found@.len() == k
                                &&& forall|e: int|
                                    0 <= e < found@.len() ==> ((#[trigger] found@[e]) as int) < (
                                    nd as int) && self.spec_usable(
                                        nidx as int,
                                        found@[e] as int,
                                        *job,
                                        Some(
                                            self.spec_registry().nodes@[nidx as int].accelerators@[found@[0] as int].link_group,
                                        ),
                                        Some(kind),
                                        None,
                                    )
                                &&& forall|x: int, y: int|
                                    0 <= x < y < found@.len() ==> found@[x] < found@[y]
                                &&& exists|a2: int|
                                    0 <= a2 < nd as int && self.spec_usable_count(
                                        nidx as int,
                                        *job,
                                        Some(
                                            (
                                            #[trigger] self.spec_registry().nodes@[nidx as int].accelerators@[a2]).link_group,
                                        ),
                                        Some(kind),
                                        None,
                                        nd as int,
                                    ) >= k as int
                            }),
                        decreases nd - a, (if done {
                            0int
                        } else {
                            1int
                        }),
                    {
                        let g = self.registry.nodes[nidx].accelerators[a].link_group;
                        let picked = self.pick_devices(nidx, job, k, Some(g), Some(kind), None);
                        if picked.len() >= k {
                            proof {
                                assert((picked@[0] as int) < nd as int);
                                assert(self.spec_usable(
                                    nidx as int,
                                    picked@[0] as int,
                                    *job,
                                    Some(g),
                                    Some(kind),
                                    None,
                                ));
                                assert(self.spec_registry().nodes@[nidx as int].accelerators@[picked@[0] as int].link_group
                                    == g);
                                assert(self.spec_usable_count(
                                    nidx as int,
                                    *job,
                                    Some(
                                        self.spec_registry().nodes@[nidx as int].accelerators@[a as int].link_group,
                                    ),
                                    Some(kind),
                                    None,
                                    nd as int,
                                ) >= k as int);
                            }
                            found = picked;
                            done = true;
                        } else {
                            a = a + 1;
                        }
                    }
                    found
                }
            },
            Constraint::SameMemoryDomain => {
                if k == 0 {
                    Vec::new()
                } else {
                    let mut found: Vec<u32> = Vec::new();
                    let mut done = false;
                    let mut a: usize = 0;
                    while a < nd && !done
                        invariant
                            self.wf(),
                            nidx < self.spec_registry().nodes@.len(),
                            nd == self.spec_registry().nodes@[nidx as int].accelerators@.len(),
                            a <= nd,
                            k == job.descriptor.resources.accelerators,
                            k >= 1,
                            job.descriptor.constraint is SameMemoryDomain,
                            !done ==> found@.len() == 0,
                            !done ==> forall|a2: int|
                                0 <= a2 < a ==> self.spec_usable_count(
                                    nidx as int,
                                    *job,
                                    None,
                                    None,
                                    Some(
                                        (
                                        #[trigger] self.spec_registry().nodes@[nidx as int].accelerators@[a2]).memory_domain,
                                    ),
                                    nd as int,
                                ) < k as int,
                            done ==> ({
                                &&& found@.len() == k
                                &&& forall|e: int|
                                    0 <= e < found@.len() ==> ((#[trigger] found@[e]) as int) < (
                                    nd as int) && self.spec_usable(
                                        nidx as int,
                                        found@[e] as int,
                                        *job,
                                        None,
                                        None,
                                        Some(
                                            self.spec_registry().nodes@[nidx as int].accelerators@[found@[0] as int].memory_domain,
                                        ),
                                    )
                                &&& forall|x: int, y: int|
                                    0 <= x < y < found@.len() ==> found@[x] < found@[y]
                                &&& exists|a2: int|
                                    0 <= a2 < nd as int && self.spec_usable_count(
                                        nidx as int,
                                        *job,
                                        None,
                                        None,
                                        Some(
                                            (
                                            #[trigger] self.spec_registry().nodes@[nidx as int].accelerators@[a2]).memory_domain,
                                        ),
                                        nd as int,
                                    ) >= k as int
                            }),
                        decreases nd - a, (if done {
                            0int
                        } else {
                            1int
                        }),
                    {
                        let dom = self.registry.nodes[nidx].accelerators[a].memory_domain;
                        let picked = self.pick_devices(nidx, job, k, None, None, Some(dom));
                        if picked.len() >= k {
                            proof {
                                assert((picked@[0] as int) < nd as int);
                                assert(self.spec_usable(
                                    nidx as int,
                                    picked@[0] as int,
                                    *job,
                                    None,
                                    None,
                                    Some(dom),
                                ));
                                assert(self.spec_usable_count(
                                    nidx as int,
                                    *job,
                                    None,
                                    None,
                                    Some(
                                        self.spec_registry().nodes@[nidx as int].accelerators@[a as int].memory_domain,
                                    ),
                                    nd as int,
                                ) >= k as int);
                            }
                            found = picked;
                            done = true;
                        } else {
                            a = a + 1;
                        }
                    }
                    found
                }
            },
        };
        if devices.len() != k {
            return None;
        }
        let entry = ReservationEntry {
            node_id,
            device_indices: devices,
            cpu_cores: job.descriptor.resources.cpu_cores,
            memory_bytes: job.descriptor.resources.host_memory,
        };
        let mut entries: Vec<ReservationEntry> = Vec::new();
        entries.push(entry);
        proof {
            self.lemma_node_at(nidx as int);
            self.lemma_single_entry_admissible(nidx as int, *job, entries@);
        }
        Some(entries)
    }

    /// Feasibility enumeration and topology match: find an admissible
    /// gang plan for the job against the current registry snapshot,
    /// deterministically. Constrained jobs take one node; unconstrained
    /// gangs spread greedily over the fitting nodes in registration
    /// order. A plan comes back exactly when the snapshot is feasible,
    /// and any plan returned is admissible, so committing it in this
    /// state succeeds.
    #[verifier::rlimit(100)]
    pub fn plan_placement(&self, job: &Job) -> (r: Option<Vec<ReservationEntry>>)
        requires
            self.wf(),
        ensures
            r is Some <==> self.spec_plan_feasible(*job),
            r matches Some(p) ==> self.spec_admissible(*job, p@),
    {
        let single = match job.descriptor.constraint {
            Constraint::Any => job.descriptor.resources.accelerators == 0,
            _ => true,
        };
        let nn = self.registry.nodes.len();
        if single {
            let mut nidx: usize = 0;
            while nidx < nn
                invariant
                    self.wf(),
                    nn == self.spec_registry().nodes@.len(),
                    nidx <= nn,
                    single,
                    job.descriptor.resources.accelerators == 0 || !(job.descriptor.constraint
                        is Any),
                    forall|v: int| 0 <= v < nidx ==> !self.spec_node_can_host(v, *job),
                decreases nn - nidx,
            {
                match self.plan_single_node(nidx, job) {
                    Some(p) => {
                        return Some(p);
                    },
                    None => {},
                }
                nidx = nidx + 1;
            }
            return None;
        }
        let k = job.descriptor.resources.accelerators as usize;
        let mut entries: Vec<ReservationEntry> = Vec::new();
        let mut got: usize = 0;
        let mut nidx: usize = 0;
        while nidx < nn && got < k
            invariant
                self.wf(),
                nn == self.spec_registry().nodes@.len(),
                nidx <= nn,
                got <= k,
                k == job.descriptor.resources.accelerators,
                k >= 1,
                job.descriptor.constraint is Any,
                got as int == (if self.spec_avail_total(*job, nidx as int) >= k as int {
                    k as int
                } else {
                    self.spec_avail_total(*job, nidx as int)
                }),
                spec_sum(entries@, |en: ReservationEntry| en.device_indices@.len() as int)
                    == got as int,
                forall|j: int|
                    0 <= j < entries@.len() ==> exists|v: int|
                        0 <= v < nidx && (#[trigger] entries@[j]).node_id
                            == self.spec_registry().nodes@[v].id,
                forall|j: int, j2: int|
                    0 <= j < j2 < entries@.len() ==> entries@[j].node_id != entries@[j2].node_id,
                forall|j: int|
                    0 <= j < entries@.len() ==> self.spec_entry_admissible(
                        *job,
                        #[trigger] entries@[j],
                    ),
            decreases nn - nidx,
        {
            let ghost pre_entries = entries@;
            let fits = self.node_fits(nidx, job);
            if fits {
                let devices = self.pick_devices(nidx, job, k - got, None, None, None);
                if devices.len() > 0 {
                    let take = devices.len();
                    let node_id = self.registry.nodes[nidx].id;
                    let ghost dev_view = devices@;
                    let entry = ReservationEntry {
                        node_id,
                        device_indices: devices,
                        cpu_cores: job.descriptor.resources.cpu_cores,
                        memory_bytes: job.descriptor.resources.host_memory,
                    };
                    proof {
                        self.lemma_node_at(nidx as int);
                        assert forall|d: int|
                            0 <= d < entry.device_indices@.len() implies Self::spec_device_ok(
                            self.spec_node_of(entry.node_id)->Some_0,
                            *job,
                            #[trigger] entry.device_indices@[d],
                        ) by {
                            assert(self.spec_usable(
                                nidx as int,
                                dev_view[d] as int,
                                *job,
                                None,
                                None,
                                None,
                            ));
                        }
                        assert forall|d: int|
                            0 <= d < entry.device_indices@.len() implies !spec_device_reserved(
                            self.spec_reservations(),
                            entry.node_id,
                            #[trigger] entry.device_indices@[d],
                        ) by {
                            assert(self.spec_usable(
                                nidx as int,
                                dev_view[d] as int,
                                *job,
                                None,
                                None,
                                None,
                            ));
                            assert(self.spec_registry().nodes@[nidx as int].wf());
                            assert(self.spec_registry().nodes@[nidx as int].accelerators@[dev_view[d] as int].index
                                == dev_view[d]);
                        }
                        assert(self.spec_entry_admissible(*job, entry));
                        assert forall|j: int|
                            0 <= j < pre_entries.len() implies (#[trigger] pre_entries[j]).node_id
                            != entry.node_id by {
                            let v = choose|v: int|
                                0 <= v < nidx && (#[trigger] pre_entries[j]).node_id
                                    == self.spec_registry().nodes@[v].id;
                            assert(self.spec_registry().nodes@[v].id
                                != self.spec_registry().nodes@[nidx as int].id);
                        }
                    }
                    entries.push(entry);
                    proof {
                        lemma_sum_push(
                            pre_entries,
                            |en: ReservationEntry| en.device_indices@.len() as int,
                            entry,
                        );
                    }
                    got = got + take;
                }
            }
            nidx = nidx + 1;
        }
        if got != k {
            proof {
                assert(nidx == nn);
                assert(self.spec_avail_total(*job, nn as int) < k as int);
            }
            return None;
        }
        proof {
            self.lemma_avail_total_mono(*job, nidx as int, nn as int);
            if entries@.len() == 0 {
                assert(spec_sum(entries@, |en: ReservationEntry| en.device_indices@.len() as int)
                    == 0);
            }
            assert(entries@.len() >= 1);
            assert(self.spec_admissible(*job, entries@));
        }
        Some(entries)
    }
}


impl Scheduler {
    /// The scheduling order is total over jobs with distinct identifiers.
    pub proof fn lemma_rank_total(a: Job, b: Job)
        requires
            a.id != b.id,
        ensures
            Job::spec_ranks_before(a, b) || Job::spec_ranks_before(b, a),
            !(Job::spec_ranks_before(a, b) && Job::spec_ranks_before(b, a)),
    {
    }

    /// The scheduling order is transitive.
    pub proof fn lemma_rank_trans(a: Job, b: Job, c: Job)
        requires
            Job::spec_ranks_before(a, b),
            Job::spec_ranks_before(b, c),
        ensures
            Job::spec_ranks_before(a, c),
    {
    }

    /// The queued jobs, as positions into the job list, sorted by the
    /// scheduling order: higher priority first, ties broken by earlier
    /// submission, then by smaller identifier.
    #[verifier::rlimit(100)]
    fn queued_candidates(&self) -> (r: Vec<usize>)
        requires
            self.wf(),
        ensures
            forall|t: int|
                0 <= t < r@.len() ==> (#[trigger] r@[t]) < self.spec_jobs().len()
                    && self.spec_jobs()[r@[t] as int].state is Queued,
            forall|a: int, b: int| 0 <= a < b < r@.len() ==> r@[a] != r@[b],
            forall|a: int, b: int|
                0 <= a < b < r@.len() ==> Job::spec_ranks_before(
                    self.spec_jobs()[r@[a] as int],
                    self.spec_jobs()[r@[b] as int],
                ),
            forall|j: int|
                0 <= j < self.spec_jobs().len() && self.spec_jobs()[j].state is Queued
                    ==> exists|t: int| 0 <= t < r@.len() && r@[t] == j,
    {
        let mut r: Vec<usize> = Vec::new();
        let n = self.jobs.len();
        let mut i: usize = 0;
        while i < n
            invariant
                self.wf(),
                n == self.spec_jobs().len(),
                i <= n,
                forall|t: int|
                    0 <= t < r@.len() ==> (#[trigger] r@[t]) < i
                        && self.spec_jobs()[r@[t] as int].state is Queued,
                forall|a: int, b: int| 0 <= a < b < r@.len() ==> r@[a] != r@[b],
                forall|a: int, b: int|
                    0 <= a < b < r@.len() ==> Job::spec_ranks_before(
                        self.spec_jobs()[r@[a] as int],
                        self.spec_jobs()[r@[b] as int],
                    ),
                forall|j: int|
                    0 <= j < i && self.spec_jobs()[j].state is Queued ==> exists|t: int|
                        0 <= t < r@.len() && r@[t] == j,
            decreases n - i,
        {
            if matches!(self.jobs[i].state, JobState::Queued) {
                let ghost prev = r@;
                let m = r.len();
                let mut pos: usize = 0;
                while pos < m && self.jobs[r[pos]].ranks_before(&self.jobs[i])
                    invariant
                        self.wf(),
                        n == self.spec_jobs().len(),
                        i < n,
                        m == r@.len(),
                        pos <= m,
                        r@ == prev,
                        forall|t: int|
                            0 <= t < r@.len() ==> (#[trigger] r@[t]) < i
                                && self.spec_jobs()[r@[t] as int].state is Queued,
                        forall|t: int|
                            0 <= t < pos ==> Job::spec_ranks_before(
                                self.spec_jobs()[(#[trigger] r@[t]) as int],
                                self.spec_jobs()[i as int],
                            ),
                    decreases m - pos,
                {
                    proof {
                        assert(Job::spec_ranks_before(
                            self.spec_jobs()[r@[pos as int] as int],
                            self.spec_jobs()[i as int],
                        ));
                    }
                    pos = pos + 1;
                }
                proof {
                    if pos < m {
                        assert(r@[pos as int] < i);
                        assert(self.jobs@[r@[pos as int] as int].id != self.jobs@[i as int].id) by {
                            if self.jobs@[r@[pos as int] as int].id == self.jobs@[i as int].id {
                                self.lemma_job_id_unique(r@[pos as int] as int, i as int);
                            }
                        }
                        Self::lemma_rank_total(
                            self.jobs@[r@[pos as int] as int],
                            self.jobs@[i as int],
                        );
                    }
                }
                r.insert(pos, i);
                proof {
                    let cur = r@;
                    assert(cur =~= prev.insert(pos as int, i as usize));
                    assert forall|t: int|
                        0 <= t < cur.len() implies (#[trigger] cur[t]) < i + 1
                            && self.spec_jobs()[cur[t] as int].state is Queued by {
                        if t < pos {
                            assert(cur[t] == prev[t]);
                        } else if t == pos {
                            assert(cur[t] == i as usize);
                        } else {
                            assert(cur[t] == prev[t - 1]);
                        }
                    }
                    assert forall|a: int, b: int| 0 <= a < b < cur.len() implies cur[a]
                        != cur[b] by {
                        let pa: int = if a < pos {
                            a
                        } else {
                            a - 1
                        };
                        let pb: int = if b < pos {
                            b
                        } else {
                            b - 1
                        };
                        if a != pos && b != pos {
                            assert(cur[a] == prev[pa]);
                            assert(cur[b] == prev[pb]);
                        } else if a == pos {
                            assert(cur[a] == i as usize);
                            assert(cur[b] == prev[pb]);
                            assert(prev[pb] < i);
                        } else {
                            assert(cur[b] == i as usize);
                            assert(cur[a] == prev[pa]);
                            assert(prev[pa] < i);
                        }
                    }
                    assert forall|a: int, b: int|
                        0 <= a < b < cur.len() implies Job::spec_ranks_before(
                        self.spec_jobs()[cur[a] as int],
                        self.spec_jobs()[cur[b] as int],
                    ) by {
                        let pa: int = if a < pos {
                            a
                        } else {
                            a - 1
                        };
                        let pb: int = if b < pos {
                            b
                        } else {
                            b - 1
                        };
                        if a != pos && b != pos {
                            assert(cur[a] == prev[pa]);
                            assert(cur[b] == prev[pb]);
                        } else if a == pos {
                            assert(cur[a] == i as usize);
                            assert(cur[b] == prev[pb]);
                            assert(pos <= pb < m);
                            if pos < m {
                                assert(Job::spec_ranks_before(
                                    self.spec_jobs()[cur[a] as int],
                                    self.spec_jobs()[prev[pos as int] as int],
                                ));
                                if pb > pos {
                                    assert(Job::spec_ranks_before(
                                        self.spec_jobs()[prev[pos as int] as int],
                                        self.spec_jobs()[prev[pb] as int],
                                    ));
                                    Self::lemma_rank_trans(
                                        self.spec_jobs()[cur[a] as int],
                                        self.spec_jobs()[prev[pos as int] as int],
                                        self.spec_jobs()[prev[pb] as int],
                                    );
                                }
                            }
                        } else {
                            assert(cur[b] == i as usize);
                            assert(cur[a] == prev[pa]);
                            assert(pa < pos);
                            assert(Job::spec_ranks_before(
                                self.spec_jobs()[prev[pa] as int],
                                self.spec_jobs()[i as int],
                            ));
                        }
                    }
                    assert forall|j: int|
                        0 <= j < i + 1 && self.spec_jobs()[j].state is Queued implies exists|t: int|
                        0 <= t < cur.len() && cur[t] == j by {
                        if j == i {
                            assert(cur[pos as int] == i as usize);
                        } else {
                            let t = choose|t: int| 0 <= t < prev.len() && prev[t] == j;
                            if t < pos {
                                assert(cur[t] == prev[t]);
                            } else {
                                assert(cur[t + 1] == prev[t]);
                            }
                        }
                    }
                }
            }
            i = i + 1;
        }
        r
    }
}


/// Some job of the list carries the identifier and is queued.
pub open spec fn spec_some_queued(jobs: Seq<Job>, id: u64) -> bool {
    exists|j: int| 0 <= j < jobs.len() && (#[trigger] jobs[j]).id == id && jobs[j].state is Queued
}

/// The job carrying the first identifier ranks before the job carrying
/// the second, in the given list.
pub open spec fn spec_ranked_pair(jobs: Seq<Job>, id_a: u64, id_b: u64) -> bool {
    exists|ja: int, jb: int|
        {
            &&& 0 <= ja < jobs.len()
            &&& 0 <= jb < jobs.len()
            &&& (#[trigger] jobs[ja]).id == id_a
            &&& (#[trigger] jobs[jb]).id == id_b
            &&& Job::spec_ranks_before(jobs[ja], jobs[jb])
        }
}

/// Two job lists agree on identity: same length, and each position keeps
/// its identifier, descriptor, and submission time (states may differ).
pub open spec fn spec_same_shape(a: Seq<Job>, b: Seq<Job>) -> bool {
    &&& a.len() == b.len()
    &&& forall|i: int|
        0 <= i < a.len() ==> {
            &&& (#[trigger] a[i]).id == b[i].id
            &&& a[i].descriptor == b[i].descriptor
            &&& a[i].submitted_at == b[i].submitted_at
        }
}

/// Shape agreement is transitive.
pub proof fn lemma_shape_trans(a: Seq<Job>, b: Seq<Job>, c: Seq<Job>)
    requires
        spec_same_shape(a, b),
        spec_same_shape(b, c),
    ensures
        spec_same_shape(a, c),
{
}

/// A state update keeps the shape.
pub proof fn lemma_shape_update(s: Seq<Job>, i: int, st: JobState)
    requires
        0 <= i < s.len(),
    ensures
        spec_same_shape(s, s.update(i, Job { state: st, ..s[i] })),
{
}

impl Scheduler {
    /// Respecting capacity is an invariant of every scheduler state: on a
    /// well-formed scheduler, the sum of the committed cores and bytes on
    /// each node stays within its capacity, and no device is booked by
    /// two reservations.
    pub proof fn lemma_capacity_respected(&self, n: int)
        requires
            self.wf(),
            0 <= n < self.spec_registry().nodes@.len(),
        ensures
            spec_res_cpu(self.spec_reservations(), self.spec_registry().nodes@[n].id)
                <= self.spec_registry().nodes@[n].cpu_capacity,
            spec_res_mem(self.spec_reservations(), self.spec_registry().nodes@[n].id)
                <= self.spec_registry().nodes@[n].memory_capacity,
            forall|dev: u32|
                #[trigger] spec_res_dev(
                    self.spec_reservations(),
                    self.spec_registry().nodes@[n].id,
                    dev,
                ) <= 1,
    {
        assert(self.spec_node_within_capacity(self.spec_registry().nodes@[n]));
    }

    /// Try to make room for a queued job by preempting running jobs.
    /// Victims are released and requeued one at a time until the job can
    /// be placed; returns whether it was, and the victims. The margin
    /// law is part of the contract: a job running before and not running
    /// after lies below the incoming job's priority by strictly more
    /// than the preemption margin — at or inside the margin, nothing is
    /// demoted.
    pub fn try_preempt(&mut self, job_id: u64) -> (r: (bool, Vec<u64>))
        requires
            old(self).wf(),
        ensures
            final(self).wf(),
            spec_same_shape(old(self).spec_jobs(), final(self).spec_jobs()),
            final(self).spec_registry() == old(self).spec_registry(),
            final(self).spec_config() == old(self).spec_config(),
            final(self).spec_margin() == old(self).spec_margin(),
            final(self).spec_next_job_id() == old(self).spec_next_job_id(),
            forall|i: int|
                0 <= i < old(self).spec_jobs().len() && (#[trigger] old(self).spec_jobs()[i]).state
                    is Running && !(final(self).spec_jobs()[i].state is Running) ==> match old(
                    self,
                ).spec_job_of(job_id) {
                    Some(jj) => (old(self).spec_jobs()[i].descriptor.priority as int) + (
                    old(self).spec_margin() as int) < jj.descriptor.priority as int,
                    None => false,
                },
    {
        let mut victims: Vec<u64> = Vec::new();
        let jidx = match self.find_job(job_id) {
            Some(i) => i,
            None => { return (false, victims) },
        };
        proof {
            self.lemma_job_of_at(jidx as int);
        }
        if !matches!(self.jobs[jidx].state, JobState::Queued) {
            return (false, victims);
        }
        let job = Job {
            id: self.jobs[jidx].id,
            descriptor: self.jobs[jidx].descriptor,
            submitted_at: self.jobs[jidx].submitted_at,
            state: self.jobs[jidx].state,
        };
        let n = self.jobs.len();
        let mut v: usize = 0;
        while v < n
            invariant
                self.wf(),
                n == self.spec_jobs().len(),
                v <= n,
                jidx < n,
                spec_same_shape(old(self).spec_jobs(), self.spec_jobs()),
                self.spec_registry() == old(self).spec_registry(),
                self.spec_config() == old(self).spec_config(),
                self.spec_margin() == old(self).spec_margin(),
                self.spec_next_job_id() == old(self).spec_next_job_id(),
                old(self).spec_job_of(job_id) == Some(old(self).spec_jobs()[jidx as int]),
                job.descriptor == old(self).spec_jobs()[jidx as int].descriptor,
                forall|i: int|
                    0 <= i < old(self).spec_jobs().len() && (
                    #[trigger] old(self).spec_jobs()[i]).state is Running && !(
                    self.spec_jobs()[i].state is Running) ==> (
                    old(self).spec_jobs()[i].descriptor.priority as int) + (
                    old(self).spec_margin() as int) < job.descriptor.priority as int,
            decreases n - v,
        {
            let is_victim: bool = matches!(self.jobs[v].state, JobState::Running)
                && (self.jobs[v].descriptor.priority as u64) + (self.preemption_margin as u64)
                < (job.descriptor.priority as u64);
            if is_victim {
                let vid = self.jobs[v].id;
                victims.push(vid);
                let _ = self.release_reservation(vid);
                let ghost mid = *self;
                let victim = &mut self.jobs[v];
                victim.state = JobState::Queued;
                proof {
                    assert(self.jobs@ =~= mid.jobs@.update(
                        v as int,
                        Job { state: JobState::Queued, ..mid.jobs@[v as int] },
                    ));
                    self.lemma_state_change_unreferenced(&mid, v as int, JobState::Queued);
                    lemma_shape_update(mid.jobs@, v as int, JobState::Queued);
                    lemma_shape_trans(old(self).jobs@, mid.jobs@, self.jobs@);
                }
                let plan = self.plan_placement(&job);
                match plan {
                    Some(entries) => {
                        let ghost pre_commit = *self;
                        match self.commit_reservation(job_id, entries) {
                            Ok(()) => {
                                proof {
                                    let i = choose|i: int|
                                        {
                                            &&& 0 <= i < pre_commit.spec_jobs().len()
                                            &&& pre_commit.spec_jobs()[i].id == job_id
                                            &&& self.spec_jobs() == pre_commit.spec_jobs().update(
                                                i,
                                                Job {
                                                    state: JobState::Running,
                                                    ..pre_commit.spec_jobs()[i]
                                                },
                                            )
                                        };
                                    lemma_shape_update(pre_commit.jobs@, i, JobState::Running);
                                    lemma_shape_trans(old(self).jobs@, pre_commit.jobs@, self.jobs@);
                                }
                                return (true, victims);
                            },
                            Err(_) => {},
                        }
                    },
                    None => {},
                }
            }
            v = v + 1;
        }
        (false, victims)
    }


    /// The strictly top-ranked queued job: queued, and scheduled before
    /// every other queued job.
    pub open spec fn spec_top_queued(&self, j: int) -> bool {
        &&& 0 <= j < self.spec_jobs().len()
        &&& self.spec_jobs()[j].state is Queued
        &&& forall|j2: int|
            0 <= j2 < self.spec_jobs().len() && j2 != j && (#[trigger] self.spec_jobs()[j2]).state
                is Queued ==> Job::spec_ranks_before(self.spec_jobs()[j], self.spec_jobs()[j2])
    }

    /// The job at a position is what its identifier resolves to.
    proof fn lemma_job_of_at(&self, idx: int)
        requires
            self.wf(),
            0 <= idx < self.spec_jobs().len(),
        ensures
            self.spec_job_of(self.spec_jobs()[idx].id) == Some(self.spec_jobs()[idx]),
    {
        let id = self.spec_jobs()[idx].id;
        assert(0 <= idx < self.spec_jobs().len() && self.spec_jobs()[idx].id == id);
        let k = choose|k: int|
            0 <= k < self.spec_jobs().len() && self.spec_jobs()[k].id == id;
        self.lemma_job_id_unique(idx, k);
    }

    /// In a complete, rank-sorted queued-candidate list, the top-ranked
    /// queued job stands first.
    proof fn lemma_top_is_first(&self, cand: Seq<usize>, j: int)
        requires
            self.wf(),
            forall|t: int|
                0 <= t < cand.len() ==> (#[trigger] cand[t]) < self.spec_jobs().len()
                    && self.spec_jobs()[cand[t] as int].state is Queued,
            forall|a: int, b: int| 0 <= a < b < cand.len() ==> cand[a] != cand[b],
            forall|a: int, b: int|
                0 <= a < b < cand.len() ==> Job::spec_ranks_before(
                    self.spec_jobs()[cand[a] as int],
                    self.spec_jobs()[cand[b] as int],
                ),
            forall|j2: int|
                0 <= j2 < self.spec_jobs().len() && self.spec_jobs()[j2].state is Queued
                    ==> exists|t: int| 0 <= t < cand.len() && cand[t] == j2,
            self.spec_top_queued(j),
        ensures
            cand.len() >= 1,
            cand[0] as int == j,
    {
        let t = choose|t: int| 0 <= t < cand.len() && cand[t] == j;
        if t > 0 {
            assert(Job::spec_ranks_before(
                self.spec_jobs()[cand[0] as int],
                self.spec_jobs()[cand[t] as int],
            ));
            assert(cand[0] != cand[t]);
            assert(self.spec_jobs()[cand[0] as int].state is Queued);
            assert(Job::spec_ranks_before(self.spec_jobs()[j], self.spec_jobs()[cand[0] as int]));
            if self.spec_jobs()[j].id == self.spec_jobs()[cand[0] as int].id {
                self.lemma_job_id_unique(j, cand[0] as int);
            }
            Self::lemma_rank_total(self.spec_jobs()[j], self.spec_jobs()[cand[0] as int]);
            assert(false);
        }
    }

    /// One scheduling cycle over the priority-ordered queue: up to
    /// `max_schedule_batch` placement attempts, in scheduling order, with
    /// gang reservation, preemption for the first blocked job, and
    /// backfill behind it when enabled. Jobs skipped by quota or left
    /// unplaced stay queued. Placements happen in scheduling order:
    /// a higher-ranked job is never placed after a lower-ranked one
    /// within the cycle, and a strictly top-ranked queued job that is
    /// within quota and feasible is placed first.
    #[verifier::rlimit(100)]
    pub fn schedule_cycle(&mut self) -> (r: CycleReport)
        requires
            old(self).wf(),
        ensures
            final(self).wf(),
            spec_same_shape(old(self).spec_jobs(), final(self).spec_jobs()),
            final(self).spec_registry() == old(self).spec_registry(),
            final(self).spec_config() == old(self).spec_config(),
            final(self).spec_margin() == old(self).spec_margin(),
            final(self).spec_next_job_id() == old(self).spec_next_job_id(),
            forall|a: int|
                0 <= a < r.placed@.len() ==> spec_some_queued(
                    old(self).spec_jobs(),
                    #[trigger] r.placed@[a],
                ),
            forall|a: int, b: int|
                0 <= a < b < r.placed@.len() ==> spec_ranked_pair(
                    old(self).spec_jobs(),
                    #[trigger] r.placed@[a],
                    #[trigger] r.placed@[b],
                ),
            forall|j: int|
                #![trigger old(self).spec_top_queued(j)]
                old(self).spec_top_queued(j) && old(self).spec_quota_ok(old(self).spec_jobs()[j])
                    && old(self).spec_plan_feasible(old(self).spec_jobs()[j]) && old(
                    self,
                ).spec_config().max_schedule_batch > 0 ==> r.placed@.len() > 0 && r.placed@[0]
                    == old(self).spec_jobs()[j].id,
    {
        let cand = self.queued_candidates();
        let ghost cand0 = cand@;
        let batch = if cand.len() < self.config.max_schedule_batch {
            cand.len()
        } else {
            self.config.max_schedule_batch
        };
        let mut placed: Vec<u64> = Vec::new();
        let mut preempted: Vec<u64> = Vec::new();
        let ghost mut poss: Seq<int> = Seq::empty();
        let mut blocked: Option<Job> = None;
        let mut stop = false;
        let mut ci: usize = 0;
        while ci < batch && !stop
            invariant
                self.wf(),
                batch <= cand0.len(),
                ci <= batch,
                cand@ == cand0,
                ci == 0 ==> self == old(self),
                ci == 0 ==> blocked is None,
                stop ==> ci >= 1,
                forall|a: int, b: int| 0 <= a < b < cand0.len() ==> cand0[a] != cand0[b],
                forall|j2: int|
                    0 <= j2 < old(self).spec_jobs().len() && old(self).spec_jobs()[j2].state
                        is Queued ==> exists|t: int| 0 <= t < cand0.len() && cand0[t] == j2,
                ci >= 1 ==> forall|j: int|
                    #![trigger old(self).spec_top_queued(j)]
                    old(self).spec_top_queued(j) && old(self).spec_quota_ok(
                        old(self).spec_jobs()[j],
                    ) && old(self).spec_plan_feasible(old(self).spec_jobs()[j])
                        ==> placed@.len() > 0 && placed@[0] == old(self).spec_jobs()[j].id,
                spec_same_shape(old(self).spec_jobs(), self.spec_jobs()),
                self.spec_registry() == old(self).spec_registry(),
                self.spec_config() == old(self).spec_config(),
                self.spec_margin() == old(self).spec_margin(),
                self.spec_next_job_id() == old(self).spec_next_job_id(),
                forall|t: int|
                    0 <= t < cand0.len() ==> (#[trigger] cand0[t]) < old(self).spec_jobs().len()
                        && old(self).spec_jobs()[cand0[t] as int].state is Queued,
                forall|a: int, b: int|
                    0 <= a < b < cand0.len() ==> Job::spec_ranks_before(
                        old(self).spec_jobs()[cand0[a] as int],
                        old(self).spec_jobs()[cand0[b] as int],
                    ),
                poss.len() == placed@.len(),
                forall|a: int|
                    0 <= a < poss.len() ==> 0 <= #[trigger] poss[a] < ci && poss[a] < cand0.len(),
                forall|a: int, b: int| 0 <= a < b < poss.len() ==> poss[a] < poss[b],
                forall|a: int|
                    0 <= a < placed@.len() ==> (#[trigger] placed@[a]) == old(
                        self,
                    ).spec_jobs()[cand0[poss[a]] as int].id,
            decreases batch - ci,
        {
            let jidx = cand[ci];
            proof {
                assert(cand0[ci as int] < old(self).spec_jobs().len());
            }
            let job = Job {
                id: self.jobs[jidx].id,
                descriptor: self.jobs[jidx].descriptor,
                submitted_at: self.jobs[jidx].submitted_at,
                state: self.jobs[jidx].state,
            };
            if self.quota_ok(&job) {
                let plan = self.plan_placement(&job);
                match plan {
                    Some(entries) => {
                        let fb: bool = match &blocked {
                            Some(bj) => self.plan_placement(bj).is_some(),
                            None => false,
                        };
                        let ghost pre_commit = *self;
                        match self.commit_reservation(job.id, entries) {
                            Ok(()) => {
                                proof {
                                    let i = choose|i: int|
                                        {
                                            &&& 0 <= i < pre_commit.spec_jobs().len()
                                            &&& pre_commit.spec_jobs()[i].id == job.id
                                            &&& self.spec_jobs() == pre_commit.spec_jobs().update(
                                                i,
                                                Job {
                                                    state: JobState::Running,
                                                    ..pre_commit.spec_jobs()[i]
                                                },
                                            )
                                        };
                                    lemma_shape_update(pre_commit.jobs@, i, JobState::Running);
                                    lemma_shape_trans(old(self).jobs@, pre_commit.jobs@, self.jobs@);
                                }
                                let mut harmful = false;
                                match &blocked {
                                    Some(bj) => {
                                        let fa = self.plan_placement(bj).is_some();
                                        if fa != fb {
                                            harmful = true;
                                        }
                                    },
                                    None => {},
                                }
                                if harmful {
                                    let _ = self.release_reservation(job.id);
                                    let ghost mid_rb = *self;
                                    match self.find_job(job.id) {
                                        Some(bidx) => {
                                            let jref = &mut self.jobs[bidx];
                                            jref.state = JobState::Queued;
                                            proof {
                                                assert(self.jobs@ =~= mid_rb.jobs@.update(
                                                    bidx as int,
                                                    Job {
                                                        state: JobState::Queued,
                                                        ..mid_rb.jobs@[bidx as int]
                                                    },
                                                ));
                                                self.lemma_state_change_unreferenced(
                                                    &mid_rb,
                                                    bidx as int,
                                                    JobState::Queued,
                                                );
                                                lemma_shape_update(
                                                    mid_rb.jobs@,
                                                    bidx as int,
                                                    JobState::Queued,
                                                );
                                                lemma_shape_trans(
                                                    old(self).jobs@,
                                                    mid_rb.jobs@,
                                                    self.jobs@,
                                                );
                                            }
                                        },
                                        None => {},
                                    }
                                } else {
                                    placed.push(job.id);
                                    proof {
                                        poss = poss.push(ci as int);
                                        assert(job.id == old(self).spec_jobs()[cand0[ci as int] as int].id);
                                        assert forall|a: int, b: int|
                                            0 <= a < b < poss.len() implies poss[a] < poss[b] by {
                                            if b < poss.len() - 1 {
                                            } else {
                                                assert(poss[a] < ci as int);
                                            }
                                        }
                                    }
                                }
                            },
                            Err(_) => {
                                if matches!(blocked, None) {
                                    blocked = Some(job);
                                    if !self.config.backfill_enabled {
                                        stop = true;
                                    }
                                }
                            },
                        }
                    },
                    None => {
                        if matches!(blocked, None) {
                            let (won, victims) = self.try_preempt(job.id);
                            if won {
                                let mut vi: usize = 0;
                                let nv = victims.len();
                                while vi < nv
                                    invariant
                                        nv == victims@.len(),
                                        vi <= nv,
                                    decreases nv - vi,
                                {
                                    preempted.push(victims[vi]);
                                    vi = vi + 1;
                                }
                                placed.push(job.id);
                                proof {
                                    poss = poss.push(ci as int);
                                    assert(job.id == old(self).spec_jobs()[cand0[ci as int] as int].id);
                                    assert forall|a: int, b: int|
                                        0 <= a < b < poss.len() implies poss[a] < poss[b] by {
                                        if b < poss.len() - 1 {
                                        } else {
                                            assert(poss[a] < ci as int);
                                        }
                                    }
                                }
                            } else {
                                blocked = Some(job);
                                if !self.config.backfill_enabled {
                                    stop = true;
                                }
                            }
                        }
                    },
                }
            }
            proof {
                if ci == 0 {
                    assert forall|j: int|
                        #![trigger old(self).spec_top_queued(j)]
                        old(self).spec_top_queued(j) && old(self).spec_quota_ok(
                            old(self).spec_jobs()[j],
                        ) && old(self).spec_plan_feasible(old(self).spec_jobs()[j])
                            implies placed@.len() > 0 && placed@[0] == old(
                        self,
                    ).spec_jobs()[j].id by {
                        old(self).lemma_top_is_first(cand0, j);
                        assert(j == cand0[0] as int);
                        assert(old(self).spec_jobs()[j].state is Queued);
                        old(self).lemma_job_of_at(j);
                    }
                }
            }
            ci = ci + 1;
        }
        proof {
            assert forall|j: int|
                #![trigger old(self).spec_top_queued(j)]
                old(self).spec_top_queued(j) && old(self).spec_quota_ok(old(self).spec_jobs()[j])
                    && old(self).spec_plan_feasible(old(self).spec_jobs()[j]) && old(
                    self,
                ).spec_config().max_schedule_batch > 0 implies placed@.len() > 0 && placed@[0]
                == old(self).spec_jobs()[j].id by {
                let t = choose|t: int| 0 <= t < cand0.len() && cand0[t] == j;
                assert(cand0.len() >= 1);
                assert(batch >= 1);
                assert(ci >= 1);
            }
        }
        let report = CycleReport { placed, preempted };
        proof {
            assert forall|j: int|
                #![trigger old(self).spec_top_queued(j)]
                old(self).spec_top_queued(j) && old(self).spec_quota_ok(old(self).spec_jobs()[j])
                    && old(self).spec_plan_feasible(old(self).spec_jobs()[j]) && old(
                    self,
                ).spec_config().max_schedule_batch > 0 implies report.placed@.len() > 0
                && report.placed@[0] == old(self).spec_jobs()[j].id by {}
            assert forall|a: int| #![trigger report.placed@[a]]
                0 <= a < report.placed@.len() implies spec_some_queued(
                old(self).spec_jobs(),
                report.placed@[a],
            ) by {
                assert(report.placed@[a] == old(self).spec_jobs()[cand0[poss[a]] as int].id);
                assert(old(self).spec_jobs()[cand0[poss[a]] as int].state is Queued);
            }
            assert forall|a: int, b: int| #![trigger report.placed@[a], report.placed@[b]]
                0 <= a < b < report.placed@.len() implies spec_ranked_pair(
                old(self).spec_jobs(),
                report.placed@[a],
                report.placed@[b],
            ) by {
                let pa = poss[a];
                let pb = poss[b];
                assert(pa < pb);
                assert(report.placed@[a] == old(self).spec_jobs()[cand0[pa] as int].id);
                assert(report.placed@[b] == old(self).spec_jobs()[cand0[pb] as int].id);
                assert(Job::spec_ranks_before(
                    old(self).spec_jobs()[cand0[pa] as int],
                    old(self).spec_jobs()[cand0[pb] as int],
                ));
            }
        }
        report
    }

}

/// Whether some reservation of the list names the job.
pub open spec fn spec_res_names(rs: Seq<Reservation>, job_id: u64) -> bool {
    exists|i: int| 0 <= i < rs.len() && (#[trigger] rs[i]).job_id == job_id
}

impl Scheduler {
    /// The entry names a known node that is currently active.
    pub open spec fn spec_entry_active(&self, e: ReservationEntry) -> bool {
        match self.spec_node_of(e.node_id) {
            Some(n) => n.state is Active,
            None => false,
        }
    }

    /// Every reservation entry sits on an active node.
    pub open spec fn spec_reservations_active(&self) -> bool {
        forall|i: int, k: int|
            0 <= i < self.spec_reservations().len() && 0 <= k
                < self.spec_reservations()[i].entries@.len() ==> self.spec_entry_active(
                #[trigger] self.spec_reservations()[i].entries@[k],
            )
    }

    /// Whether some reservation names the job.
    pub open spec fn spec_holds_reservation(&self, job_id: u64) -> bool {
        spec_res_names(self.spec_reservations(), job_id)
    }

    /// Whether every entry of the reservation at a position sits on an
    /// active node.
    fn entries_all_active(&self, ri: usize) -> (r: bool)
        requires
            self.wf(),
            ri < self.spec_reservations().len(),
        ensures
            r == (forall|k: int|
                0 <= k < self.spec_reservations()[ri as int].entries@.len()
                    ==> self.spec_entry_active(
                    #[trigger] self.spec_reservations()[ri as int].entries@[k],
                )),
    {
        let ne = self.reservations[ri].entries.len();
        let mut ei: usize = 0;
        while ei < ne
            invariant
                self.wf(),
                ri < self.reservations@.len(),
                ne == self.reservations@[ri as int].entries@.len(),
                ei <= ne,
                forall|k: int|
                    0 <= k < ei ==> self.spec_entry_active(
                        #[trigger] self.reservations@[ri as int].entries@[k],
                    ),
            decreases ne - ei,
        {
            let node_id = self.reservations[ri].entries[ei].node_id;
            match self.registry.find(node_id) {
                Some(nix) => {
                    proof {
                        self.lemma_node_at(nix as int);
                    }
                    if !matches!(self.registry.nodes[nix].state, NodeState::Active) {
                        proof {
                            assert(0 <= (ei as int)
                                < self.spec_reservations()[ri as int].entries@.len());
                            assert(!self.spec_entry_active(
                                self.spec_reservations()[ri as int].entries@[ei as int],
                            ));
                        }
                        return false;
                    }
                    proof {
                        assert(self.spec_entry_active(
                            self.spec_reservations()[ri as int].entries@[ei as int],
                        ));
                    }
                },
                None => {
                    proof {
                        assert(self.spec_node_of(node_id) is None);
                        assert(0 <= (ei as int)
                            < self.spec_reservations()[ri as int].entries@.len());
                        assert(!self.spec_entry_active(
                            self.spec_reservations()[ri as int].entries@[ei as int],
                        ));
                    }
                    return false;
                },
            }
            ei = ei + 1;
        }
        true
    }
}

impl Scheduler {

    /// One processing step of the sweep: the job's reservation left, a
    /// replacement (if any) sits on active nodes, and the job settled; so
    /// the remaining reservations are still pending or active, the
    /// pending jobs still hold theirs, and every original holder is still
    /// holding or has failed.
    proof fn lemma_sweep_advance(
        &self,
        origin: &Scheduler,
        iter0: &Scheduler,
        relst: &Scheduler,
        dead: Seq<u64>,
        di: int,
        ridx: int,
        job_id: u64,
        pushed: Option<Reservation>,
    )
        requires
            origin.wf(),
            iter0.wf(),
            0 <= di < dead.len(),
            dead[di] == job_id,
            forall|d1: int, d2: int| 0 <= d1 < d2 < dead.len() ==> dead[d1] != dead[d2],
            relst.spec_registry() == iter0.spec_registry(),
            self.spec_registry() == iter0.spec_registry(),
            0 <= ridx < iter0.spec_reservations().len(),
            iter0.spec_reservations()[ridx].job_id == job_id,
            relst.spec_reservations() == iter0.spec_reservations().remove(ridx),
            forall|i: int|
                0 <= i < relst.spec_reservations().len() ==> (
                #[trigger] relst.spec_reservations()[i]).job_id != job_id,
            match pushed {
                Some(nr) => {
                    &&& self.spec_reservations() == relst.spec_reservations().push(nr)
                    &&& nr.job_id == job_id
                    &&& forall|k: int|
                        0 <= k < nr.entries@.len() ==> iter0.spec_entry_active(
                            #[trigger] nr.entries@[k],
                        )
                },
                None => self.spec_reservations() == relst.spec_reservations(),
            },
            self.spec_jobs().len() == iter0.spec_jobs().len(),
            forall|k: int|
                0 <= k < iter0.spec_jobs().len() && (#[trigger] iter0.spec_jobs()[k]).id != job_id
                    ==> self.spec_jobs()[k] == iter0.spec_jobs()[k],
            self.spec_holds_reservation(job_id) || exists|k: int|
                0 <= k < self.spec_jobs().len() && (#[trigger] self.spec_jobs()[k]).id == job_id
                    && self.spec_jobs()[k].state is Failed,
            forall|i: int|
                0 <= i < iter0.spec_reservations().len() ==> ((exists|d: int|
                    di <= d < dead.len() && dead[d] == (
                    #[trigger] iter0.spec_reservations()[i]).job_id) || (forall|k: int|
                    0 <= k < iter0.spec_reservations()[i].entries@.len()
                        ==> iter0.spec_entry_active(
                        #[trigger] iter0.spec_reservations()[i].entries@[k],
                    ))),
            forall|d: int|
                di <= d < dead.len() ==> iter0.spec_holds_reservation(#[trigger] dead[d]),
            forall|i: int|
                0 <= i < origin.spec_reservations().len() ==> {
                    let jid = (#[trigger] origin.spec_reservations()[i]).job_id;
                    iter0.spec_holds_reservation(jid) || exists|k: int|
                        0 <= k < iter0.spec_jobs().len() && (#[trigger] iter0.spec_jobs()[k]).id
                            == jid && iter0.spec_jobs()[k].state is Failed
                },
        ensures
            forall|i: int|
                0 <= i < self.spec_reservations().len() ==> ((exists|d: int|
                    di + 1 <= d < dead.len() && dead[d] == (
                    #[trigger] self.spec_reservations()[i]).job_id) || (forall|k: int|
                    0 <= k < self.spec_reservations()[i].entries@.len()
                        ==> self.spec_entry_active(
                        #[trigger] self.spec_reservations()[i].entries@[k],
                    ))),
            forall|d: int|
                di + 1 <= d < dead.len() ==> self.spec_holds_reservation(#[trigger] dead[d]),
            forall|i: int|
                0 <= i < origin.spec_reservations().len() ==> {
                    let jid = (#[trigger] origin.spec_reservations()[i]).job_id;
                    self.spec_holds_reservation(jid) || exists|k: int|
                        0 <= k < self.spec_jobs().len() && (#[trigger] self.spec_jobs()[k]).id
                            == jid && self.spec_jobs()[k].state is Failed
                },
    {
        assert forall|e: ReservationEntry|
            #[trigger] iter0.spec_entry_active(e) implies self.spec_entry_active(e) by {
            assert(self.spec_node_of(e.node_id) == iter0.spec_node_of(e.node_id));
        }
        let rl = relst.spec_reservations().len() as int;
        assert forall|i: int|
            0 <= i < self.spec_reservations().len() implies ((exists|d: int|
                di + 1 <= d < dead.len() && dead[d] == (
                #[trigger] self.spec_reservations()[i]).job_id) || (forall|k: int|
                0 <= k < self.spec_reservations()[i].entries@.len() ==> self.spec_entry_active(
                    #[trigger] self.spec_reservations()[i].entries@[k],
                ))) by {
            if i < rl {
                assert(self.spec_reservations()[i] == relst.spec_reservations()[i]);
                let ai: int = if i < ridx {
                    i
                } else {
                    i + 1
                };
                assert(relst.spec_reservations()[i] == iter0.spec_reservations()[ai]);
                assert(relst.spec_reservations()[i].job_id != job_id);
                if exists|d: int|
                    di <= d < dead.len() && dead[d] == iter0.spec_reservations()[ai].job_id {
                    let d = choose|d: int|
                        di <= d < dead.len() && dead[d] == iter0.spec_reservations()[ai].job_id;
                    assert(d != di);
                } else {
                    assert forall|k: int|
                        0 <= k < self.spec_reservations()[i].entries@.len()
                            implies self.spec_entry_active(
                        #[trigger] self.spec_reservations()[i].entries@[k]) by {
                        assert(iter0.spec_entry_active(
                            iter0.spec_reservations()[ai].entries@[k],
                        ));
                    }
                }
            } else {
                let nr = pushed->Some_0;
                assert(self.spec_reservations()[i] == nr);
                assert forall|k: int|
                    0 <= k < self.spec_reservations()[i].entries@.len()
                        implies self.spec_entry_active(
                    #[trigger] self.spec_reservations()[i].entries@[k]) by {
                    assert(iter0.spec_entry_active(nr.entries@[k]));
                }
            }
        }
        assert forall|d: int|
            di + 1 <= d < dead.len() implies self.spec_holds_reservation(
            #[trigger] dead[d]) by {
            let w = choose|w: int|
                0 <= w < iter0.spec_reservations().len() && (
                #[trigger] iter0.spec_reservations()[w]).job_id == dead[d];
            assert(dead[d] != dead[di]);
            assert(iter0.spec_reservations()[w].job_id != job_id);
            assert(w != ridx);
            let wn: int = if w < ridx {
                w
            } else {
                w - 1
            };
            assert(relst.spec_reservations()[wn] == iter0.spec_reservations()[w]);
            assert(self.spec_reservations()[wn] == relst.spec_reservations()[wn]);
        }
        assert forall|i: int|
            0 <= i < origin.spec_reservations().len() implies {
            let jid = (#[trigger] origin.spec_reservations()[i]).job_id;
            self.spec_holds_reservation(jid) || exists|k: int|
                0 <= k < self.spec_jobs().len() && (#[trigger] self.spec_jobs()[k]).id == jid
                    && self.spec_jobs()[k].state is Failed
        } by {
            let jid = origin.spec_reservations()[i].job_id;
            if jid != job_id {
                if iter0.spec_holds_reservation(jid) {
                    let w = choose|w: int|
                        0 <= w < iter0.spec_reservations().len() && (
                        #[trigger] iter0.spec_reservations()[w]).job_id == jid;
                    assert(iter0.spec_reservations()[w].job_id != job_id);
                    assert(w != ridx);
                    let wn: int = if w < ridx {
                        w
                    } else {
                        w - 1
                    };
                    assert(relst.spec_reservations()[wn] == iter0.spec_reservations()[w]);
                    assert(self.spec_reservations()[wn] == relst.spec_reservations()[wn]);
                    assert(self.spec_holds_reservation(jid));
                } else {
                    let k2 = choose|k2: int|
                        0 <= k2 < iter0.spec_jobs().len() && (
                        #[trigger] iter0.spec_jobs()[k2]).id == jid && iter0.spec_jobs()[k2].state
                            is Failed;
                    assert(self.spec_jobs()[k2] == iter0.spec_jobs()[k2]);
                }
            }
        }
    }

    /// The heartbeat sweep: nodes whose last heartbeat is older than the
    /// configured timeout become inactive, and every job holding a
    /// reservation touching a non-active node is re-queued and re-placed
    /// where possible, or fails.
    #[verifier::rlimit(100)]
    pub fn sweep(&mut self, now: u64)
        requires
            old(self).wf(),
        ensures
            final(self).wf(),
            spec_same_shape(old(self).spec_jobs(), final(self).spec_jobs()),
            final(self).spec_config() == old(self).spec_config(),
            final(self).spec_margin() == old(self).spec_margin(),
            final(self).spec_next_job_id() == old(self).spec_next_job_id(),
            final(self).spec_registry().nodes@.len() == old(self).spec_registry().nodes@.len(),
            forall|k: int|
                0 <= k < final(self).spec_registry().nodes@.len() ==> {
                    let b = old(self).spec_registry().nodes@[k];
                    let a = #[trigger] final(self).spec_registry().nodes@[k];
                    &&& a.id == b.id
                    &&& a.cpu_capacity == b.cpu_capacity
                    &&& a.memory_capacity == b.memory_capacity
                    &&& a.accelerators == b.accelerators
                    &&& a.state == (if b.state is Active && (b.last_heartbeat as int) + (
                        old(self).spec_config().heartbeat_timeout_seconds as int) < (now as int) {
                        NodeState::Inactive
                    } else {
                        b.state
                    })
                },
            final(self).spec_reservations_active(),
            forall|i: int|
                0 <= i < old(self).spec_reservations().len() ==> {
                    let jid = (#[trigger] old(self).spec_reservations()[i]).job_id;
                    final(self).spec_holds_reservation(jid) || exists|k: int|
                        0 <= k < final(self).spec_jobs().len() && (
                        #[trigger] final(self).spec_jobs()[k]).id == jid
                            && final(self).spec_jobs()[k].state is Failed
                },
    {
        let timeout = self.config.heartbeat_timeout_seconds;
        let nn = self.registry.nodes.len();
        let mut k: usize = 0;
        while k < nn
            invariant
                old(self).wf(),
                nn == self.registry.nodes@.len(),
                nn == old(self).spec_registry().nodes@.len(),
                k <= nn,
                timeout == old(self).spec_config().heartbeat_timeout_seconds,
                self.jobs@ == old(self).spec_jobs(),
                self.reservations@ == old(self).spec_reservations(),
                self.spec_config() == old(self).spec_config(),
                self.spec_margin() == old(self).spec_margin(),
                self.spec_next_job_id() == old(self).spec_next_job_id(),
                forall|t: int|
                    0 <= t < nn ==> {
                        let b = old(self).spec_registry().nodes@[t];
                        let a = #[trigger] self.registry.nodes@[t];
                        &&& a.id == b.id
                        &&& a.cpu_capacity == b.cpu_capacity
                        &&& a.memory_capacity == b.memory_capacity
                        &&& a.accelerators == b.accelerators
                        &&& a.last_heartbeat == b.last_heartbeat
                        &&& (t >= k ==> a == b)
                        &&& (t < k ==> a.state == (if b.state is Active && (b.last_heartbeat
                            as int) + (timeout as int) < (now as int) {
                            NodeState::Inactive
                        } else {
                            b.state
                        }))
                    },
            decreases nn - k,
        {
            let expired: bool = matches!(self.registry.nodes[k].state, NodeState::Active)
                && (self.registry.nodes[k].last_heartbeat as i128) + (timeout as i128) < (
            now as i128);
            if expired {
                let noderef = &mut self.registry.nodes[k];
                noderef.state = NodeState::Inactive;
            }
            k = k + 1;
        }
        proof {
            assert forall|a2: int, b2: int|
                0 <= a2 < b2 < self.registry.nodes@.len() implies self.registry.nodes@[a2].id
                != self.registry.nodes@[b2].id by {
                assert(old(self).registry.nodes@[a2].id != old(self).registry.nodes@[b2].id);
            }
            assert forall|t: int|
                0 <= t < self.registry.nodes@.len() implies (
            #[trigger] self.registry.nodes@[t]).wf() by {
                assert(old(self).registry.nodes@[t].wf());
                assert(self.registry.nodes@[t].accelerators == old(
                    self,
                ).registry.nodes@[t].accelerators);
            }
            self.lemma_registry_shape_preserved(old(self));
        }
        // collect the jobs whose reservations touch a non-active node
        let mut dead_jobs: Vec<u64> = Vec::new();
        let nr = self.reservations.len();
        let mut ri: usize = 0;
        while ri < nr
            invariant
                self.wf(),
                nr == self.reservations@.len(),
                ri <= nr,
                self.reservations@ == old(self).spec_reservations(),
                self.jobs@ == old(self).spec_jobs(),
                forall|d1: int, d2: int|
                    0 <= d1 < d2 < dead_jobs@.len() ==> dead_jobs@[d1] != dead_jobs@[d2],
                forall|d: int|
                    0 <= d < dead_jobs@.len() ==> spec_res_names(
                        self.reservations@,
                        #[trigger] dead_jobs@[d],
                    ),
                forall|d: int|
                    0 <= d < dead_jobs@.len() ==> exists|i: int|
                        0 <= i < ri && (#[trigger] dead_jobs@[d]) == self.reservations@[i].job_id,
                forall|i: int|
                    0 <= i < ri ==> ((exists|d: int|
                        0 <= d < dead_jobs@.len() && dead_jobs@[d] == (
                        #[trigger] self.reservations@[i]).job_id) || (forall|k: int|
                        0 <= k < self.reservations@[i].entries@.len() ==> self.spec_entry_active(
                            #[trigger] self.reservations@[i].entries@[k],
                        ))),
            decreases nr - ri,
        {
            let ghost prev_dead = dead_jobs@;
            let all_active = self.entries_all_active(ri);
            if !all_active {
                let jid = self.reservations[ri].job_id;
                proof {
                    assert forall|d: int|
                        0 <= d < dead_jobs@.len() implies (#[trigger] dead_jobs@[d]) != jid by {
                        let i0 = choose|i0: int|
                            0 <= i0 < ri && dead_jobs@[d] == self.reservations@[i0].job_id;
                        assert(self.reservations@[i0].job_id
                            != self.reservations@[ri as int].job_id);
                    }
                }
                dead_jobs.push(jid);
                proof {
                    assert(dead_jobs@.last() == self.reservations@[ri as int].job_id);
                    assert(spec_res_names(self.reservations@, jid));
                }
            }
            proof {
                assert forall|i: int|
                    0 <= i < ri + 1 implies ((exists|d: int|
                        0 <= d < dead_jobs@.len() && dead_jobs@[d] == (
                        #[trigger] self.reservations@[i]).job_id) || (forall|k: int|
                        0 <= k < self.reservations@[i].entries@.len() ==> self.spec_entry_active(
                            #[trigger] self.reservations@[i].entries@[k],
                        ))) by {
                    if i == ri {
                        if !all_active {
                            assert(dead_jobs@[dead_jobs@.len() - 1]
                                == self.reservations@[ri as int].job_id);
                        } else {
                            assert forall|k: int|
                                0 <= k < self.reservations@[i].entries@.len()
                                    implies self.spec_entry_active(
                                #[trigger] self.reservations@[i].entries@[k]) by {
                                assert(self.spec_entry_active(
                                    self.spec_reservations()[ri as int].entries@[k],
                                ));
                            }
                        }
                    } else {
                        if exists|d: int|
                            0 <= d < prev_dead.len() && prev_dead[d]
                                == self.reservations@[i].job_id {
                            let d = choose|d: int|
                                0 <= d < prev_dead.len() && prev_dead[d]
                                    == self.reservations@[i].job_id;
                            assert(dead_jobs@[d] == prev_dead[d]);
                        }
                    }
                }
            }
            ri = ri + 1;
        }
        // release each, re-queue, and try to re-place; failures fail
        let nd = dead_jobs.len();
        let mut di: usize = 0;
        let ghost after_mark = *self;
        proof {
            assert forall|d: int|
                0 <= d < nd implies self.spec_holds_reservation(#[trigger] dead_jobs@[d]) by {
                let i = choose|i: int|
                    0 <= i < ri && dead_jobs@[d] == self.reservations@[i].job_id;
                assert((self.spec_reservations()[i]).job_id == dead_jobs@[d]);
                assert(spec_res_names(self.spec_reservations(), dead_jobs@[d]));
            }
            assert forall|d: int|
                0 <= d < nd implies spec_res_names(
                old(self).spec_reservations(),
                #[trigger] dead_jobs@[d],
            ) by {
                let i = choose|i: int|
                    0 <= i < ri && dead_jobs@[d] == self.reservations@[i].job_id;
                assert((old(self).spec_reservations()[i]).job_id == dead_jobs@[d]);
            }
            assert forall|i: int|
                0 <= i < old(self).spec_reservations().len() implies {
                let jid = (#[trigger] old(self).spec_reservations()[i]).job_id;
                self.spec_holds_reservation(jid) || exists|k: int|
                    0 <= k < self.jobs@.len() && (#[trigger] self.jobs@[k]).id == jid
                        && self.jobs@[k].state is Failed
            } by {
                assert((self.spec_reservations()[i]).job_id == old(
                    self,
                ).spec_reservations()[i].job_id);
            }
        }
        while di < nd
            invariant
                self.wf(),
                old(self).wf(),
                nd == dead_jobs@.len(),
                di <= nd,
                spec_same_shape(after_mark.spec_jobs(), self.spec_jobs()),
                spec_same_shape(old(self).spec_jobs(), after_mark.spec_jobs()),
                after_mark.spec_reservations() == old(self).spec_reservations(),
                self.spec_registry() == after_mark.spec_registry(),
                after_mark.wf(),
                self.spec_config() == after_mark.spec_config(),
                self.spec_margin() == after_mark.spec_margin(),
                self.spec_next_job_id() == after_mark.spec_next_job_id(),
                forall|d1: int, d2: int|
                    0 <= d1 < d2 < nd ==> dead_jobs@[d1] != dead_jobs@[d2],
                forall|d: int|
                    0 <= d < nd ==> spec_res_names(
                        old(self).spec_reservations(),
                        #[trigger] dead_jobs@[d],
                    ),
                forall|i: int|
                    0 <= i < self.reservations@.len() ==> ((exists|d: int|
                        di <= d < nd && dead_jobs@[d] == (
                        #[trigger] self.reservations@[i]).job_id) || (forall|k: int|
                        0 <= k < self.reservations@[i].entries@.len() ==> self.spec_entry_active(
                            #[trigger] self.reservations@[i].entries@[k],
                        ))),
                forall|d: int|
                    di <= d < nd ==> self.spec_holds_reservation(#[trigger] dead_jobs@[d]),
                forall|i: int|
                    0 <= i < old(self).spec_reservations().len() ==> {
                        let jid = (#[trigger] old(self).spec_reservations()[i]).job_id;
                        self.spec_holds_reservation(jid) || exists|k: int|
                            0 <= k < self.jobs@.len() && (#[trigger] self.jobs@[k]).id == jid
                                && self.jobs@[k].state is Failed
                    },
            decreases nd - di,
        {
            let ghost iter0 = *self;
            let job_id = dead_jobs[di];
            let rhad = self.release_reservation(job_id);
            proof {
                assert(rhad);
            }
            let ghost relst = *self;
            let ghost ridx = choose|ridx: int|
                {
                    &&& 0 <= ridx < iter0.spec_reservations().len()
                    &&& iter0.spec_reservations()[ridx].job_id == job_id
                    &&& relst.spec_reservations() == iter0.spec_reservations().remove(ridx)
                };
            match self.find_job(job_id) {
                Some(jidx) => {
                    let jref = &mut self.jobs[jidx];
                    jref.state = JobState::Queued;
                    proof {
                        assert(self.jobs@ =~= relst.jobs@.update(
                            jidx as int,
                            Job { state: JobState::Queued, ..relst.jobs@[jidx as int] },
                        ));
                        self.lemma_state_change_unreferenced(&relst, jidx as int, JobState::Queued);
                        lemma_shape_update(relst.jobs@, jidx as int, JobState::Queued);
                        lemma_shape_trans(after_mark.jobs@, relst.jobs@, self.jobs@);
                    }
                    let job = Job {
                        id: self.jobs[jidx].id,
                        descriptor: self.jobs[jidx].descriptor,
                        submitted_at: self.jobs[jidx].submitted_at,
                        state: self.jobs[jidx].state,
                    };
                    let mut settled = false;
                    let plan = self.plan_placement(&job);
                    match plan {
                        Some(entries) => {
                            let ghost centry = entries;
                            let ghost pre_commit = *self;
                            match self.commit_reservation(job_id, entries) {
                                Ok(()) => {
                                    settled = true;
                                    proof {
                                        let ci = choose|ci: int|
                                            {
                                                &&& 0 <= ci < pre_commit.spec_jobs().len()
                                                &&& pre_commit.spec_jobs()[ci].id == job_id
                                                &&& self.spec_jobs()
                                                    == pre_commit.spec_jobs().update(
                                                    ci,
                                                    Job {
                                                        state: JobState::Running,
                                                        ..pre_commit.spec_jobs()[ci]
                                                    },
                                                )
                                            };
                                        lemma_shape_update(pre_commit.jobs@, ci, JobState::Running);
                                        lemma_shape_trans(
                                            after_mark.jobs@,
                                            pre_commit.jobs@,
                                            self.jobs@,
                                        );
                                        let nr = Reservation { job_id, entries: centry };
                                        assert(self.spec_reservations()
                                            == relst.spec_reservations().push(nr));
                                        let j = pre_commit.spec_job_of(job_id)->Some_0;
                                        assert(pre_commit.spec_admissible(j, centry@));
                                        assert forall|k: int|
                                            0 <= k < nr.entries@.len()
                                                implies iter0.spec_entry_active(
                                            #[trigger] nr.entries@[k]) by {
                                            assert(pre_commit.spec_entry_admissible(
                                                j,
                                                centry@[k],
                                            ));
                                            assert(pre_commit.spec_entry_active(centry@[k]));
                                            assert(iter0.spec_node_of(centry@[k].node_id)
                                                == pre_commit.spec_node_of(centry@[k].node_id));
                                        }
                                        assert forall|k: int|
                                            0 <= k < iter0.spec_jobs().len() && (
                                            #[trigger] iter0.spec_jobs()[k]).id != job_id
                                                implies self.spec_jobs()[k]
                                            == iter0.spec_jobs()[k] by {
                                            assert(iter0.spec_jobs()[jidx as int].id == job_id);
                                            assert(k != jidx);
                                            assert(pre_commit.spec_jobs()[k]
                                                == iter0.spec_jobs()[k]);
                                            assert(pre_commit.spec_jobs()[ci].id == job_id);
                                            assert(k != ci);
                                        }
                                        assert(self.spec_reservations().last().job_id == job_id);
                                        assert(self.spec_holds_reservation(job_id));
                                        self.lemma_sweep_advance(
                                            old(self),
                                            &iter0,
                                            &relst,
                                            dead_jobs@,
                                            di as int,
                                            ridx,
                                            job_id,
                                            Some(nr),
                                        );
                                    }
                                },
                                Err(_) => {},
                            }
                        },
                        None => {},
                    }
                    if !settled {
                        let ghost mid2 = *self;
                        match self.find_job(job_id) {
                            Some(fidx) => {
                                let fref = &mut self.jobs[fidx];
                                fref.state = JobState::Failed;
                                proof {
                                    assert(self.jobs@ =~= mid2.jobs@.update(
                                        fidx as int,
                                        Job { state: JobState::Failed, ..mid2.jobs@[fidx as int] },
                                    ));
                                    self.lemma_state_change_unreferenced(
                                        &mid2,
                                        fidx as int,
                                        JobState::Failed,
                                    );
                                    lemma_shape_update(mid2.jobs@, fidx as int, JobState::Failed);
                                    lemma_shape_trans(after_mark.jobs@, mid2.jobs@, self.jobs@);
                                    assert(self.spec_reservations()
                                        == relst.spec_reservations());
                                    assert forall|k: int|
                                        0 <= k < iter0.spec_jobs().len() && (
                                        #[trigger] iter0.spec_jobs()[k]).id != job_id
                                            implies self.spec_jobs()[k]
                                        == iter0.spec_jobs()[k] by {
                                        assert(iter0.spec_jobs()[jidx as int].id == job_id);
                                        assert(k != jidx);
                                        assert(mid2.spec_jobs()[k] == iter0.spec_jobs()[k]);
                                        assert(mid2.spec_jobs()[fidx as int].id == job_id);
                                        assert(k != fidx);
                                    }
                                    assert(self.spec_jobs()[fidx as int].id == job_id);
                                    assert(self.spec_jobs()[fidx as int].state is Failed);
                                    self.lemma_sweep_advance(
                                        old(self),
                                        &iter0,
                                        &relst,
                                        dead_jobs@,
                                        di as int,
                                        ridx,
                                        job_id,
                                        None,
                                    );
                                }
                            },
                            None => {
                                proof {
                                    assert(spec_res_names(
                                        old(self).spec_reservations(),
                                        dead_jobs@[di as int],
                                    ));
                                    let oi = choose|oi: int|
                                        0 <= oi < old(self).spec_reservations().len() && (
                                        #[trigger] old(self).spec_reservations()[oi]).job_id
                                            == dead_jobs@[di as int];
                                    assert(old(self).wf());
                                    let ok = choose|ok: int|
                                        0 <= ok < old(self).spec_jobs().len() && old(
                                            self,
                                        ).spec_jobs()[ok].id == (
                                        old(self).spec_reservations()[oi]).job_id && old(
                                            self,
                                        ).spec_jobs()[ok].state is Running;
                                    assert(self.spec_jobs()[ok].id == job_id);
                                    assert(false);
                                }
                            },
                        }
                    }
                },
                None => {
                    proof {
                        assert(spec_res_names(
                            old(self).spec_reservations(),
                            dead_jobs@[di as int],
                        ));
                        let oi = choose|oi: int|
                            0 <= oi < old(self).spec_reservations().len() && (
                            #[trigger] old(self).spec_reservations()[oi]).job_id
                                == dead_jobs@[di as int];
                        assert(old(self).wf());
                        let ok = choose|ok: int|
                            0 <= ok < old(self).spec_jobs().len() && old(self).spec_jobs()[ok].id
                                == (old(self).spec_reservations()[oi]).job_id && old(
                                self,
                            ).spec_jobs()[ok].state is Running;
                        assert(self.spec_jobs()[ok].id == job_id);
                        assert(false);
                    }
                },
            }
            di = di + 1;
        }
        proof {
            lemma_shape_trans(old(self).jobs@, after_mark.jobs@, self.jobs@);
            assert forall|i: int, k: int|
                0 <= i < self.spec_reservations().len() && 0 <= k
                    < self.spec_reservations()[i].entries@.len() implies self.spec_entry_active(
                #[trigger] self.spec_reservations()[i].entries@[k]) by {
                assert(0 <= i < self.reservations@.len());
                assert(!(exists|d: int|
                    di <= d < nd && dead_jobs@[d] == (self.reservations@[i]).job_id));
            }
        }
    }
}


impl Scheduler {
    /// Number of live reservations.
    pub fn reservation_count(&self) -> (r: usize)
        ensures
            r == self.spec_reservations().len(),
    {
        self.reservations.len()
    }

    /// Whether a job currently holds a reservation.
    pub fn has_reservation(&self, job_id: u64) -> (r: bool)
        ensures
            r == (exists|i: int|
                0 <= i < self.spec_reservations().len() && (
                #[trigger] self.spec_reservations()[i]).job_id == job_id),
    {
        let n = self.reservations.len();
        let mut i: usize = 0;
        while i < n
            invariant
                n == self.reservations@.len(),
                i <= n,
                forall|k: int| 0 <= k < i ==> self.reservations@[k].job_id != job_id,
            decreases n - i,
        {
            if self.reservations[i].job_id == job_id {
                proof {
                    assert((self.spec_reservations()[i as int]).job_id == job_id);
                }
                return true;
            }
            i = i + 1;
        }
        false
    }

    /// The CPU cores committed on a node, or None for an unknown node.
    pub fn node_committed_cpu(&self, node_id: u64) -> (r: Option<u64>)
        requires
            self.wf(),
        ensures
            r matches Some(v) ==> v == spec_res_cpu(self.spec_reservations(), node_id),
            r is Some <==> self.spec_registry().spec_has_node(node_id),
    {
        let nidx = match self.registry.find(node_id) {
            Some(i) => i,
            None => { return None },
        };
        proof {
            assert(self.spec_node_within_capacity(self.registry.nodes@[nidx as int]));
        }
        Some(self.committed_cpu(node_id, self.registry.nodes[nidx].cpu_capacity as u64))
    }
}

} // verus!
