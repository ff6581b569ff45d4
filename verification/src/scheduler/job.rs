//! Jobs, their resource requests, and reservations.

use vstd::prelude::*;

verus! {

/// The kind of inter-device link a placement may require.
#[derive(Debug, Clone, Copy, PartialEq, Eq, Structural)]
pub enum LinkKind {
    /// Direct point-to-point device links.
    NvLink,
    /// A switched all-to-all device fabric.
    NvSwitch,
    /// The host's peripheral bus.
    Pcie,
}

/// Lifecycle state of a job.
#[derive(Debug, Clone, Copy, PartialEq, Eq, Structural)]
pub enum JobState {
    /// Waiting in the queue.
    Queued,
    /// Being placed this cycle.
    Placing,
    /// Holding a reservation and running.
    Running,
    /// Finished successfully.
    Completed,
    /// Failed, including placement lost to a node timeout.
    Failed,
    /// Cancelled while queued.
    Cancelled,
}

/// A placement constraint over the accelerators of a job.
#[derive(Debug, Clone, Copy, PartialEq, Eq, Structural)]
pub enum Constraint {
    /// Devices may be spread over any nodes.
    Any,
    /// All devices on one host.
    SameHost,
    /// All devices on one host, pairwise connected by the given link
    /// kind.
    SameLink(LinkKind),
    /// All devices on one host, sharing one memory domain.
    SameMemoryDomain,
}

/// The resources a job asks for.
#[derive(Debug, Clone, Copy, PartialEq, Eq, Structural)]
pub struct ResourceRequest {
    /// Number of accelerators, over all chosen nodes.
    pub accelerators: u32,
    /// Minimum memory per accelerator, in bytes.
    pub accel_memory: u64,
    /// Minimum compute capability per accelerator.
    pub accel_capability: u32,
    /// CPU cores debited on each contributing node.
    pub cpu_cores: u32,
    /// Host memory debited on each contributing node, in bytes.
    pub host_memory: u64,
}

/// What a submitter hands in: everything about a job except its identity
/// and history.
#[derive(Debug, Clone, Copy, PartialEq, Eq, Structural)]
pub struct JobDescriptor {
    /// Priority; higher is served earlier.
    pub priority: u32,
    /// The resources requested.
    pub resources: ResourceRequest,
    /// The placement constraint.
    pub constraint: Constraint,
    /// The owning principal, for quotas.
    pub principal: u32,
    /// The owning project, for quotas.
    pub project: u32,
}

/// A scheduling request with its identity and state.
#[derive(Debug, Clone, Copy, PartialEq, Eq, Structural)]
pub struct Job {
    /// Unique job identifier.
    pub id: u64,
    /// What was submitted.
    pub descriptor: JobDescriptor,
    /// Submission timestamp.
    pub submitted_at: u64,
    /// Lifecycle state.
    pub state: JobState,
}

impl Job {
    /// The strict scheduling order: higher priority first, ties broken by
    /// earlier submission, then by smaller identifier. For jobs with
    /// distinct identifiers exactly one direction holds.
    pub open spec fn spec_ranks_before(a: Job, b: Job) -> bool {
        ||| a.descriptor.priority > b.descriptor.priority
        ||| (a.descriptor.priority == b.descriptor.priority && a.submitted_at < b.submitted_at)
        ||| (a.descriptor.priority == b.descriptor.priority && a.submitted_at == b.submitted_at
            && a.id < b.id)
    }

    /// Whether this job is served before the other.
    pub fn ranks_before(&self, other: &Job) -> (r: bool)
        ensures
            r == Job::spec_ranks_before(*self, *other),
    {
        if self.descriptor.priority != other.descriptor.priority {
            self.descriptor.priority > other.descriptor.priority
        } else if self.submitted_at != other.submitted_at {
            self.submitted_at < other.submitted_at
        } else {
            self.id < other.id
        }
    }
}

/// The share of one node in a reservation.
#[derive(Debug, Clone, PartialEq, Eq)]
pub struct ReservationEntry {
    /// The node debited.
    pub node_id: u64,
    /// The device indices taken on that node.
    pub device_indices: Vec<u32>,
    /// The CPU cores debited on that node.
    pub cpu_cores: u32,
    /// The host memory debited on that node, in bytes.
    pub memory_bytes: u64,
}

/// An atomic gang reservation: all entries commit together or not at all.
#[derive(Debug, Clone, PartialEq, Eq)]
pub struct Reservation {
    /// The job holding the reservation.
    pub job_id: u64,
    /// One entry per contributing node.
    pub entries: Vec<ReservationEntry>,
}

/// Resource ceilings for a principal or a project.
#[derive(Debug, Clone, Copy, PartialEq, Eq, Structural)]
pub struct ResourceLimits {
    /// Most accelerators held at once.
    pub max_accelerators: u64,
    /// Most CPU cores held at once.
    pub max_cpu_cores: u64,
    /// Most host memory held at once, in bytes.
    pub max_host_memory: u64,
}

} // verus!
