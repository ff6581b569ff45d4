use zenith::scheduler::config::SchedulerConfig;
use zenith::scheduler::engine::Scheduler;
use zenith::scheduler::job::{
    Constraint, JobDescriptor, JobState, LinkKind, ResourceLimits, ResourceRequest,
};
use zenith::scheduler::node::{Accelerator, Node, NodeState};

fn node(id: u64, n_accels: u32) -> Node {
    let mut accelerators = Vec::new();
    let mut i: u32 = 0;
    while i < n_accels {
        accelerators.push(Accelerator {
            index: i,
            memory: 80 * 1024 * 1024 * 1024,
            capability: 80,
            link_group: 0,
            link_kind: LinkKind::NvLink,
            memory_domain: 0,
        });
        i += 1;
    }
    Node {
        id,
        address: String::from("10.0.0.1:7000"),
        cpu_capacity: 128,
        memory_capacity: 1 << 40,
        accelerators,
        state: NodeState::Active,
        last_heartbeat: 0,
    }
}

fn job(priority: u32, accels: u32, constraint: Constraint) -> JobDescriptor {
    JobDescriptor {
        priority,
        resources: ResourceRequest {
            accelerators: accels,
            accel_memory: 16 * 1024 * 1024 * 1024,
            accel_capability: 70,
            cpu_cores: 8,
            host_memory: 1 << 30,
        },
        constraint,
        principal: 1,
        project: 1,
    }
}

#[test]
fn s3_backfill() {
    let mut s = Scheduler::new(SchedulerConfig::default(), 2);
    assert!(s.register_node(node(1, 8)));
    assert!(s.register_node(node(2, 8)));

    let j_hi = s.submit(job(10, 16, Constraint::SameLink(LinkKind::NvLink)), 1);
    let j_lo1 = s.submit(job(1, 8, Constraint::SameHost), 2);
    let j_lo2 = s.submit(job(1, 8, Constraint::SameHost), 3);

    let report = s.schedule_cycle();

    assert_eq!(s.job_state(j_hi), Some(JobState::Queued));
    assert_eq!(s.job_state(j_lo1), Some(JobState::Running));
    assert_eq!(s.job_state(j_lo2), Some(JobState::Running));
    assert_eq!(report.placed, vec![j_lo1, j_lo2]);
}

#[test]
fn s4_gang_atomicity() {
    let mut s = Scheduler::new(SchedulerConfig::default(), 2);
    assert!(s.register_node(node(1, 4)));
    assert!(s.register_node(node(2, 4)));

    let j = s.submit(job(5, 8, Constraint::Any), 1);

    // feasibility enumeration against the current snapshot
    let jobs_snapshot = s.job_state(j);
    assert_eq!(jobs_snapshot, Some(JobState::Queued));
    let plan = s
        .plan_placement(&zenith::scheduler::job::Job {
            id: j,
            descriptor: job(5, 8, Constraint::Any),
            submitted_at: 1,
            state: JobState::Queued,
        })
        .unwrap();
    assert_eq!(plan.len(), 2);

    // n2's heartbeat lapses between feasibility and commit
    assert!(s.heartbeat(1, 90));
    s.sweep(100);

    // the commit aborts, nothing is debited, and the job stays queued
    let r = s.commit_reservation(j, plan);
    assert!(r.is_err());
    assert_eq!(s.job_state(j), Some(JobState::Queued));
    assert_eq!(s.reservation_count(), 0);
    assert_eq!(s.node_committed_cpu(1), Some(0));
    assert_eq!(s.node_committed_cpu(2), Some(0));
}

#[test]
fn s6_preemption_threshold() {
    let mut s = Scheduler::new(SchedulerConfig::default(), 2);
    assert!(s.register_node(node(1, 8)));

    let victim = s.submit(job(5, 8, Constraint::SameHost), 1);
    s.schedule_cycle();
    assert_eq!(s.job_state(victim), Some(JobState::Running));

    // incoming priority 6 with margin 2: no preemption
    let shy = s.submit(job(6, 8, Constraint::SameHost), 2);
    s.schedule_cycle();
    assert_eq!(s.job_state(victim), Some(JobState::Running));
    assert_eq!(s.job_state(shy), Some(JobState::Queued));

    // incoming priority 8 clears the margin: victim requeued, job placed
    let strong = s.submit(job(8, 8, Constraint::SameHost), 3);
    let report = s.schedule_cycle();
    assert_eq!(s.job_state(victim), Some(JobState::Queued));
    assert_eq!(s.job_state(strong), Some(JobState::Running));
    assert!(report.preempted.contains(&victim));
}

#[test]
fn gang_commit_debits_all_nodes() {
    let mut s = Scheduler::new(SchedulerConfig::default(), 0);
    assert!(s.register_node(node(1, 4)));
    assert!(s.register_node(node(2, 4)));

    let j = s.submit(job(5, 8, Constraint::Any), 1);
    let report = s.schedule_cycle();
    assert_eq!(report.placed, vec![j]);
    assert_eq!(s.job_state(j), Some(JobState::Running));
    assert!(s.has_reservation(j));
    assert_eq!(s.node_committed_cpu(1), Some(8));
    assert_eq!(s.node_committed_cpu(2), Some(8));

    assert!(s.complete_job(j));
    assert_eq!(s.job_state(j), Some(JobState::Completed));
    assert!(!s.has_reservation(j));
    assert_eq!(s.node_committed_cpu(1), Some(0));
    assert_eq!(s.node_committed_cpu(2), Some(0));
}

#[test]
fn quota_blocks_second_job() {
    let mut s = Scheduler::new(SchedulerConfig::default(), 0);
    assert!(s.register_node(node(1, 8)));
    assert!(s.register_node(node(2, 8)));
    s.set_principal_quota(1, ResourceLimits {
        max_accelerators: 8,
        max_cpu_cores: 1000,
        max_host_memory: 1 << 40,
    });

    let first = s.submit(job(9, 8, Constraint::SameHost), 1);
    let second = s.submit(job(8, 8, Constraint::SameHost), 2);
    let mut other = job(7, 8, Constraint::SameHost);
    other.principal = 2;
    let third = s.submit(other, 3);

    s.schedule_cycle();

    assert_eq!(s.job_state(first), Some(JobState::Running));
    assert_eq!(s.job_state(second), Some(JobState::Queued));
    assert_eq!(s.job_state(third), Some(JobState::Running));
}

#[test]
fn preemption_step_respects_margin() {
    let mut s = Scheduler::new(SchedulerConfig::default(), 2);
    assert!(s.register_node(node(1, 8)));

    let victim = s.submit(job(5, 8, Constraint::SameHost), 1);
    s.schedule_cycle();
    assert_eq!(s.job_state(victim), Some(JobState::Running));

    // within the margin: nothing is demoted
    let shy = s.submit(job(6, 8, Constraint::SameHost), 2);
    let (won, victims) = s.try_preempt(shy);
    assert!(!won);
    assert!(victims.is_empty());
    assert_eq!(s.job_state(victim), Some(JobState::Running));
    assert_eq!(s.job_state(shy), Some(JobState::Queued));

    // strictly beyond the margin: the victim is demoted and the job placed
    let strong = s.submit(job(8, 8, Constraint::SameHost), 3);
    let (won2, victims2) = s.try_preempt(strong);
    assert!(won2);
    assert_eq!(victims2, vec![victim]);
    assert_eq!(s.job_state(victim), Some(JobState::Queued));
    assert_eq!(s.job_state(strong), Some(JobState::Running));
}

#[test]
fn quota_checks_cpu_and_memory_dimensions() {
    let mut s = Scheduler::new(SchedulerConfig::default(), 0);
    assert!(s.register_node(node(1, 8)));
    assert!(s.register_node(node(2, 8)));
    s.set_principal_quota(1, ResourceLimits {
        max_accelerators: 1000,
        max_cpu_cores: 8,
        max_host_memory: 1 << 40,
    });

    let first = s.submit(job(9, 8, Constraint::SameHost), 1);
    let second = s.submit(job(8, 8, Constraint::SameHost), 2);
    s.schedule_cycle();

    // the second job fits the accelerator quota but not the CPU quota
    assert_eq!(s.job_state(first), Some(JobState::Running));
    assert_eq!(s.job_state(second), Some(JobState::Queued));
}

#[test]
fn cancel_only_queued_jobs() {
    let mut s = Scheduler::new(SchedulerConfig::default(), 0);
    assert!(s.register_node(node(1, 8)));

    let a = s.submit(job(5, 8, Constraint::SameHost), 1);
    assert!(s.cancel(a));
    assert_eq!(s.job_state(a), Some(JobState::Cancelled));
    assert!(!s.cancel(a));

    let b = s.submit(job(5, 8, Constraint::SameHost), 2);
    s.schedule_cycle();
    assert_eq!(s.job_state(b), Some(JobState::Running));
    assert!(!s.cancel(b));
}

#[test]
fn sweep_fails_or_replaces_jobs() {
    let mut s = Scheduler::new(SchedulerConfig::default(), 0);
    assert!(s.register_node(node(1, 8)));
    assert!(s.register_node(node(2, 8)));

    let j = s.submit(job(5, 8, Constraint::SameHost), 1);
    s.schedule_cycle();
    assert_eq!(s.job_state(j), Some(JobState::Running));
    assert_eq!(s.node_committed_cpu(1), Some(8));

    // node 1 lapses; node 2 stays fresh, so the job is re-placed there
    assert!(s.heartbeat(2, 90));
    s.sweep(100);
    assert_eq!(s.job_state(j), Some(JobState::Running));
    assert_eq!(s.node_committed_cpu(1), Some(0));
    assert_eq!(s.node_committed_cpu(2), Some(8));

    // node 2 lapses too, with nowhere left to go
    s.sweep(200);
    assert_eq!(s.job_state(j), Some(JobState::Failed));
    assert_eq!(s.reservation_count(), 0);
}

#[test]
fn same_link_needs_one_group() {
    let mut s = Scheduler::new(SchedulerConfig::default(), 0);
    let mut split = node(1, 8);
    let mut i = 0;
    while i < 8 {
        split.accelerators[i].link_group = (i as u32) / 4;
        i += 1;
    }
    assert!(s.register_node(split));

    let wide = s.submit(job(5, 8, Constraint::SameLink(LinkKind::NvLink)), 1);
    let narrow = s.submit(job(4, 4, Constraint::SameLink(LinkKind::NvLink)), 2);
    s.schedule_cycle();

    assert_eq!(s.job_state(wide), Some(JobState::Queued));
    assert_eq!(s.job_state(narrow), Some(JobState::Running));
}
