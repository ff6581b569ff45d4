//! Scheduler configuration.

use vstd::prelude::*;

verus! {

/// Scheduler configuration.
#[derive(Debug, Clone, PartialEq, Eq)]
pub struct SchedulerConfig {
    /// Listen address for the streaming control surface.
    pub grpc_address: String,
    /// Listen address for the request/response surface.
    pub http_address: String,
    /// Heartbeat timeout in seconds.
    pub heartbeat_timeout_seconds: i64,
    /// Scheduling interval in milliseconds.
    pub schedule_interval_ms: u64,
    /// Most placement attempts per scheduling cycle.
    pub max_schedule_batch: usize,
    /// Enable backfill scheduling.
    pub backfill_enabled: bool,
    /// Enable topology-aware placement.
    pub topology_aware: bool,
}

impl Default for SchedulerConfig {
    /// The documented defaults: standard ports, a minute of heartbeat
    /// grace, one cycle per second of up to a hundred placements, with
    /// backfill and topology awareness on.
    fn default() -> (r: SchedulerConfig)
        ensures
            r.grpc_address@ == "[::]:50051"@,
            r.http_address@ == "0.0.0.0:8080"@,
            r.heartbeat_timeout_seconds == 60,
            r.schedule_interval_ms == 1000,
            r.max_schedule_batch == 100,
            r.backfill_enabled,
            r.topology_aware,
    {
        SchedulerConfig {
            grpc_address: String::from_str("[::]:50051"),
            http_address: String::from_str("0.0.0.0:8080"),
            heartbeat_timeout_seconds: 60,
            schedule_interval_ms: 1000,
            max_schedule_batch: 100,
            backfill_enabled: true,
            topology_aware: true,
        }
    }
}

} // verus!
