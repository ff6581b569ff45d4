//! Data model of the administrative control plane.
//!
//! Plain records exchanged over the administrative surface; the wire
//! encoding lives with the surrounding runtime.

use vstd::prelude::*;
use crate::proto::Timestamp;

verus! {

/// Health summary of the control plane.
#[derive(Debug, Clone, PartialEq, Eq)]
pub struct HealthResponse {
    /// Service status word.
    pub status: String,
    /// Service version.
    pub version: String,
}

/// Aggregate system counts.
#[derive(Debug, Clone, Copy, PartialEq, Eq, Structural)]
pub struct SystemInfo {
    /// Number of registered nodes.
    pub node_count: usize,
    /// Number of registered plugins.
    pub plugin_count: usize,
    /// Number of deployments.
    pub deployment_count: usize,
    /// Uptime in seconds.
    pub uptime_seconds: u64,
}

/// Liveness state of a data node.
#[derive(Debug, Clone, Copy, PartialEq, Eq, Structural)]
pub enum NodeStatus {
    /// The node heartbeats and accepts work.
    Active,
    /// The node's heartbeat lapsed.
    Inactive,
    /// The node was withdrawn for maintenance.
    Maintenance,
}

/// A registered data node.
#[derive(Debug, Clone, PartialEq, Eq)]
pub struct DataNode {
    /// Node identifier.
    pub id: String,
    /// Network address.
    pub address: String,
    /// Capacity in bytes.
    pub capacity: u64,
    /// Liveness state.
    pub status: NodeStatus,
    /// When the node registered.
    pub registered_at: Timestamp,
}

/// Request to register a data node.
#[derive(Debug, Clone, PartialEq, Eq)]
pub struct RegisterNodeRequest {
    /// Network address of the node.
    pub address: String,
    /// Capacity in bytes.
    pub capacity: u64,
}

/// A registered plugin.
#[derive(Debug, Clone, PartialEq, Eq)]
pub struct Plugin {
    /// Plugin identifier.
    pub id: String,
    /// Plugin name.
    pub name: String,
    /// Plugin version.
    pub version: String,
    /// Where the bytecode is fetched from.
    pub wasm_url: String,
    /// When the plugin was registered.
    pub created_at: Timestamp,
}

/// Request to register a plugin.
#[derive(Debug, Clone, PartialEq, Eq)]
pub struct RegisterPluginRequest {
    /// Plugin name.
    pub name: String,
    /// Plugin version.
    pub version: String,
    /// Where the bytecode is fetched from.
    pub wasm_url: String,
}

/// Progress state of a deployment.
#[derive(Debug, Clone, Copy, PartialEq, Eq, Structural)]
pub enum DeploymentStatus {
    /// Accepted, not yet rolling out.
    Pending,
    /// Rolling out to the nodes.
    Deploying,
    /// Running on every target node.
    Active,
    /// Rollout failed.
    Failed,
}

/// A plugin deployment onto a set of nodes.
#[derive(Debug, Clone, PartialEq, Eq)]
pub struct Deployment {
    /// Deployment identifier.
    pub id: String,
    /// The plugin being deployed.
    pub plugin_id: String,
    /// The target nodes.
    pub node_ids: Vec<String>,
    /// Progress state.
    pub status: DeploymentStatus,
    /// When the deployment was created.
    pub created_at: Timestamp,
}

/// Request to create a deployment.
#[derive(Debug, Clone, PartialEq, Eq)]
pub struct CreateDeploymentRequest {
    /// The plugin to deploy.
    pub plugin_id: String,
    /// The target nodes.
    pub node_ids: Vec<String>,
}

} // verus!
