//! Domain types shared across the framework, and the wall clock.
use std::collections::BTreeMap;

use vstd::prelude::*;

verus! {

/// Whole seconds since the Unix epoch on the system clock
/// (`std::time::SystemTime::now().duration_since(UNIX_EPOCH)`, as seconds),
/// or `None` when the clock reads before the epoch. The reading depends on
/// the machine's clock, so nothing is promised of it.
#[verifier::external_body]
fn clock_seconds() -> Option<u64> {
    std::time::SystemTime::now().duration_since(std::time::UNIX_EPOCH).ok().map(|d| d.as_secs())
}

/// Current epoch seconds, or zero if the clock reads before the epoch.
pub fn now_unix() -> u64 {
    match clock_seconds() {
        Some(secs) => secs,
        None => 0,
    }
}

/// Stable, human-meaningful identifier for a node (usually its hostname).
pub type NodeId = String;

/// The logical function a node performs in the cluster.
#[derive(Debug, Clone, Copy, PartialEq, Eq, Structural)]
pub enum NodeRole {
    Unspecified,
    Storage,
    Compute,
    Metadata,
    Gateway,
}

impl Default for NodeRole {
    fn default() -> (r: NodeRole)
        ensures
            r == NodeRole::Unspecified,
    {
        NodeRole::Unspecified
    }
}

/// Coarse lifecycle/health state the daemon tracks for each node.
#[derive(Debug, Clone, Copy, PartialEq, Eq, Structural)]
pub enum NodeStatus {
    /// Registered but no metrics/heartbeat observed yet.
    Registered,
    /// Reporting normally within the liveness window.
    Healthy,
    /// Reachable but breaching one or more degradation thresholds.
    Degraded,
    /// No heartbeat within the liveness window.
    Unreachable,
    /// Administratively drained.
    Draining,
}

impl Default for NodeStatus {
    fn default() -> (s: NodeStatus)
        ensures
            s == NodeStatus::Registered,
    {
        NodeStatus::Registered
    }
}

/// Static description of a node, captured at registration time.
#[derive(Debug, Clone, PartialEq, Eq)]
pub struct NodeInfo {
    pub node_id: NodeId,
    pub hostname: String,
    pub ip_address: String,
    pub role: NodeRole,
    pub cpu_cores: u32,
    pub total_memory_bytes: u64,
    pub total_disk_bytes: u64,
    pub agent_version: String,
    pub kernel_version: String,
    pub os: String,
    pub started_at_unix: u64,
    pub labels: BTreeMap<String, String>,
}

/// Physical + swap memory usage in bytes.
#[derive(Debug, Clone, Copy, PartialEq, Eq, Default)]
pub struct MemoryMetrics {
    pub total_bytes: u64,
    pub used_bytes: u64,
    pub available_bytes: u64,
    pub swap_total_bytes: u64,
    pub swap_used_bytes: u64,
}

/// Aggregate network throughput/error counters.
#[derive(Debug, Clone, Copy, PartialEq, Eq, Default)]
pub struct NetworkMetrics {
    pub rx_bytes_per_sec: u64,
    pub tx_bytes_per_sec: u64,
    pub rx_errors: u64,
    pub tx_errors: u64,
}

/// Health of a single managed filesystem as seen from a node.
#[derive(Debug, Clone, PartialEq, Eq, Default)]
pub struct FilesystemMetrics {
    pub name: String,
    pub mount_point: String,
    pub mounted: bool,
    pub total_bytes: u64,
    pub used_bytes: u64,
    pub inodes_total: u64,
    pub inodes_used: u64,
}

/// Action requested by a deploy command.
#[derive(Debug, Clone, Copy, PartialEq, Eq, Structural)]
pub enum DeployAction {
    Install,
    Upgrade,
    Rollback,
    Remove,
}

impl Default for DeployAction {
    fn default() -> (a: DeployAction)
        ensures
            a == DeployAction::Install,
    {
        DeployAction::Install
    }
}

/// A request to install/upgrade a filesystem software component on a node.
#[derive(Debug, Clone, PartialEq, Eq)]
pub struct DeploySpec {
    pub deployment_id: String,
    pub action: DeployAction,
    pub component: String,
    pub version: String,
    pub target_path: String,
    pub options: BTreeMap<String, String>,
}

/// Action requested by a filesystem command.
#[derive(Debug, Clone, Copy, PartialEq, Eq, Structural)]
pub enum FsAction {
    Mount,
    Unmount,
    Remount,
    Check,
    Format,
}

impl Default for FsAction {
    fn default() -> (a: FsAction)
        ensures
            a == FsAction::Mount,
    {
        FsAction::Mount
    }
}

/// A request to perform a mount/unmount/check operation on a node.
#[derive(Debug, Clone, PartialEq, Eq)]
pub struct FsSpec {
    pub command_id: String,
    pub action: FsAction,
    pub device: String,
    pub mount_point: String,
    pub fs_type: String,
    pub mount_options: Vec<String>,
    pub force: bool,
}

/// Terminal outcome of a command executed by an agent.
#[derive(Debug, Clone, PartialEq, Eq)]
pub struct CommandOutcome {
    pub command_id: String,
    pub node_id: NodeId,
    pub success: bool,
    pub exit_code: i32,
    pub message: String,
    pub stdout: String,
    pub stderr: String,
    pub completed_at_unix: u64,
}

/// The category of I/O being benchmarked.
#[derive(Debug, Clone, Copy, PartialEq, Eq, Structural)]
pub enum IoPattern {
    SequentialRead,
    SequentialWrite,
    RandomRead,
    RandomWrite,
}

/// Latency distribution (microseconds) captured during a benchmark run.
#[derive(Debug, Clone, Copy, PartialEq, Eq, Default)]
pub struct LatencyStats {
    pub min_us: u64,
    pub p50_us: u64,
    pub p90_us: u64,
    pub p99_us: u64,
    pub p999_us: u64,
    pub max_us: u64,
    pub mean_us: u64,
    pub samples: u64,
}

} // verus!
