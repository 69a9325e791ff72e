//! Configuration of the agent and of logging. Files are parsed by the
//! binaries; what is here is the configuration's shape and its defaults.
use std::collections::BTreeMap;
use std::time::Duration;

use vstd::prelude::*;

use crate::error::HpcError;
use crate::text::push_str;
use crate::types::NodeRole;

verus! {

/// Shared logging configuration embedded in each binary's configuration.
#[derive(Debug, Clone, PartialEq, Eq)]
pub struct LogConfig {
    /// Log filter directive, e.g. `"info,hpc_daemon=debug"`.
    pub filter: String,
    /// Emit machine-readable JSON logs instead of the human format.
    pub json: bool,
    /// Include source file and line in log records.
    pub with_location: bool,
}

impl Default for LogConfig {
    fn default() -> (c: LogConfig)
        ensures
            c.filter@ == "info"@,
            !c.json,
            !c.with_location,
    {
        LogConfig { filter: "info".to_owned(), json: false, with_location: false }
    }
}

/// `std::time::Duration::from_secs`. `Duration` is opaque here, so nothing is
/// stated of the result; the defaults below pass it whole seconds only.
#[verifier::external_body]
fn seconds(secs: u64) -> Duration {
    Duration::from_secs(secs)
}

/// Configuration of the agent.
#[derive(Debug)]
pub struct AgentConfig {
    /// `http://host:port` URL of the daemon's RPC endpoint.
    pub daemon_endpoint: String,
    /// Stable node id; the machine's host name when blank.
    pub node_id: String,
    /// Advertised role of this node.
    pub role: NodeRole,
    /// Free-form scheduling labels advertised at registration.
    pub labels: BTreeMap<String, String>,
    /// How often to sample and report metrics (the daemon may override it).
    pub metrics_interval: Duration,
    /// Heartbeat cadence.
    pub heartbeat_interval: Duration,
    /// Base backoff for reconnecting to the daemon after a failure.
    pub reconnect_backoff: Duration,
    /// Whether the agent may actually run mount and deploy commands; when
    /// false they are validated and logged but not executed.
    pub allow_exec: bool,
    pub log: LogConfig,
}

impl Default for AgentConfig {
    /// Defaults: the daemon on `http://127.0.0.1:7443`, no configured node
    /// id, role storage, no labels, metrics every 10 s, heartbeats every
    /// 5 s, a 2 s reconnect backoff, execution off, default logging.
    fn default() -> (c: AgentConfig)
        ensures
            c.daemon_endpoint@ == "http://127.0.0.1:7443"@,
            c.node_id@ == Seq::<char>::empty(),
            c.role == NodeRole::Storage,
            c.labels@ == Map::<String, String>::empty(),
            !c.allow_exec,
            c.log.filter@ == "info"@,
            !c.log.json,
            !c.log.with_location,
    {
        AgentConfig {
            daemon_endpoint: "http://127.0.0.1:7443".to_owned(),
            node_id: String::new(),
            role: NodeRole::Storage,
            labels: BTreeMap::new(),
            metrics_interval: seconds(10),
            heartbeat_interval: seconds(5),
            reconnect_backoff: seconds(2),
            allow_exec: false,
            log: LogConfig::default(),
        }
    }
}

/// The daemon's interval rule: a node must be allowed at least one metrics
/// interval before it counts as silent. The intervals are given in
/// nanoseconds and, for the message, as the daemon prints them.
pub fn check_intervals(
    node_timeout_nanos: u128,
    metrics_interval_nanos: u128,
    node_timeout_text: &str,
    metrics_interval_text: &str,
) -> (r: Result<(), HpcError>)
    ensures
        r is Ok <==> node_timeout_nanos >= metrics_interval_nanos,
        r matches Err(e) ==> e matches HpcError::ConfigInvalid(m) && m@ == "node_timeout ("@
            + node_timeout_text@ + ") must be >= metrics_interval ("@ + metrics_interval_text@ + ")"@,
{
    if node_timeout_nanos < metrics_interval_nanos {
        let mut m = String::new();
        push_str(&mut m, "node_timeout (");
        push_str(&mut m, node_timeout_text);
        push_str(&mut m, ") must be >= metrics_interval (");
        push_str(&mut m, metrics_interval_text);
        push_str(&mut m, ")");
        return Err(HpcError::ConfigInvalid(m));
    }
    Ok(())
}

} // verus!
