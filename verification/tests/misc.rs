use hpc::cli::parse_kv;
use hpc::config::{AgentConfig, LogConfig};
use hpc::daemon::NodeCommand;
use hpc::error::HpcError;
use hpc::outcomes::recent_first_log;
use hpc::output::{human_bytes, human_rate};
use hpc::proto::{
    deploy_action_from_pb, deploy_action_to_pb, fs_action_from_pb, fs_action_to_pb, role_from_pb,
    role_to_pb,
};
use hpc::session::{
    directed_interval_secs, has_reregister, next_backoff_ms, session_step, SessionAction, SessionEvent,
    MAX_BACKOFF_MS,
};
use hpc::config::check_intervals;
use hpc::monitor::{health_transitions, tally};
use hpc::types::{CommandOutcome, DeployAction, FsAction, FsSpec, NodeRole, NodeStatus};

fn float_human_bytes(bytes: u64) -> String {
    let units = ["B", "KiB", "MiB", "GiB", "TiB", "PiB"];
    let mut value = bytes as f64;
    let mut unit = 0;
    while value >= 1024.0 && unit < units.len() - 1 {
        value /= 1024.0;
        unit += 1;
    }
    if unit == 0 {
        format!("{bytes} B")
    } else {
        format!("{value:.2} {}", units[unit])
    }
}

#[test]
fn human_bytes_examples() {
    assert_eq!(human_bytes(0), "0 B");
    assert_eq!(human_bytes(1023), "1023 B");
    assert_eq!(human_bytes(1024), "1.00 KiB");
    assert_eq!(human_bytes(1536), "1.50 KiB");
    assert_eq!(human_bytes(1152), "1.12 KiB");
    assert_eq!(human_bytes(1 << 30), "1.00 GiB");
    assert_eq!(human_bytes(1 << 50), "1.00 PiB");
    assert_eq!(human_bytes(1 << 60), "1024.00 PiB");
    assert_eq!(human_rate(2048), "2.00 KiB/s");
}

#[test]
fn human_bytes_agrees_with_float_formatting() {
    let mut samples: Vec<u64> = vec![1025, 1034, 1035, 1040, 10_239, 10_240, 123_456_789, 999_999_999_999];
    let mut x: u64 = 0x9E37_79B9_7F4A_7C15;
    for _ in 0..2000 {
        x ^= x << 13;
        x ^= x >> 7;
        x ^= x << 17;
        samples.push(x >> (x % 40 + 11));
    }
    for b in samples {
        assert_eq!(human_bytes(b), float_human_bytes(b), "bytes = {b}");
    }
}

#[test]
fn parse_kv_cases() {
    assert_eq!(parse_kv("a=b"), Ok(("a".to_string(), "b".to_string())));
    assert_eq!(parse_kv("k=v=w"), Ok(("k".to_string(), "v=w".to_string())));
    assert_eq!(parse_kv("k="), Ok(("k".to_string(), String::new())));
    assert_eq!(parse_kv("=v"), Err("expected key=value, got `=v`".to_string()));
    assert_eq!(parse_kv("novalue"), Err("expected key=value, got `novalue`".to_string()));
}

#[test]
fn error_rendering_and_retryability() {
    assert_eq!(HpcError::io("boom").describe(), "i/o error: boom");
    assert_eq!(HpcError::io_at("/etc/x", "denied").describe(), "i/o error at /etc/x: denied");
    assert_eq!(HpcError::store("full").describe(), "state store error: full");
    assert_eq!(HpcError::invalid_state("busy").describe(), "invalid state: busy");
    assert_eq!(HpcError::conversion("bad").describe(), "protocol conversion error: bad");
    assert_eq!(HpcError::ConfigParse("x".into()).describe(), "failed to parse configuration: x");
    assert_eq!(HpcError::ConfigSerialize("x".into()).describe(), "failed to serialize configuration: x");
    assert_eq!(HpcError::Serde("x".into()).describe(), "serialization error: x");
    assert_eq!(HpcError::Metrics("x".into()).describe(), "metrics collection error: x");
    assert_eq!(HpcError::Bench("x".into()).describe(), "benchmark error: x");
    assert_eq!(HpcError::Command("x".into()).describe(), "command execution failed: x");
    assert!(HpcError::Rpc("x".into()).is_retryable());
    assert!(HpcError::io("x").is_retryable());
    assert!(!HpcError::NotFound("x".into()).is_retryable());
}

#[test]
fn protocol_numbers_round_trip() {
    for r in [NodeRole::Unspecified, NodeRole::Storage, NodeRole::Compute, NodeRole::Metadata, NodeRole::Gateway] {
        assert_eq!(role_from_pb(role_to_pb(r)), r);
    }
    assert_eq!(role_to_pb(NodeRole::Storage), 1);
    assert_eq!(role_to_pb(NodeRole::Gateway), 4);
    assert_eq!(role_from_pb(99), NodeRole::Unspecified);
    for a in [DeployAction::Install, DeployAction::Upgrade, DeployAction::Rollback, DeployAction::Remove] {
        assert_eq!(deploy_action_from_pb(deploy_action_to_pb(a)), a);
    }
    assert_eq!(deploy_action_to_pb(DeployAction::Install), 1);
    assert_eq!(deploy_action_from_pb(0), DeployAction::Install);
    for a in [FsAction::Mount, FsAction::Unmount, FsAction::Remount, FsAction::Check, FsAction::Format] {
        assert_eq!(fs_action_from_pb(fs_action_to_pb(a)), a);
    }
    assert_eq!(fs_action_to_pb(FsAction::Format), 5);
    assert_eq!(fs_action_from_pb(-3), FsAction::Mount);
}

fn outcome(id: &str, at: u64) -> CommandOutcome {
    CommandOutcome {
        command_id: id.to_string(),
        node_id: "n".to_string(),
        success: true,
        exit_code: 0,
        message: String::new(),
        stdout: String::new(),
        stderr: String::new(),
        completed_at_unix: at,
    }
}

#[test]
fn outcomes_most_recent_first_with_stable_ties() {
    let log = vec![outcome("a", 5), outcome("b", 9), outcome("c", 5), outcome("d", 7), outcome("e", 9)];
    let ids: Vec<String> = recent_first_log(log).into_iter().map(|o| o.command_id).collect();
    assert_eq!(ids, vec!["b", "e", "d", "a", "c"]);
    assert!(recent_first_log(vec![]).is_empty());
}

#[test]
fn backoff_doubles_up_to_the_cap() {
    assert_eq!(next_backoff_ms(2000), 4000);
    assert_eq!(next_backoff_ms(14_999), 29_998);
    assert_eq!(next_backoff_ms(15_000), MAX_BACKOFF_MS);
    assert_eq!(next_backoff_ms(u64::MAX), MAX_BACKOFF_MS);
    assert_eq!(next_backoff_ms(0), 0);
    assert_eq!(directed_interval_secs(0), None);
    assert_eq!(directed_interval_secs(15), Some(15));
}

#[test]
fn session_steps() {
    assert!(matches!(session_step(SessionEvent::MetricsDue), SessionAction::SendMetrics));
    assert!(matches!(
        session_step(SessionEvent::HeartbeatAcked(vec!["noop".into(), "reregister".into()])),
        SessionAction::EndSession
    ));
    assert!(matches!(session_step(SessionEvent::HeartbeatAcked(vec![])), SessionAction::Continue));
    assert!(matches!(session_step(SessionEvent::StreamClosed), SessionAction::EndSession));
    assert!(matches!(session_step(SessionEvent::CommandReceived(None)), SessionAction::SkipEmptyCommand));
    let cmd = NodeCommand::Fs(FsSpec {
        command_id: "fs-1".into(),
        action: FsAction::Unmount,
        device: String::new(),
        mount_point: "/mnt".into(),
        fs_type: String::new(),
        mount_options: vec![],
        force: false,
    });
    match session_step(SessionEvent::CommandReceived(Some(cmd))) {
        SessionAction::Execute(c) => assert_eq!(c.command_id(), "fs-1"),
        other => panic!("unexpected {other:?}"),
    }
    assert!(!has_reregister(&vec!["Reregister".to_string()]));
}

#[test]
fn configuration_defaults() {
    let l = LogConfig::default();
    assert_eq!(l.filter, "info");
    assert!(!l.json && !l.with_location);
    let a = AgentConfig::default();
    assert_eq!(a.daemon_endpoint, "http://127.0.0.1:7443");
    assert!(a.node_id.is_empty());
    assert_eq!(a.role, NodeRole::Storage);
    assert!(a.labels.is_empty());
    assert_eq!(a.metrics_interval.as_secs(), 10);
    assert_eq!(a.heartbeat_interval.as_secs(), 5);
    assert_eq!(a.reconnect_backoff.as_secs(), 2);
    assert!(!a.allow_exec);
}

#[test]
fn monitor_tally_counts_every_node_once() {
    let s = vec![
        NodeStatus::Healthy,
        NodeStatus::Registered,
        NodeStatus::Draining,
        NodeStatus::Degraded,
        NodeStatus::Unreachable,
        NodeStatus::Unreachable,
    ];
    let t = tally(&s);
    assert_eq!((t.healthy, t.degraded, t.unreachable), (3, 1, 2));
    assert_eq!(t.healthy + t.degraded + t.unreachable, s.len() as u64);
}

fn strings(v: &[&str]) -> Vec<String> {
    v.iter().map(|s| s.to_string()).collect()
}

#[test]
fn health_changes_are_reported_once() {
    let (newly, recovered) = health_transitions(&strings(&[]), &strings(&["a", "b"]));
    assert_eq!(newly, strings(&["a", "b"]));
    assert!(recovered.is_empty());
    let (newly, recovered) = health_transitions(&strings(&["a", "b"]), &strings(&["b", "c"]));
    assert_eq!(newly, strings(&["c"]));
    assert_eq!(recovered, strings(&["a"]));
    let (newly, recovered) = health_transitions(&strings(&["b", "c"]), &strings(&["b", "c"]));
    assert!(newly.is_empty() && recovered.is_empty());
    let (_, recovered) = health_transitions(&strings(&["x", "x", "y"]), &strings(&[]));
    assert_eq!(recovered, strings(&["x", "y"]));
}

#[test]
fn node_timeout_must_cover_the_metrics_interval() {
    assert!(check_intervals(30_000_000_000, 10_000_000_000, "30s", "10s").is_ok());
    assert!(check_intervals(10_000_000_000, 10_000_000_000, "10s", "10s").is_ok());
    match check_intervals(5_000_000_000, 10_000_000_000, "5s", "10s") {
        Err(HpcError::ConfigInvalid(m)) => assert_eq!(m, "node_timeout (5s) must be >= metrics_interval (10s)"),
        other => panic!("unexpected {other:?}"),
    }
}
