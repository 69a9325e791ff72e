use std::collections::BTreeMap;

use hpc::daemon::{
    accept_deploy, accept_fs, answer_heartbeat, check_dispatch, deregister, dispatch_ack, heartbeat_directives,
    lookup_node, node_metrics, ApiError, DeployRequest, FsRequest, NodeCommand,
};
use hpc::error::HpcError;
use hpc::table::NodeTable;
use hpc::types::{DeployAction, DeploySpec, FsAction, FsSpec, NodeInfo, NodeRole, NodeStatus};

fn sample_info(id: &str) -> NodeInfo {
    NodeInfo {
        node_id: id.to_string(),
        hostname: id.to_string(),
        ip_address: "10.0.0.1".into(),
        role: NodeRole::Storage,
        cpu_cores: 8,
        total_memory_bytes: 1 << 34,
        total_disk_bytes: 1 << 40,
        agent_version: "0.1.0".into(),
        kernel_version: "6.1".into(),
        os: "linux".into(),
        started_at_unix: 0,
        labels: Default::default(),
    }
}

fn deploy_req(component: &str, id: Option<&str>) -> DeployRequest {
    DeployRequest {
        deployment_id: id.map(|s| s.to_string()),
        action: DeployAction::Install,
        component: component.to_string(),
        version: "2.15".into(),
        target_path: String::new(),
        options: BTreeMap::new(),
    }
}

fn fs_req(action: FsAction, mount_point: &str, force: bool) -> FsRequest {
    FsRequest {
        command_id: None,
        action,
        device: "/dev/sdb1".into(),
        mount_point: mount_point.to_string(),
        fs_type: "xfs".into(),
        mount_options: vec![],
        force,
    }
}

fn is_uuid(s: &str) -> bool {
    s.len() == 36
        && s.chars().enumerate().all(|(i, c)| {
            if i == 8 || i == 13 || i == 18 || i == 23 {
                c == '-'
            } else {
                c.is_ascii_digit() || ('a'..='f').contains(&c)
            }
        })
}

#[test]
fn blank_component_is_a_bad_request() {
    let e = accept_deploy("n1", deploy_req("  ", None), true).unwrap_err();
    assert_eq!(e, ApiError { status: 400, message: "component must not be empty".into() });
}

#[test]
fn deploy_to_disconnected_node_is_a_conflict() {
    let e = accept_deploy("n1", deploy_req("lustre", None), false).unwrap_err();
    assert_eq!(e, ApiError { status: 409, message: "node n1 is not connected".into() });
}

#[test]
fn deploy_keeps_given_id_or_generates_one() {
    let given = accept_deploy("n1", deploy_req("lustre", Some("dep-7")), true).unwrap();
    assert_eq!(given.deployment_id, "dep-7");
    assert_eq!(given.component, "lustre");
    assert_eq!(given.version, "2.15");
    let a = accept_deploy("n1", deploy_req("lustre", None), true).unwrap();
    let b = accept_deploy("n1", deploy_req("lustre", None), true).unwrap();
    assert!(a.deployment_id.starts_with("dep-"));
    assert!(is_uuid(&a.deployment_id[4..]));
    assert_ne!(a.deployment_id, b.deployment_id);
}

#[test]
fn fs_request_validation() {
    assert_eq!(
        accept_fs("n1", fs_req(FsAction::Mount, "", false), true).unwrap_err(),
        ApiError { status: 400, message: "mount_point must not be empty".into() }
    );
    assert_eq!(
        accept_fs("n1", fs_req(FsAction::Format, "/mnt", false), true).unwrap_err(),
        ApiError { status: 400, message: "format is destructive and requires force=true".into() }
    );
    assert_eq!(
        accept_fs("n2", fs_req(FsAction::Mount, "/mnt", false), false).unwrap_err(),
        ApiError { status: 409, message: "node n2 is not connected".into() }
    );
    let ok = accept_fs("n2", fs_req(FsAction::Format, "/mnt", true), true).unwrap();
    assert!(ok.command_id.starts_with("fs-"));
    assert!(is_uuid(&ok.command_id[3..]));
    assert_eq!(ok.mount_point, "/mnt");
    assert!(ok.force);
}

#[test]
fn error_statuses() {
    let cases = vec![
        (HpcError::NotFound("x".into()), 404u16, "not found: x"),
        (HpcError::InvalidState("x".into()), 409, "invalid state: x"),
        (HpcError::ConfigInvalid("x".into()), 400, "invalid configuration: x"),
        (HpcError::Conversion("x".into()), 400, "protocol conversion error: x"),
        (HpcError::Store("x".into()), 500, "state store error: x"),
        (HpcError::Rpc("x".into()), 500, "rpc error: x"),
    ];
    for (e, status, message) in cases {
        let a = ApiError::from_error(&e);
        assert_eq!(a.status, status);
        assert_eq!(a.message, message);
    }
}

#[test]
fn dispatch_needs_a_known_node_with_a_stream() {
    let mut t: NodeTable<u32> = NodeTable::new();
    t.register_at(sample_info("n1"), 100);
    assert!(check_dispatch(&t, "n1", true).is_ok());
    match check_dispatch(&t, "n1", false) {
        Err(HpcError::InvalidState(m)) => assert_eq!(m, "node n1 has no live command stream"),
        other => panic!("unexpected {other:?}"),
    }
    match check_dispatch(&t, "n9", true) {
        Err(HpcError::NotFound(m)) => assert_eq!(m, "unknown node n9"),
        other => panic!("unexpected {other:?}"),
    }
}

#[test]
fn lookups_and_deregistration() {
    let mut t: NodeTable<u32> = NodeTable::new();
    t.register_at(sample_info("n1"), 100);
    assert_eq!(lookup_node(&t, "n1").unwrap().status, NodeStatus::Registered);
    assert_eq!(
        lookup_node(&t, "zz").unwrap_err(),
        ApiError { status: 404, message: "unknown node zz".into() }
    );
    assert_eq!(
        node_metrics(&t, "n1").unwrap_err(),
        ApiError { status: 404, message: "no metrics reported yet".into() }
    );
    t.ingest_at("n1", NodeStatus::Healthy, 42, 110).unwrap();
    assert_eq!(*node_metrics(&t, "n1").unwrap(), 42);
    assert!(deregister(&mut t, "n1").is_ok());
    assert_eq!(
        deregister(&mut t, "n1").unwrap_err(),
        ApiError { status: 404, message: "unknown node n1".into() }
    );
    assert_eq!(t.len(), 0);
}

#[test]
fn heartbeat_reply_directives() {
    assert!(heartbeat_directives(0, 5, true).is_empty());
    assert!(heartbeat_directives(5, 5, true).is_empty());
    assert_eq!(heartbeat_directives(4, 5, true), vec!["reregister"]);
    assert_eq!(heartbeat_directives(0, 5, false), vec!["reregister"]);
    assert_eq!(heartbeat_directives(4, 5, false), vec!["reregister", "reregister"]);
}

#[test]
fn command_ids_and_acks() {
    let d = NodeCommand::Deploy(DeploySpec {
        deployment_id: "dep-1".into(),
        action: DeployAction::Remove,
        component: "c".into(),
        version: String::new(),
        target_path: String::new(),
        options: BTreeMap::new(),
    });
    assert_eq!(d.command_id(), "dep-1");
    let f = NodeCommand::Fs(FsSpec {
        command_id: "fs-1".into(),
        action: FsAction::Check,
        device: "/dev/x".into(),
        mount_point: String::new(),
        fs_type: String::new(),
        mount_options: vec![],
        force: false,
    });
    assert_eq!(f.command_id(), "fs-1");
    let ack = dispatch_ack("fs-1".into(), "n1".into());
    assert!(ack.accepted);
    assert_eq!(ack.command_id, "fs-1");
    assert_eq!(ack.node_id, "n1");
}

#[test]
fn heartbeat_answers() {
    let mut t: NodeTable<u32> = NodeTable::new();
    t.register_at(sample_info("n1"), 100);
    let ack = answer_heartbeat(&mut t, "n1", 7, 7);
    assert!(ack.ok);
    assert_eq!(ack.cluster_epoch, 7);
    assert!(ack.directives.is_empty());
    assert!(t.get("n1").unwrap().last_seen_unix >= 100);
    let stale = answer_heartbeat(&mut t, "n1", 3, 7);
    assert_eq!(stale.directives, vec!["reregister"]);
    let unknown = answer_heartbeat(&mut t, "ghost", 0, 7);
    assert!(unknown.ok);
    assert_eq!(unknown.directives, vec!["reregister"]);
    assert_eq!(t.len(), 1);
}
