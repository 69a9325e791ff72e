use hpc::error::HpcError;
use hpc::table::NodeTable;
use hpc::types::{NodeInfo, NodeRole, NodeStatus};

fn info(id: &str, role: NodeRole) -> NodeInfo {
    NodeInfo {
        node_id: id.to_string(),
        hostname: format!("{id}.cluster"),
        ip_address: "10.0.0.1".into(),
        role,
        cpu_cores: 8,
        total_memory_bytes: 1 << 34,
        total_disk_bytes: 1 << 40,
        agent_version: "0.1.0".into(),
        kernel_version: "6.1".into(),
        os: "linux".into(),
        started_at_unix: 0,
        labels: Default::default(),
    }
}

#[test]
fn register_then_reregister_keeps_metrics() {
    let mut t: NodeTable<&str> = NodeTable::new();
    t.register_at(info("n1", NodeRole::Storage), 100);
    let r = t.get("n1").unwrap();
    assert_eq!(r.status, NodeStatus::Registered);
    assert_eq!(r.last_seen_unix, 100);
    assert!(r.latest_metrics.is_none());
    t.ingest_at("n1", NodeStatus::Degraded, "sample", 120).unwrap();
    t.register_at(info("n1", NodeRole::Compute), 130);
    let r = t.get("n1").unwrap();
    assert_eq!(r.status, NodeStatus::Registered);
    assert_eq!(r.info.role, NodeRole::Compute);
    assert_eq!(r.last_seen_unix, 130);
    assert_eq!(r.latest_metrics, Some("sample"));
    assert_eq!(t.len(), 1);
}

#[test]
fn unknown_nodes_are_refused() {
    let mut t: NodeTable<u8> = NodeTable::new();
    match t.heartbeat_at("ghost", 5) {
        Err(HpcError::NotFound(m)) => assert_eq!(m, "unknown node ghost"),
        other => panic!("unexpected {other:?}"),
    }
    match t.ingest_at("ghost", NodeStatus::Healthy, 1, 5) {
        Err(HpcError::NotFound(m)) => assert_eq!(m, "unknown node ghost"),
        other => panic!("unexpected {other:?}"),
    }
    assert_eq!(t.len(), 0);
    assert!(!t.contains("ghost"));
}

#[test]
fn reap_marks_stale_nodes_once_and_heartbeat_revives_them() {
    let mut t: NodeTable<u8> = NodeTable::new();
    t.register_at(info("old", NodeRole::Storage), 100);
    t.register_at(info("fresh", NodeRole::Storage), 190);
    t.register_at(info("edge", NodeRole::Storage), 170);
    // cutoff = 200 - 30 = 170: `edge` (seen exactly at the cutoff) survives.
    let changed = t.reap_stale_at(200, 30);
    assert_eq!(changed, vec!["old".to_string()]);
    assert_eq!(t.get("old").unwrap().status, NodeStatus::Unreachable);
    assert_eq!(t.get("old").unwrap().last_seen_unix, 100);
    assert_eq!(t.get("old").unwrap().info.hostname, "old.cluster");
    assert_eq!(t.get("edge").unwrap().status, NodeStatus::Registered);
    assert_eq!(t.get("fresh").unwrap().status, NodeStatus::Registered);
    // A second reap at the same moment changes nothing.
    assert!(t.reap_stale_at(200, 30).is_empty());
    t.heartbeat_at("old", 210).unwrap();
    let r = t.get("old").unwrap();
    assert_eq!(r.status, NodeStatus::Healthy);
    assert_eq!(r.last_seen_unix, 210);
    // A heartbeat leaves a live status alone.
    t.heartbeat_at("fresh", 211).unwrap();
    assert_eq!(t.get("fresh").unwrap().status, NodeStatus::Registered);
}

#[test]
fn timeout_larger_than_now_reaps_nothing() {
    let mut t: NodeTable<u8> = NodeTable::new();
    t.register_at(info("a", NodeRole::Storage), 0);
    assert!(t.reap_stale_at(10, 100).is_empty());
    assert_eq!(t.get("a").unwrap().status, NodeStatus::Registered);
}

#[test]
fn node_ids_are_sorted() {
    let mut t: NodeTable<u8> = NodeTable::new();
    for id in ["storage-02", "compute-10", "storage-01", "compute-2"] {
        t.register_at(info(id, NodeRole::Storage), 1);
    }
    t.register_at(info("storage-01", NodeRole::Metadata), 2);
    assert_eq!(t.node_ids(), vec!["compute-10", "compute-2", "storage-01", "storage-02"]);
}

#[test]
fn cluster_status_counts() {
    let mut t: NodeTable<u8> = NodeTable::new();
    for id in ["a", "b", "c", "d", "e"] {
        t.register_at(info(id, NodeRole::Compute), 100);
    }
    t.ingest_at("b", NodeStatus::Healthy, 0, 100).unwrap();
    t.ingest_at("c", NodeStatus::Degraded, 0, 100).unwrap();
    t.ingest_at("d", NodeStatus::Draining, 0, 100).unwrap();
    t.ingest_at("e", NodeStatus::Healthy, 0, 1).unwrap();
    let _ = t.reap_stale_at(100, 10);
    let s = t.cluster_status(77, 3, 1234);
    assert_eq!(s.epoch, 77);
    assert_eq!(s.total_nodes, 5);
    assert_eq!(s.healthy, 2);
    assert_eq!(s.degraded, 1);
    assert_eq!(s.unreachable, 1);
    assert_eq!(s.connected_streams, 3);
    assert_eq!(s.server_time_unix, 1234);
}

#[test]
fn removal() {
    let mut t: NodeTable<u8> = NodeTable::new();
    t.register_at(info("a", NodeRole::Compute), 1);
    t.register_at(info("b", NodeRole::Compute), 1);
    assert!(t.remove("a"));
    assert!(!t.remove("a"));
    assert!(t.get("a").is_none());
    assert!(t.heartbeat_at("a", 2).is_err());
    assert!(t.get("b").is_some());
}

#[test]
fn clock_reading_variants_use_the_time_they_return() {
    let mut t: NodeTable<u8> = NodeTable::new();
    let seen = t.register_node(info("a", NodeRole::Compute));
    assert_eq!(t.get("a").unwrap().last_seen_unix, seen);
    let hb = t.heartbeat("a").unwrap();
    assert_eq!(t.get("a").unwrap().last_seen_unix, hb);
    let (now, changed) = t.reap_stale(3600);
    assert!(now >= hb);
    assert!(changed.is_empty());
}

#[test]
fn registering_twice_is_registering_once() {
    let mut a: NodeTable<u8> = NodeTable::new();
    a.register_at(info("n", NodeRole::Gateway), 5);
    a.register_at(info("n", NodeRole::Gateway), 9);
    let mut b: NodeTable<u8> = NodeTable::new();
    b.register_at(info("n", NodeRole::Gateway), 9);
    assert_eq!(a.len(), 1);
    let (ra, rb) = (a.get("n").unwrap(), b.get("n").unwrap());
    assert_eq!(ra.info, rb.info);
    assert_eq!(ra.status, rb.status);
    assert_eq!(ra.last_seen_unix, rb.last_seen_unix);
    assert_eq!(ra.latest_metrics, rb.latest_metrics);
}

#[test]
fn records_come_sorted_by_id() {
    let mut t: NodeTable<u8> = NodeTable::new();
    for id in ["b", "c", "a"] {
        t.register_at(info(id, NodeRole::Storage), 1);
    }
    let ids: Vec<&str> = t.records().iter().map(|r| r.info.node_id.as_str()).collect();
    assert_eq!(ids, vec!["a", "b", "c"]);
}
