use ghostlink::cluster::{ClusterHealthMonitor, ClusterState, FaultDetector, NodeMetrics, SocketAddress, HEARTBEAT_TIMEOUT_MS};
use ghostlink::rpc_access::IpAddress;
use ghostlink::protocol::NodeResources;
use ghostlink::tuning::NodeStatus;

fn node(id: &str, vram: f32, mem: f32, cc: &str) -> NodeResources {
    NodeResources::new(id.to_string(), vram.to_bits(), mem.to_bits(), cc.to_string(), None)
}

#[test]
fn register_replaces_existing_nodes() {
    let mut cluster = ClusterState::new();
    cluster.register(node("node-a", 24.0, 64.0, "8.9"));
    cluster.register(node("node-a", 48.0, 128.0, "9.0"));

    assert_eq!(cluster.nodes().len(), 1);
    assert_eq!(f32::from_bits(cluster.nodes()[0].vram_gb_bits), 48.0);
}

#[test]
fn heartbeat_timeout_detection() {
    let mut cluster = ClusterState::new();
    cluster.register_at(node("node-a", 24.0, 64.0, "8.9"), 1_000);

    // Six seconds later the default five-second timeout has passed.
    assert!(cluster.check_heartbeat_timeout_at("node-a", 7_000));
}

#[test]
fn heartbeat_timeout_boundaries() {
    let mut cluster = ClusterState::new();
    cluster.register_at(node("node-a", 24.0, 64.0, "8.9"), 1_000);
    assert!(!cluster.check_heartbeat_timeout_at("node-a", 1_000 + HEARTBEAT_TIMEOUT_MS - 1));
    assert!(cluster.check_heartbeat_timeout_at("node-a", 1_000 + HEARTBEAT_TIMEOUT_MS));
    // A clock reading before the heartbeat counts as no time elapsed.
    assert!(!cluster.check_heartbeat_timeout_at("node-a", 0));
    // Unknown nodes never time out.
    assert!(!cluster.check_heartbeat_timeout_at("node-z", u64::MAX));
    cluster.update_heartbeat_at("node-a", 6_000);
    assert!(!cluster.check_heartbeat_timeout_at("node-a", 10_999));
    assert!(cluster.check_heartbeat_timeout_at("node-a", 11_000));
}

#[test]
fn nodes_are_listed_in_identifier_order() {
    let mut cluster = ClusterState::new();
    for id in ["node-c", "node-a", "node-b", "Node-z", "node-aa"] {
        cluster.register_at(node(id, 8.0, 16.0, "8.6"), 0);
    }
    let ids: Vec<String> = cluster.nodes().iter().map(|n| n.id.clone()).collect();
    assert_eq!(ids, vec!["Node-z", "node-a", "node-aa", "node-b", "node-c"]);
    assert_eq!(cluster.node_count(), 5);
}

#[test]
fn registration_keeps_status_and_heartbeat_of_known_node() {
    let mut cluster = ClusterState::new();
    cluster.register_at(node("node-a", 24.0, 64.0, "8.9"), 100);
    cluster.mark_failed("node-a");
    cluster.register_at(node("node-a", 48.0, 128.0, "9.0"), 9_000);
    let m = cluster.get_metrics("node-a").unwrap();
    assert_eq!(m.status, NodeStatus::Failed);
    assert_eq!(m.last_heartbeat_ms, 100);
    assert_eq!(f32::from_bits(m.vram_gb_bits), 48.0);
    assert_eq!(f32::from_bits(m.total_vram_gb_bits), 48.0);
    assert_eq!(f32::from_bits(m.available_vram_gb_bits), 24.0);
    assert_eq!(m.compute_capability, "9.0");
    assert_eq!(m.name, "node-a");
    assert!(cluster.get_metrics("node-b").is_none());
}

#[test]
fn active_nodes_follow_status_changes() {
    let mut cluster = ClusterState::default();
    cluster.register_at(node("node-a", 24.0, 64.0, "8.9"), 0);
    cluster.register_at(node("node-b", 12.0, 32.0, "8.6"), 0);
    assert_eq!(cluster.active_nodes_count(), 2);
    cluster.mark_failed("node-b");
    assert_eq!(cluster.active_nodes_count(), 1);
    let active = cluster.active_nodes();
    assert_eq!(active.len(), 1);
    assert_eq!(active[0].name, "node-a");
    cluster.recover_node("node-b");
    assert_eq!(cluster.active_nodes_count(), 2);
    // Unknown identifiers change nothing.
    cluster.mark_failed("node-z");
    assert_eq!(cluster.active_nodes_count(), 2);
    assert_eq!(cluster.node_count(), 2);
}

#[test]
fn health_monitor_fails_silent_nodes() {
    let mut cluster = ClusterState::new();
    cluster.register_at(node("node-a", 24.0, 64.0, "8.9"), 0);
    cluster.register_at(node("node-b", 12.0, 32.0, "8.6"), 0);
    cluster.update_heartbeat_at("node-b", 4_000);
    let mut monitor = ClusterHealthMonitor::new(cluster, 100);
    monitor.check_health_at(5_000);
    assert_eq!(monitor.cluster.get_metrics("node-a").unwrap().status, NodeStatus::Failed);
    assert_eq!(monitor.cluster.get_metrics("node-b").unwrap().status, NodeStatus::Active);
    assert_eq!(monitor.cluster.active_nodes_count(), 1);
    assert_eq!(monitor.check_interval_ms, 100);
}

#[test]
fn fault_detector_reports_each_failure_once() {
    let mut cluster = ClusterState::new();
    cluster.register_at(node("node-c", 24.0, 64.0, "8.9"), 0);
    cluster.register_at(node("node-a", 12.0, 32.0, "8.6"), 0);
    cluster.register_at(node("node-b", 12.0, 32.0, "8.6"), 0);
    cluster.update_heartbeat_at("node-b", 3_000);
    let mut detector = FaultDetector::new(cluster, 1_000);

    let failed = detector.detect_failures_at(6_000);
    assert_eq!(failed, vec!["node-a".to_string(), "node-c".to_string()]);
    assert_eq!(detector.cluster.active_nodes_count(), 1);

    // The same sweep again finds nothing new.
    assert!(detector.detect_failures_at(6_000).is_empty());

    // A recovered node is active and stays so until its timeout passes again.
    detector.recover_node_at("node-a", 6_500);
    let m = detector.cluster.get_metrics("node-a").unwrap();
    assert_eq!(m.status, NodeStatus::Active);
    assert_eq!(m.last_heartbeat_ms, 6_500);
    assert!(detector.detect_failures_at(11_499).iter().all(|id| id != "node-a"));
    assert_eq!(detector.detect_failures_at(11_500), vec!["node-a".to_string()]);
}

#[test]
fn node_metrics_streaming_layers_and_snapshot() {
    let mut m = NodeMetrics::new(24.0f32.to_bits(), 64.0f32.to_bits(), "8.9".to_string(), 5_000, 42);
    assert_eq!(m.status, NodeStatus::Active);
    assert_eq!(m.available_vram_gb_bits, 24.0f32.to_bits());
    assert_eq!(m.last_heartbeat_ms, 42);
    m.set_streaming_layers(3, 9);
    assert_eq!(m.streaming_layers, Some((3, 9)));
    let copy = m.snapshot();
    assert_eq!(copy.streaming_layers, Some((3, 9)));
    assert_eq!(copy.compute_capability, "8.9");
    m.clear_streaming_layers();
    assert_eq!(m.streaming_layers, None);
    assert!(!m.has_timed_out(5_041));
    assert!(m.has_timed_out(5_042));
}

#[test]
fn registration_records_the_address_when_given() {
    let mut cluster = ClusterState::new();
    let addr = SocketAddress { ip: IpAddress::V4(0x7f00_0001), port: 9000 };
    cluster.register_with_addr_at(node("node-a", 24.0, 64.0, "8.9"), Some(addr), 0);
    assert_eq!(cluster.get_metrics("node-a").unwrap().ip_address, Some(addr));
    // Re-registering without an address keeps the known one.
    cluster.register_at(node("node-a", 24.0, 64.0, "8.9"), 10);
    assert_eq!(cluster.get_metrics("node-a").unwrap().ip_address, Some(addr));
    let other = SocketAddress { ip: IpAddress::V4(0x0a00_0002), port: 9001 };
    cluster.register_with_addr(node("node-a", 24.0, 64.0, "8.9"), Some(other));
    assert_eq!(cluster.get_metrics("node-a").unwrap().ip_address, Some(other));
    cluster.register_at(node("node-b", 8.0, 16.0, "8.6"), 0);
    assert_eq!(cluster.get_metrics("node-b").unwrap().ip_address, None);
}

#[test]
fn fault_detector_detects_failures() {
    let mut cluster = ClusterState::new();
    cluster.register_at(node("node-a", 24.0, 64.0, "8.9"), 0);

    // Six seconds later the heartbeat timeout has passed.
    let mut detector = FaultDetector::new(cluster, 1_000);
    let failed = detector.detect_failures_at(6_000);

    assert!(failed.contains(&"node-a".to_string()));
}

#[test]
fn fault_detector_recovers_nodes() {
    let mut cluster = ClusterState::new();
    cluster.register_at(node("node-a", 24.0, 64.0, "8.9"), 0);

    let mut detector = FaultDetector::new(cluster, 1_000);
    detector.detect_failures_at(6_000);

    assert!(detector.cluster.get_metrics("node-a").unwrap().status == NodeStatus::Failed);

    detector.recover_node("node-a");
    assert_eq!(detector.cluster.get_metrics("node-a").unwrap().status, NodeStatus::Active);
}
