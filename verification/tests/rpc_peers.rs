use ghostlink::cluster::{ClusterState, SocketAddress};
use ghostlink::protocol::NodeResources;
use ghostlink::rpc_access::IpAddress;
use ghostlink::rpc_peers::{compute_tensor_split, discover_rpc_peers, RpcPeer};
use ghostlink::tuning::NodeStatus;

fn loopback(port: u16) -> SocketAddress {
    SocketAddress { ip: IpAddress::V4(0x7f00_0001), port }
}

fn register_peer(
    cluster: &mut ClusterState,
    id: &str,
    vram_gb: f32,
    rpc_port: Option<u16>,
    addr: Option<SocketAddress>,
    status: NodeStatus,
) {
    let mut node = NodeResources::new(id.to_string(), vram_gb.to_bits(), 32.0f32.to_bits(), "8.6".to_string(), None);
    if let Some(port) = rpc_port {
        node = node.with_rpc_port(port);
    }
    cluster.register_with_addr(node, addr);
    if status == NodeStatus::Failed {
        cluster.mark_failed(id);
    }
}

fn set_delivery_ratio(cluster: &mut ClusterState, id: &str, ratio: f32) {
    let mut metrics = cluster.get_metrics(id).expect("registered node");
    metrics.delivery_ratio_bits = ratio.to_bits();
    cluster.set_metrics(id, metrics);
}

fn peer(id: &str, port: u16, vram_gb: f32, system_memory_gb: f32) -> RpcPeer {
    RpcPeer {
        node_id: id.to_string(),
        addr: loopback(port),
        vram_gb_bits: vram_gb.to_bits(),
        system_memory_gb_bits: system_memory_gb.to_bits(),
    }
}

fn as_f32(split: Vec<u32>) -> Vec<f32> {
    split.into_iter().map(f32::from_bits).collect()
}

#[test]
fn discovers_only_healthy_rpc_contributing_peers() {
    let mut cluster = ClusterState::new();
    register_peer(&mut cluster, "local", 16.0, None, Some(loopback(9000)), NodeStatus::Active);
    register_peer(&mut cluster, "contributor", 12.0, Some(50052), Some(loopback(9001)), NodeStatus::Active);
    register_peer(&mut cluster, "no-rpc", 8.0, None, Some(loopback(9002)), NodeStatus::Active);
    register_peer(&mut cluster, "unhealthy", 8.0, Some(50053), Some(loopback(9003)), NodeStatus::Failed);
    register_peer(&mut cluster, "no-addr", 8.0, Some(50054), None, NodeStatus::Active);

    let peers = discover_rpc_peers(&cluster, "local", None);

    assert_eq!(peers.len(), 1);
    assert_eq!(peers[0].node_id, "contributor");
    assert_eq!(peers[0].addr, loopback(50052));
    assert_eq!(f32::from_bits(peers[0].vram_gb_bits), 12.0);
}

#[test]
fn excludes_peer_with_low_delivery_ratio_even_if_status_is_active() {
    let mut cluster = ClusterState::new();
    register_peer(&mut cluster, "flaky", 12.0, Some(50052), Some(loopback(9001)), NodeStatus::Active);
    set_delivery_ratio(&mut cluster, "flaky", 0.5);

    let peers = discover_rpc_peers(&cluster, "local", None);

    assert!(peers.is_empty());
}

#[test]
fn keeps_fresh_peer_with_no_delivery_samples_yet() {
    let mut cluster = ClusterState::new();
    register_peer(&mut cluster, "fresh", 12.0, Some(50052), Some(loopback(9001)), NodeStatus::Active);

    let peers = discover_rpc_peers(&cluster, "local", None);

    assert_eq!(peers.len(), 1);
    assert_eq!(peers[0].node_id, "fresh");
}

#[test]
fn excludes_local_node_even_if_self_advertises_rpc_port() {
    let mut cluster = ClusterState::new();
    register_peer(&mut cluster, "local", 16.0, Some(50052), Some(loopback(9000)), NodeStatus::Active);

    assert!(discover_rpc_peers(&cluster, "local", None).is_empty());
}

#[test]
fn peer_order_is_stable_and_sorted_by_id() {
    let mut cluster = ClusterState::new();
    register_peer(&mut cluster, "zeta", 8.0, Some(50052), Some(loopback(9001)), NodeStatus::Active);
    register_peer(&mut cluster, "alpha", 8.0, Some(50053), Some(loopback(9002)), NodeStatus::Active);

    let peers = discover_rpc_peers(&cluster, "local", None);
    assert_eq!(peers.len(), 2);
    assert_eq!(peers[0].node_id, "alpha");
    assert_eq!(peers[1].node_id, "zeta");
}

#[test]
fn does_not_exclude_peer_with_unknown_rpc_build_id() {
    let mut cluster = ClusterState::new();
    register_peer(&mut cluster, "local", 16.0, None, Some(loopback(9000)), NodeStatus::Active);
    register_peer(&mut cluster, "contributor", 12.0, Some(50052), Some(loopback(9001)), NodeStatus::Active);

    let peers = discover_rpc_peers(&cluster, "local", Some("da296d6"));

    assert_eq!(peers.len(), 1, "a peer with no rpc_build_id must still be used, not excluded");
    assert_eq!(peers[0].node_id, "contributor");
}

#[test]
fn delivery_ratio_floor_is_inclusive() {
    let mut cluster = ClusterState::new();
    register_peer(&mut cluster, "at-floor", 8.0, Some(50052), Some(loopback(9001)), NodeStatus::Active);
    register_peer(&mut cluster, "below", 8.0, Some(50053), Some(loopback(9002)), NodeStatus::Active);
    register_peer(&mut cluster, "unmeasured", 8.0, Some(50054), Some(loopback(9003)), NodeStatus::Active);
    set_delivery_ratio(&mut cluster, "at-floor", 0.90);
    set_delivery_ratio(&mut cluster, "below", 0.89);
    set_delivery_ratio(&mut cluster, "unmeasured", f32::NAN);

    let peers = discover_rpc_peers(&cluster, "local", None);
    let ids: Vec<&str> = peers.iter().map(|p| p.node_id.as_str()).collect();
    assert_eq!(ids, vec!["at-floor", "unmeasured"]);
}

#[test]
fn discovered_peer_carries_rpc_port_and_node_memory() {
    let mut cluster = ClusterState::new();
    register_peer(&mut cluster, "worker", 24.0, Some(50060), Some(loopback(9100)), NodeStatus::Active);

    let peers = discover_rpc_peers(&cluster, "local", None);
    assert_eq!(peers.len(), 1);
    assert_eq!(peers[0].addr, loopback(50060));
    assert_eq!(f32::from_bits(peers[0].system_memory_gb_bits), 32.0);
}

#[test]
fn tensor_split_puts_local_first_proportional_to_vram() {
    let peers = vec![peer("a", 1, 12.0, 32.0), peer("b", 2, 8.0, 16.0)];
    let split = compute_tensor_split(16.0f32.to_bits(), 64.0f32.to_bits(), &peers);
    assert_eq!(as_f32(split), vec![16.0, 12.0, 8.0]);
}

#[test]
fn tensor_split_floors_zero_vram_to_avoid_a_dead_device_entry() {
    let split = compute_tensor_split(0.0f32.to_bits(), 0.0f32.to_bits(), &[]);
    assert_eq!(as_f32(split), vec![0.1]);
}

#[test]
fn tensor_split_falls_back_to_ram_proportional_when_no_device_reports_vram() {
    let peers = vec![peer("a", 1, 0.0, 32.0), peer("b", 2, 0.0, 8.0)];
    let split = compute_tensor_split(0.0f32.to_bits(), 64.0f32.to_bits(), &peers);
    assert_eq!(as_f32(split), vec![64.0, 32.0, 8.0]);
}

#[test]
fn tensor_split_uses_vram_floor_not_ram_when_cluster_is_mixed() {
    let peers = vec![peer("a", 1, 0.0, 128.0)];
    let split = compute_tensor_split(16.0f32.to_bits(), 32.0f32.to_bits(), &peers);
    assert_eq!(as_f32(split), vec![16.0, 0.1]);
}

#[test]
fn tensor_split_floors_small_and_unknown_weights() {
    let peers = vec![peer("a", 1, 0.05, 4.0), peer("b", 2, f32::NAN, 4.0)];
    let split = compute_tensor_split(8.0f32.to_bits(), 4.0f32.to_bits(), &peers);
    assert_eq!(as_f32(split), vec![8.0, 0.1, 0.1]);
}

#[test]
fn a_node_failed_by_a_sweep_is_no_longer_a_peer() {
    let mut cluster = ClusterState::new();
    let node = NodeResources::new("worker".to_string(), 8.0f32.to_bits(), 32.0f32.to_bits(), "8.6".to_string(), None)
        .with_rpc_port(50052);
    cluster.register_with_addr_at(node, Some(loopback(9001)), 1_000);
    assert_eq!(discover_rpc_peers(&cluster, "local", None).len(), 1);

    cluster.sweep_at(1_000 + 5_000, false);
    assert!(discover_rpc_peers(&cluster, "local", None).is_empty());
}
