use ghostlink::pipeline::{
    bridge_auth, bridge_connect_step, merge_stages_for_node, rebalance_check_due, REBALANCE_CHECK_EVERY_BATCHES, stage_compute_rounds, BridgeAuth, plan_micro_batches, BatchSpec, BridgeAction, ConnectOutcome, StagePlacement,
};
use ghostlink::schedule::{DeviceKind, TcpTransportConfig};
use ghostlink::transport::SessionAuth;

fn stage(node: &str, start: usize, end: usize, device: DeviceKind, latency_ms: f32) -> StagePlacement {
    StagePlacement {
        node_id: node.to_string(),
        start_layer: start,
        end_layer: end,
        device,
        est_latency_ms_bits: latency_ms.to_bits(),
    }
}

#[test]
fn merge_stages_for_node_collapses_multiple_chunks_into_one_placement() {
    let stages = vec![
        stage("node-remote", 32, 38, DeviceKind::Gpu, 1.0),
        stage("node-remote", 38, 44, DeviceKind::Gpu, 1.5),
        stage("node-local", 0, 32, DeviceKind::Cpu, 3.0),
    ];
    let merged = merge_stages_for_node("node-remote", &stages).expect("merge failed");
    assert_eq!(merged.start_layer, 32);
    assert_eq!(merged.end_layer, 44);
    assert_eq!(merged.num_layers(), 12);
    assert_eq!(merged.device, DeviceKind::Gpu);
    let est_latency_ms: f32 = merged.latency_parts_ms_bits.iter().map(|b| f32::from_bits(*b)).sum();
    assert!((est_latency_ms - 2.5).abs() < 1e-6);
}

#[test]
fn merge_reports_a_node_without_stages() {
    let stages = vec![stage("node-local", 0, 32, DeviceKind::Cpu, 3.0)];
    assert_eq!(
        merge_stages_for_node("node-remote", &stages).unwrap_err(),
        "no pipeline stages assigned to node 'node-remote'"
    );
}

#[test]
fn merge_takes_the_extremes_and_the_first_device() {
    let stages = vec![
        stage("n", 10, 20, DeviceKind::Npu, 1.0),
        stage("other", 0, 100, DeviceKind::Gpu, 1.0),
        stage("n", 2, 5, DeviceKind::Cpu, 2.0),
    ];
    let merged = merge_stages_for_node("n", &stages).unwrap();
    assert_eq!((merged.start_layer, merged.end_layer), (2, 20));
    assert_eq!(merged.device, DeviceKind::Npu);
    assert_eq!(merged.latency_parts_ms_bits, vec![1.0f32.to_bits(), 2.0f32.to_bits()]);
    assert_eq!(stage("x", 5, 3, DeviceKind::Cpu, 0.0).num_layers(), 0);
}

#[test]
fn micro_batches_cover_the_tokens() {
    assert_eq!(plan_micro_batches(32, 1).len(), 32);
    assert_eq!(plan_micro_batches(32, 4).len(), 8);
    assert_eq!(
        plan_micro_batches(10, 4),
        vec![
            BatchSpec { batch_id: 0, tokens_in_batch: 4, payload_len: 64 },
            BatchSpec { batch_id: 1, tokens_in_batch: 4, payload_len: 64 },
            BatchSpec { batch_id: 2, tokens_in_batch: 2, payload_len: 32 },
        ]
    );
}

#[test]
fn micro_batch_below_one_counts_as_one() {
    assert_eq!(
        plan_micro_batches(2, 0),
        vec![
            BatchSpec { batch_id: 0, tokens_in_batch: 1, payload_len: 32 },
            BatchSpec { batch_id: 1, tokens_in_batch: 1, payload_len: 32 },
        ]
    );
    assert!(plan_micro_batches(0, 8).is_empty());
}

#[test]
fn bridge_retries_then_passes_through() {
    let config = TcpTransportConfig::default();
    assert_eq!(config.reconnect_attempts, 3);
    assert_eq!(bridge_connect_step(&config, 0, ConnectOutcome::Failed), BridgeAction::Retry { backoff_ms: 25 });
    assert_eq!(bridge_connect_step(&config, 1, ConnectOutcome::Failed), BridgeAction::Retry { backoff_ms: 25 });
    assert_eq!(bridge_connect_step(&config, 2, ConnectOutcome::Failed), BridgeAction::Passthrough { backoff_ms: 25 });
    assert_eq!(bridge_connect_step(&config, 1, ConnectOutcome::Connected), BridgeAction::UseStream);

    let mut once = TcpTransportConfig::default();
    once.reconnect_attempts = 0;
    assert_eq!(bridge_connect_step(&once, 0, ConnectOutcome::Failed), BridgeAction::Passthrough { backoff_ms: 25 });
}

#[test]
fn compute_rounds_follow_layers_and_device() {
    assert_eq!(stage_compute_rounds(0, DeviceKind::Npu), 1);
    assert_eq!(stage_compute_rounds(10, DeviceKind::Npu), 3);
    assert_eq!(stage_compute_rounds(10, DeviceKind::Gpu), 6);
    assert_eq!(stage_compute_rounds(10, DeviceKind::Cpu), 9);
}

#[test]
fn bridge_prefers_session_auth_over_frame_tokens() {
    let mut config = TcpTransportConfig::default();
    assert!(matches!(bridge_auth(&config), BridgeAuth::Token(None)));
    config.auth_token = Some("shared".to_string());
    assert!(matches!(bridge_auth(&config), BridgeAuth::Token(Some(ref t)) if t == "shared"));
    config.auth_session_token = Some("session".to_string());
    match bridge_auth(&config) {
        BridgeAuth::Session(s) => assert_eq!(s.session_id, SessionAuth::from_token("session").session_id),
        other => panic!("expected session auth, got {other:?}"),
    }
}

#[test]
fn rebalance_is_checked_every_twenty_fifth_batch() {
    let due: Vec<usize> = (0..80).filter(|&i| rebalance_check_due(i, REBALANCE_CHECK_EVERY_BATCHES)).collect();
    assert_eq!(due, vec![25, 50, 75]);
    assert!(!rebalance_check_due(10, 0));
}
