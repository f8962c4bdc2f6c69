use ghostlink::cluster::ClusterState;
use ghostlink::planning::{select_quantization_mode, LayerAssignment, LayerSpec, MigrationPlanner, PlacementPlan, RebalanceTrigger};
use ghostlink::protocol::NodeResources;
use ghostlink::tuning::QuantizationMode;

fn bits(v: f32) -> u32 {
    v.to_bits()
}

#[test]
fn selects_quantization_mode_from_delivery_ratio() {
    assert_eq!(select_quantization_mode(bits(0.98)), QuantizationMode::FullPrecision);
    assert_eq!(select_quantization_mode(bits(0.90)), QuantizationMode::Int8);
    assert_eq!(select_quantization_mode(bits(0.75)), QuantizationMode::Int4);
}

#[test]
fn quantization_thresholds_are_inclusive() {
    assert_eq!(select_quantization_mode(bits(0.95)), QuantizationMode::FullPrecision);
    assert_eq!(select_quantization_mode(bits(0.80)), QuantizationMode::Int8);
    assert_eq!(select_quantization_mode(bits(0.0)), QuantizationMode::Int4);
    assert_eq!(select_quantization_mode(bits(f32::NAN)), QuantizationMode::Int4);
    assert_eq!(select_quantization_mode(bits(f32::INFINITY)), QuantizationMode::FullPrecision);
}

#[test]
fn placement_plan_summary() {
    let plan = PlacementPlan::new(
        vec![
            LayerAssignment::new("node-a".into(), 0, 24, bits(24.0)),
            LayerAssignment::new("node-b".into(), 24, 33, bits(9.0)),
        ],
        QuantizationMode::FullPrecision,
    );

    let summary = plan.summary();
    assert!(summary.contains("Total layers: 33"));
    assert!(summary.contains("Full Precision"));
}

#[test]
fn placement_plan_summary_text() {
    let plan = PlacementPlan::new(
        vec![
            LayerAssignment::new("node-a".into(), 0, 5, bits(5.0)),
            LayerAssignment::new("node-b".into(), 5, 9, bits(4.0)),
            LayerAssignment::new("node-a".into(), 9, 12, bits(3.0)),
        ],
        QuantizationMode::Int8,
    );
    assert_eq!(plan.total_layers, 12);
    assert_eq!(plan.participating_nodes, vec!["node-a".to_string(), "node-b".to_string()]);
    assert_eq!(
        plan.summary(),
        "Placement Plan (8-bit Quantized)\n=================\nTotal layers: 12\nQuantization: 8-bit Quantized\nNodes: node-a, node-b\n"
    );

    let empty = PlacementPlan::new(Vec::new(), QuantizationMode::Int4);
    assert_eq!(empty.total_layers, 0);
    assert_eq!(
        empty.summary(),
        "Placement Plan (4-bit Quantized)\n=================\nTotal layers: 0\nQuantization: 4-bit Quantized\nNodes: \n"
    );
}

#[test]
fn layer_assignment_counts_its_layers() {
    let a = LayerAssignment::new("node-a".into(), 24, 33, bits(9.0));
    assert_eq!(a.num_layers, 9);
    assert_eq!(f32::from_bits(a.used_vram_gb_bits), 9.0);
    let d = LayerSpec::default();
    assert_eq!(d.index, 0);
    assert_eq!(f32::from_bits(d.vram_gb_bits), 1.0);
    assert_eq!(d.num_weights, 0);
}

fn register(cluster: &mut ClusterState, id: &str) {
    cluster.register(NodeResources::new(id.to_string(), bits(24.0), bits(64.0), "8.9".to_string(), None));
}

fn set_link(cluster: &mut ClusterState, id: &str, delivery_ratio: f32, avg_latency_us: f32, available_vram_gb: f32) {
    let mut m = cluster.get_metrics(id).expect("registered node");
    m.delivery_ratio_bits = bits(delivery_ratio);
    m.avg_latency_us_bits = bits(avg_latency_us);
    m.available_vram_gb_bits = bits(available_vram_gb);
    cluster.set_metrics(id, m);
}

#[test]
fn test_rebalance_trigger_evaluate_never_selects_overtaxed_as_available() {
    let mut cluster = ClusterState::new();
    register(&mut cluster, "node-1");
    register(&mut cluster, "node-2");

    // Node 1 is overtaxed (delivery ratio < 0.90)
    set_link(&mut cluster, "node-1", 0.50, 0.0, 16.0);
    // Node 2 is also overtaxed (delivery ratio < 0.90) with high VRAM
    set_link(&mut cluster, "node-2", 0.60, 0.0, 16.0);

    let trigger = RebalanceTrigger::default();
    let plan = PlacementPlan::new(
        vec![LayerAssignment::new("node-1".into(), 0, 10, bits(10.0))],
        QuantizationMode::FullPrecision,
    );

    let planner = trigger.evaluate(&cluster, &plan);
    assert!(
        planner.is_none(),
        "overtaxed nodes must never be selected as available rebalance targets"
    );
}

#[test]
fn rebalance_trigger_moves_two_layers_off_an_overtaxed_node() {
    let mut cluster = ClusterState::new();
    register(&mut cluster, "node-1");
    register(&mut cluster, "node-2");
    set_link(&mut cluster, "node-1", 0.99, 40.0, 2.0);
    set_link(&mut cluster, "node-2", 0.99, 5.0, 16.0);

    let plan = PlacementPlan::new(
        vec![
            LayerAssignment::new("node-2".into(), 0, 4, bits(4.0)),
            LayerAssignment::new("node-1".into(), 4, 10, bits(6.0)),
        ],
        QuantizationMode::FullPrecision,
    );
    let planner = RebalanceTrigger::default().evaluate(&cluster, &plan).expect("migration");
    assert_eq!(planner.source_node, "node-1");
    assert_eq!(planner.target_node, "node-2");
    assert_eq!(planner.layers, vec![4, 5]);
    assert_eq!(planner.est_migration_time_ms, 90);
}

#[test]
fn rebalance_trigger_needs_two_active_nodes_and_a_target_with_room() {
    let mut cluster = ClusterState::new();
    register(&mut cluster, "node-1");
    set_link(&mut cluster, "node-1", 0.50, 0.0, 16.0);
    let plan = PlacementPlan::new(
        vec![LayerAssignment::new("node-1".into(), 0, 1, bits(1.0))],
        QuantizationMode::FullPrecision,
    );
    assert!(RebalanceTrigger::default().evaluate(&cluster, &plan).is_none());

    register(&mut cluster, "node-2");
    set_link(&mut cluster, "node-2", 0.99, 1.0, 8.0);
    // 8 GB available is not more than the 8 GB a target needs.
    assert!(RebalanceTrigger::default().evaluate(&cluster, &plan).is_none());

    set_link(&mut cluster, "node-2", 0.99, 1.0, 8.5);
    let planner = RebalanceTrigger::default().evaluate(&cluster, &plan).expect("migration");
    assert_eq!(planner.layers, vec![0]);
    assert_eq!(planner.est_migration_time_ms, 45);

    // A failed node is not active and takes no part.
    cluster.mark_failed("node-1");
    assert!(RebalanceTrigger::default().evaluate(&cluster, &plan).is_none());
}

#[test]
fn migration_handoff_plan_lists_the_steps_in_order() {
    let planner = MigrationPlanner::new("node-a".to_string(), "node-b".to_string(), vec![3, 4]);
    assert_eq!(planner.est_migration_time_ms, 90);
    assert_eq!(
        planner.generate_handoff_plan(),
        vec![
            "PREPARE: Target node node-b allocating VRAM".to_string(),
            "STREAM: Moving layers [3, 4] to node-b".to_string(),
            "VERIFY: Integrity check on node-b".to_string(),
            "COMMIT: Switch routing to node-b".to_string(),
            "CLEANUP: Free VRAM on source node node-a".to_string(),
        ]
    );
    let empty = MigrationPlanner::new("a".to_string(), "b".to_string(), vec![]);
    assert_eq!(empty.generate_handoff_plan()[1], "STREAM: Moving layers [] to b");
    assert_eq!(empty.est_migration_time_ms, 0);
}
