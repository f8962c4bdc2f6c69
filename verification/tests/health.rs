use ghostlink::autotune::HealthConfig;
use ghostlink::health::{HealthCheckResult, HealthHistory, HealthMetrics, NetworkHealthMonitor, HEALTH_HISTORY_CAP};
use ghostlink::tuning::HealthStatus;

fn check(node: &str, latency: f32, status: HealthStatus, at: u64) -> HealthCheckResult {
    HealthCheckResult {
        node_id: node.to_string(),
        latency_us_bits: latency.to_bits(),
        delivery_ratio_bits: 0.97f32.to_bits(),
        status,
        timestamp_ms: at,
    }
}

#[test]
fn history_keeps_the_last_results_per_node() {
    let mut h = HealthHistory::new();
    for i in 0..12u64 {
        h.record(check("node-a", i as f32, HealthStatus::Healthy, i));
    }
    let recent = h.recent("node-a");
    assert_eq!(recent.len(), HEALTH_HISTORY_CAP);
    assert_eq!(recent[0].timestamp_ms, 2);
    assert_eq!(recent[HEALTH_HISTORY_CAP - 1].timestamp_ms, 11);
    assert_eq!(h.latest("node-a").unwrap().timestamp_ms, 11);
    assert!(h.latest("node-b").is_none());
    assert!(h.recent("node-b").is_empty());
}

#[test]
fn summary_counts_latest_statuses() {
    let mut h = HealthHistory::default();
    h.record(check("node-a", 1.0, HealthStatus::Failed, 0));
    h.record(check("node-a", 1.0, HealthStatus::Healthy, 1));
    h.record(check("node-b", 15.0, HealthStatus::Degraded, 1));
    h.record(check("node-c", 50.0, HealthStatus::Failed, 1));
    h.record(check("node-d", 50.0, HealthStatus::Unknown, 1));
    assert_eq!(
        h.summary(),
        "Network Health Summary\n=================\nTotal nodes: 4\nHealthy: 1\nDegraded: 1\nFailed: 1\n"
    );
    assert_eq!(
        HealthHistory::new().summary(),
        "Network Health Summary\n=================\nTotal nodes: 0\nHealthy: 0\nDegraded: 0\nFailed: 0\n"
    );
}

#[test]
fn monitor_classifies_and_records_checks() {
    let mut monitor = NetworkHealthMonitor::new(HealthConfig::default());
    monitor.record_check("node-a".to_string(), 5.0f32.to_bits(), 0.99f32.to_bits(), 100);
    monitor.record_check("node-b".to_string(), 15.0f32.to_bits(), 0.85f32.to_bits(), 110);
    monitor.record_check("node-c".to_string(), 50.0f32.to_bits(), 0.10f32.to_bits(), 120);
    assert_eq!(monitor.last_check_ms, Some(120));
    assert_eq!(monitor.get_node_health("node-a").unwrap().status, HealthStatus::Healthy);
    assert_eq!(monitor.get_node_health("node-b").unwrap().status, HealthStatus::Degraded);
    assert_eq!(monitor.get_node_health("node-c").unwrap().status, HealthStatus::Failed);
    assert!(monitor.get_node_health("node-d").is_none());
    let summary = monitor.get_health_summary();
    assert!(summary.contains("Total nodes: 3"));
    assert!(summary.contains("Healthy: 1\nDegraded: 1\nFailed: 1"));
}

fn aggregates(avg_delivery_ratio: f32, min_latency_us: f32, samples: usize) -> HealthMetrics {
    let mut m = HealthMetrics::new();
    m.avg_delivery_ratio_bits = avg_delivery_ratio.to_bits();
    m.min_delivery_ratio_bits = avg_delivery_ratio.to_bits();
    m.min_latency_us_bits = min_latency_us.to_bits();
    m.avg_latency_us_bits = min_latency_us.to_bits();
    m.max_latency_us_bits = min_latency_us.to_bits();
    m.sample_count = samples;
    m
}

#[test]
fn recommendation_follows_the_health_bands() {
    assert_eq!(HealthMetrics::new().get_recommendation(), "No data available");
    // Mean of 0.98 and 0.95 with a least latency of 1 µs.
    assert!(aggregates(0.965, 1.0, 2).get_recommendation().contains("healthy"));
    assert_eq!(aggregates(0.95, 10.0, 1).get_recommendation(), "Cluster is healthy. No action needed.");
    assert_eq!(aggregates(0.92, 15.0, 4).get_recommendation(), "Cluster is degraded. Consider load balancing.");
    assert_eq!(aggregates(0.99, 20.5, 4).get_recommendation(), "Cluster performance is poor. Recommend quantization fallback.");
    assert_eq!(aggregates(0.85, 50.0, 4).get_recommendation(), "Cluster performance is poor. Recommend quantization fallback.");
    assert_eq!(aggregates(0.50, 5.0, 4).get_recommendation(), "Cluster has failed nodes. Investigate and recover.");
    assert_eq!(aggregates(f32::NAN, 5.0, 4).get_recommendation(), "Cluster has failed nodes. Investigate and recover.");
    assert_eq!(HealthMetrics::default().sample_count, 0);
}
