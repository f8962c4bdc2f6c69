use ghostlink::autotune::{AutoTuner, HealthConfig, LoadBalanceConfig, F32_0_80, F32_0_88, F32_0_95, F32_0_97};
use ghostlink::host::{AccelerationMode, GpuBackend, ProbeMode};
use ghostlink::protocol::NodeResources;
use ghostlink::tuning::{HealthStatus, RuntimeProfile};

fn profile(mode: AccelerationMode, workers: usize, vram: f32) -> RuntimeProfile {
    RuntimeProfile {
        node_resources: NodeResources::new("node-a".to_string(), vram.to_bits(), 64.0f32.to_bits(), "8.9".to_string(), None),
        logical_cores: 16,
        recommended_workers: workers,
        acceleration_mode: mode,
        gpu_backend: GpuBackend::Cuda,
        xdp_supported: true,
        detection_source: String::from("test"),
        probe_mode: ProbeMode::Fast,
    }
}

#[test]
fn fraction_constants_are_the_f32_values() {
    assert_eq!(F32_0_97, 0.97f32.to_bits());
    assert_eq!(F32_0_95, 0.95f32.to_bits());
    assert_eq!(F32_0_88, 0.88f32.to_bits());
    assert_eq!(F32_0_80, 0.80f32.to_bits());
}

#[test]
fn health_config_defaults() {
    let c = HealthConfig::default();
    assert_eq!(c.check_interval_ms, 5000);
    assert_eq!(c.timeout_ms, 3000);
    assert_eq!(c.min_successes, 2);
    assert_eq!(c.max_failures, 3);
    assert_eq!(f32::from_bits(c.healthy_latency_us_bits), 10.0);
    assert_eq!(f32::from_bits(c.degraded_latency_us_bits), 20.0);
    assert_eq!(f32::from_bits(c.healthy_delivery_ratio_bits), 0.95);
    assert_eq!(f32::from_bits(c.degraded_delivery_ratio_bits), 0.80);
}

#[test]
fn health_config_tightens_for_gpu_hosts() {
    let c = HealthConfig::autotuned(&profile(AccelerationMode::Gpu, 8, 24.0));
    assert_eq!(c.timeout_ms, 2000);
    assert_eq!(c.min_successes, 3);
    assert_eq!(c.max_failures, 4);
    assert_eq!(f32::from_bits(c.healthy_latency_us_bits), 6.0);
    assert_eq!(f32::from_bits(c.degraded_latency_us_bits), 14.0);
    assert_eq!(f32::from_bits(c.healthy_delivery_ratio_bits), 0.97);
    assert_eq!(f32::from_bits(c.degraded_delivery_ratio_bits), 0.88);
}

#[test]
fn health_config_for_cpu_hosts_without_vram() {
    let c = HealthConfig::autotuned(&profile(AccelerationMode::Avx2, 4, 0.0));
    assert_eq!(c.timeout_ms, 3000);
    assert_eq!(c.min_successes, 2);
    assert_eq!(c.max_failures, 3);
    assert_eq!(f32::from_bits(c.healthy_latency_us_bits), 10.0);
    assert_eq!(f32::from_bits(c.healthy_delivery_ratio_bits), 0.95);
    assert_eq!(f32::from_bits(c.degraded_delivery_ratio_bits), 0.80);
    let avx512 = HealthConfig::autotuned(&profile(AccelerationMode::Avx512, 2, -1.0));
    assert_eq!(f32::from_bits(avx512.healthy_latency_us_bits), 8.0);
    assert_eq!(f32::from_bits(avx512.degraded_latency_us_bits), 18.0);
    assert_eq!(f32::from_bits(avx512.healthy_delivery_ratio_bits), 0.95);
    let nan = HealthConfig::autotuned(&profile(AccelerationMode::Gpu, 2, f32::NAN));
    assert_eq!(f32::from_bits(nan.healthy_delivery_ratio_bits), 0.95);
}

#[test]
fn load_balance_defaults() {
    let c = LoadBalanceConfig::default();
    assert_eq!(c.lock_timeout_us, 1000);
    assert_eq!(f32::from_bits(c.min_load_threshold_bits), 0.8);
    assert_eq!(c.max_layers_per_assignment, 100);
}

#[test]
fn tuner_rebuilt_from_cached_fields() {
    let t = AutoTuner::from_cached_fields(42, "2024-01-01T00:00:00Z".to_string(), 6.0f32.to_bits(), 14.0f32.to_bits(), 250, 512, 7);
    assert_eq!(t.fingerprint, 42);
    assert_eq!(t.tuned_at, "2024-01-01T00:00:00Z");
    assert_eq!(f32::from_bits(t.health_config.healthy_latency_us_bits), 6.0);
    assert_eq!(f32::from_bits(t.health_config.degraded_latency_us_bits), 14.0);
    assert_eq!(t.health_config.timeout_ms, 3000);
    assert_eq!(t.load_balance_config.lock_timeout_us, 250);
    assert_eq!(t.load_balance_config.max_layers_per_assignment, 100);
    assert_eq!(t.planning_tuning.max_layers_per_assignment, 7);
    assert_eq!(t.tcp_config.max_inflight_batches, 512);
    assert_eq!(t.tcp_config.reconnect_attempts, 3);
    assert_eq!(t.tcp_config.reconnect_backoff_ms, 10);
    assert_eq!(t.worker_pool.compute_workers, 7);
    assert_eq!(t.worker_pool.io_workers, 3);
    assert_eq!(t.worker_pool.total_workers, 10);

    let zero = AutoTuner::from_cached_fields(0, String::new(), 0, 0, 0, 0, 0);
    assert_eq!(zero.planning_tuning.max_layers_per_assignment, 1);
    assert_eq!(zero.worker_pool.total_workers, 0);
}

#[test]
fn benchmark_tcp_keeps_the_tuning() {
    let mut t = AutoTuner::from_cached_fields(9, "t".to_string(), 1, 2, 3, 4, 5);
    t.benchmark_tcp();
    assert_eq!(t.fingerprint, 9);
    assert_eq!(t.tcp_config.max_inflight_batches, 4);
    assert_eq!(t.worker_pool.compute_workers, 5);
}

#[test]
fn health_status_follows_the_thresholds() {
    let c = HealthConfig::default();
    let b = |v: f32| v.to_bits();
    assert_eq!(c.status_for(b(5.0), b(0.99)), HealthStatus::Healthy);
    assert_eq!(c.status_for(b(10.0), b(0.95)), HealthStatus::Healthy);
    assert_eq!(c.status_for(b(15.0), b(0.99)), HealthStatus::Degraded);
    assert_eq!(c.status_for(b(50.0), b(0.85)), HealthStatus::Degraded);
    assert_eq!(c.status_for(b(15.0), b(0.10)), HealthStatus::Degraded);
    assert_eq!(c.status_for(b(50.0), b(0.10)), HealthStatus::Failed);
    assert_eq!(c.status_for(b(f32::NAN), b(f32::NAN)), HealthStatus::Failed);
}

#[test]
fn health_config_autotunes_for_gpu_profiles() {
    let config = HealthConfig::autotuned(&profile(AccelerationMode::Gpu, 8, 24.0));
    assert!(f32::from_bits(config.healthy_latency_us_bits) < 10.0);
    assert!(f32::from_bits(config.healthy_delivery_ratio_bits) > 0.95);
}
