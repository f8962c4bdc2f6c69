use ghostlink::calendar::{civil_from_days, iso8601_at, now_iso8601};
use ghostlink::host::{AccelerationMode, GpuBackend, ProbeMode};
use ghostlink::protocol::NodeResources;
use ghostlink::tuning::{
    ping_result_to_status, tune_tcp, tune_worker_pool, ExecutionBackend, HealthStatus, ModelStatus, NodeStatus,
    PlanningTuning, QuantizationMode, RuntimeProfile,
};

fn profile(mode: AccelerationMode, workers: usize) -> RuntimeProfile {
    RuntimeProfile {
        node_resources: NodeResources::new("node-a".to_string(), 24.0f32.to_bits(), 64.0f32.to_bits(), "8.9".to_string(), None),
        logical_cores: 16,
        recommended_workers: workers,
        acceleration_mode: mode,
        gpu_backend: GpuBackend::Cuda,
        xdp_supported: true,
        detection_source: String::from("test"),
        probe_mode: ProbeMode::Fast,
    }
}

#[test]
fn backend_selection_reflects_acceleration_mode() {
    let backend = ExecutionBackend::from_runtime_profile(&profile(AccelerationMode::Gpu, 8));
    assert_eq!(backend.name(), "GPU");
    assert_eq!(backend.vector_width_bits, 512);
    assert_eq!(backend.worker_count, 8);
    assert_eq!(backend.preferred_batch_size, 4096);
}

#[test]
fn backend_has_at_least_one_worker() {
    let backend = ExecutionBackend::from_runtime_profile(&profile(AccelerationMode::Neon, 0));
    assert_eq!(backend.worker_count, 1);
    assert_eq!(backend.vector_width_bits, 128);
    assert_eq!(backend.name(), "NEON");
}

#[test]
fn planning_tuning_scales_chunk_size_with_workers() {
    let tuning = PlanningTuning::from_runtime_profile(&profile(AccelerationMode::Gpu, 8), 40);
    assert!(tuning.max_layers_per_assignment <= 4);
    // 8 workers + 2 (GPU) + 2 (512-bit vectors) - 1 = 11 chunks; 40 / 11 rounded up.
    assert_eq!(tuning.max_layers_per_assignment, 4);
}

#[test]
fn planning_tuning_edge_cases() {
    assert_eq!(PlanningTuning::from_runtime_profile(&profile(AccelerationMode::Generic, 1), 0).max_layers_per_assignment, 1);
    // 1 worker + 0 + 1 - 1 = 1 chunk: everything in one assignment.
    assert_eq!(PlanningTuning::from_runtime_profile(&profile(AccelerationMode::Generic, 1), 7).max_layers_per_assignment, 7);
}

#[test]
fn tcp_config_scales_with_multi_gpu() {
    let one = tune_tcp(AccelerationMode::Gpu, 1);
    let two = tune_tcp(AccelerationMode::Gpu, 2);
    assert_eq!(two.max_inflight_batches, one.max_inflight_batches * 2);
    assert_eq!(one.max_inflight_batches, 256);
    assert_eq!(one.reconnect_attempts, 5);
    assert_eq!(tune_tcp(AccelerationMode::Avx2, 0).max_inflight_batches, 64);
    assert_eq!(tune_tcp(AccelerationMode::Avx512, 0).reconnect_backoff_ms, 10);
}

#[test]
fn worker_pool_splits_compute_and_io() {
    let gpu = tune_worker_pool(AccelerationMode::Gpu, 8);
    assert_eq!((gpu.compute_workers, gpu.io_workers, gpu.total_workers), (8, 4, 12));
    let cpu = tune_worker_pool(AccelerationMode::Avx2, 3);
    assert_eq!((cpu.compute_workers, cpu.io_workers, cpu.total_workers), (3, 1, 4));
}

#[test]
fn status_defaults() {
    assert_eq!(HealthStatus::default(), HealthStatus::Unknown);
    assert_eq!(NodeStatus::default(), NodeStatus::Active);
    assert_eq!(QuantizationMode::default(), QuantizationMode::FullPrecision);
    assert_ne!(ModelStatus::Loaded, ModelStatus::Loading);
    assert_eq!(ping_result_to_status(&Ok(())), Ok(true));
    assert_eq!(ping_result_to_status(&Err("timeout".to_string())), Ok(false));
}

#[test]
fn civil_dates_around_the_epoch() {
    assert_eq!(civil_from_days(0), (1970, 1, 1));
    assert_eq!(civil_from_days(-1), (1969, 12, 31));
    assert_eq!(civil_from_days(59), (1970, 3, 1));
    assert_eq!(civil_from_days(11016), (2000, 2, 29));
    assert_eq!(civil_from_days(19723), (2024, 1, 1));
    assert_eq!(civil_from_days(-719468), (0, 3, 1));
}

#[test]
fn iso8601_formats_utc_timestamps() {
    assert_eq!(iso8601_at(0), "1970-01-01T00:00:00Z");
    assert_eq!(iso8601_at(951_782_400 + 3_661), "2000-02-29T01:01:01Z");
    let now = now_iso8601();
    assert_eq!(now.len(), 20);
    assert!(now.ends_with('Z'));
}
