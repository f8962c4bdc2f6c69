use ghostlink::host::{infer_compute_capability_from_name, is_apple_silicon, AccelerationMode, GpuBackend, ProbeMode};
use ghostlink::mdns::{sanitize_instance_name, MDNS_SERVICE_TYPE};
use ghostlink::runtime_select::{Runtime, RuntimeDetector};
use ghostlink::schedule::{build_token_schedule, DeviceKind, TcpTransportConfig, TokenStep, TransportKind};
use ghostlink::switcher::{ComputeBackend, EnvironmentManager, SwitchingConfig};
use ghostlink::system_profile::{compute_recommended_workers, infer_backend, pick_acceleration_mode, CpuFeatures, CpuInfo, GpuTraits};
use ghostlink::vllm::normalize_base_url;

#[test]
fn test_runtime_always_detected() {
    // With nothing detected, CPU is the fallback.
    let primary = RuntimeDetector::detect_primary(None, None, &[]);
    let valid = matches!(
        primary,
        Runtime::CPU | Runtime::DirectML | Runtime::CUDA | Runtime::ROCm | Runtime::Metal | Runtime::NPU
    );
    assert!(valid, "A runtime should always be detected");
    assert_eq!(primary, Runtime::CPU);
}

#[test]
fn test_runtime_from_str_parsing() {
    assert_eq!("cuda".parse::<Runtime>().unwrap(), Runtime::CUDA);
    assert_eq!("RoCm".parse::<Runtime>().unwrap(), Runtime::ROCm);
    assert_eq!("DirectML".parse::<Runtime>().unwrap(), Runtime::DirectML);
    assert_eq!("npu".parse::<Runtime>().unwrap(), Runtime::NPU);
    assert_eq!("cpu".parse::<Runtime>().unwrap(), Runtime::CPU);
    assert!("unknown".parse::<Runtime>().is_err());
}

#[test]
fn runtime_parse_error_names_the_value() {
    assert_eq!(Runtime::parse("  TPU "), Err("unknown runtime 'tpu'".to_string()));
    assert_eq!(Runtime::parse(" Apple "), Ok(Runtime::Metal));
    assert_eq!(Runtime::CUDA.label(), "CUDA (NVIDIA GPU)");
}

#[test]
fn test_runtime_override_force_ignores_detection() {
    let runtime = RuntimeDetector::detect_primary(Some("metal"), Some("true"), &[Runtime::CUDA, Runtime::CPU]);
    assert_eq!(runtime, Runtime::Metal);
}

#[test]
fn test_runtime_override_falls_back_when_not_forced() {
    let runtime = RuntimeDetector::detect_primary(Some("metal"), None, &[Runtime::CUDA, Runtime::CPU]);
    assert_eq!(runtime, Runtime::CUDA);
    let present = RuntimeDetector::detect_primary(Some("cpu"), Some("no"), &[Runtime::CUDA, Runtime::CPU]);
    assert_eq!(present, Runtime::CPU);
    let unparsable = RuntimeDetector::detect_primary(Some("tpu"), Some("1"), &[Runtime::ROCm]);
    assert_eq!(unparsable, Runtime::ROCm);
}

#[test]
fn test_switching_config_default() {
    let config = SwitchingConfig::default();
    assert_eq!(config.request_drain_timeout_secs, 30);
    assert!(config.auto_restart_client);
    assert!(config.backend_env_vars.contains_key("rocm"));
    assert!(config.backend_env_vars.contains_key("cuda"));
    assert!(config.backend_env_vars.contains_key("cpu"));
}

#[test]
fn test_environment_manager_get_env() {
    let config = SwitchingConfig::default();
    let manager = EnvironmentManager::new(config);
    let rocm_env = manager.get_backend_env(&ComputeBackend::Rocm);
    assert!(rocm_env.is_some());
    let env = rocm_env.unwrap();
    assert_eq!(env.get("HSA_OVERRIDE_GFX_VERSION").unwrap(), "gfx906");
    assert_eq!(env.get("HIP_PLATFORM").unwrap(), "amd");
}

#[test]
fn test_backend_without_env_config_is_not_an_error() {
    let config = SwitchingConfig::default();
    assert!(!config.backend_env_vars.contains_key("metal"));
    let manager = EnvironmentManager::new(config);
    assert!(manager.get_backend_env(&ComputeBackend::Metal).is_none());
}

#[test]
fn cpu_backend_env_has_thread_and_memory_settings() {
    let manager = EnvironmentManager::new(SwitchingConfig::default());
    let env = manager.get_backend_env(&ComputeBackend::Cpu).unwrap();
    assert_eq!(env.get("OLLAMA_NUM_THREAD").unwrap(), "16");
    assert_eq!(env.get("OLLAMA_GPU_MEMORY").unwrap(), "0");
    assert_eq!(env.len(), 2);
    assert_eq!(ComputeBackend::Cpu.as_str(), "cpu");
}

#[test]
fn strips_trailing_v1_segment() {
    assert_eq!(normalize_base_url("http://127.0.0.1:8000/v1/"), "http://127.0.0.1:8000");
    assert_eq!(normalize_base_url("http://127.0.0.1:8000"), "http://127.0.0.1:8000");
}

#[test]
fn normalize_base_url_trims_and_strips_slashes() {
    assert_eq!(normalize_base_url("  http://h:1/v1  "), "http://h:1");
    assert_eq!(normalize_base_url("http://h:1///"), "http://h:1");
    assert_eq!(normalize_base_url("http://h:1/v2/"), "http://h:1/v2");
}

#[test]
fn sanitize_instance_name_collapses_dots() {
    assert_eq!(sanitize_instance_name("workstation.local"), "workstation-local");
    assert_eq!(sanitize_instance_name("node-a"), "node-a");
    assert_eq!(MDNS_SERVICE_TYPE, "_ghostlink._tcp.local.");
}

#[test]
fn schedule_size_matches_tokens_times_stages() {
    let schedule = build_token_schedule(3, 4);
    assert_eq!(schedule.len(), 12);
    assert_eq!(schedule[0], TokenStep { token_idx: 0, stage_idx: 0 });
    assert_eq!(schedule[11], TokenStep { token_idx: 3, stage_idx: 2 });
}

#[test]
fn schedule_is_token_major() {
    let schedule = build_token_schedule(2, 3);
    assert_eq!(schedule[3], TokenStep { token_idx: 1, stage_idx: 1 });
    assert_eq!(build_token_schedule(0, 5).len(), 0);
}

#[test]
fn transport_defaults() {
    let config = TcpTransportConfig::default();
    assert_eq!(config.max_inflight_batches, 512);
    assert_eq!(config.transport, TransportKind::Tcp);
    assert_eq!(config.send_buffer_size, 262144);
    assert_eq!(DeviceKind::Npu.as_str(), "NPU");
}

#[test]
fn infers_compute_capability_from_gpu_name() {
    assert_eq!(infer_compute_capability_from_name("RTX 4090"), "8.9");
    assert_eq!(infer_compute_capability_from_name("Arc A770"), "xe");
    assert_eq!(infer_compute_capability_from_name("AMD Radeon RX 7900 XTX"), "gpu");
}

#[test]
fn infer_backend_rocm() {
    let b = infer_backend("AMD Radeon RX 7900 XTX", "rocm");
    assert_eq!(b, GpuBackend::Rocm);
}

#[test]
fn infer_backend_cuda() {
    let b = infer_backend("NVIDIA GeForce RTX 4090", "8.9");
    assert_eq!(b, GpuBackend::Cuda);
}

#[test]
fn infer_backend_metal() {
    let b = infer_backend("Apple M3 Max", "apple_metal");
    assert_eq!(b, GpuBackend::Metal);
}

fn cpu(cores: usize) -> CpuInfo {
    CpuInfo {
        brand: String::new(),
        logical_cores: cores,
        physical_cores: cores / 2,
        arch: "x86_64".to_string(),
        features: CpuFeatures::default(),
    }
}

#[test]
fn compute_workers_scales_with_gpus() {
    let c = cpu(16);
    let gpus = vec![
        GpuTraits { backend: GpuBackend::Cuda, named: true, has_vram: true, large_vram: true },
        GpuTraits { backend: GpuBackend::Cuda, named: true, has_vram: true, large_vram: true },
    ];
    let accel = pick_acceleration_mode(&gpus, &c);
    assert_eq!(accel, AccelerationMode::Gpu);
    let workers = compute_recommended_workers(&c, 16, &gpus, accel);
    assert!(workers > 0);
    // 15 (one core reserved of 16) min 16 (64 GB / 4) = 15, + VRAM bonus (2) + extra GPU (1).
    assert_eq!(workers, 18);
}

#[test]
fn labels_of_host_vocabulary() {
    assert_eq!(AccelerationMode::Avx512.as_str(), "AVX-512");
    assert_eq!(GpuBackend::Directml.as_str(), "directml");
    assert_eq!(ProbeMode::Full.as_str(), "full");
    assert_eq!(AccelerationMode::default(), AccelerationMode::Gpu);
}

#[test]
fn apple_silicon_flag_follows_the_sysctl_output() {
    assert!(is_apple_silicon(Some("hw.optional.arm64: 1\n")));
    assert!(!is_apple_silicon(Some("hw.optional.arm64: 0\n")));
    assert!(!is_apple_silicon(Some("")));
    assert!(!is_apple_silicon(None));
}
