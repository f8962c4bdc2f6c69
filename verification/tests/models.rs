use ghostlink::models::{f32_bits_le_exec, ModelRegistry};
use ghostlink::runtime_select::{QualityTier, Runtime};

#[test]
fn test_model_registry() {
    let models = ModelRegistry::all_models();
    assert!(!models.is_empty());
    let cpu_models = ModelRegistry::models_for_runtime(Runtime::CPU);
    assert!(!cpu_models.is_empty(), "CPU models should be available");
}

#[test]
fn test_model_recommendations() {
    let recommended = ModelRegistry::recommend_models(Runtime::CPU, 8.0f32.to_bits());
    assert!(!recommended.is_empty());
}

#[test]
fn test_best_model() {
    let best = ModelRegistry::best_for_runtime(Runtime::CPU);
    assert!(best.is_some());
}

#[test]
fn test_rocm_models_include_amd_compatible_models() {
    let rocm_models = ModelRegistry::models_for_runtime(Runtime::ROCm);
    assert!(!rocm_models.is_empty(), "ROCm should have compatible models");
    let names: Vec<&str> = rocm_models.iter().map(|m| m.name.as_str()).collect();
    assert!(names.contains(&"mistral"), "mistral should be ROCm compatible");
    assert!(names.contains(&"llama2"), "llama2 should be ROCm compatible");
    assert!(names.contains(&"llama2-13b"), "llama2-13b should be ROCm compatible");
}

#[test]
fn test_rocm_best_model() {
    let best = ModelRegistry::best_for_runtime(Runtime::ROCm);
    assert!(best.is_some());
    assert_eq!(best.unwrap().quality_tier, QualityTier::Standard);
}

#[test]
fn test_rocm_model_recommendations_fit_memory() {
    let recommended = ModelRegistry::recommend_models(Runtime::ROCm, 12.0f32.to_bits());
    assert!(!recommended.is_empty());
    for model in &recommended {
        assert!(f32::from_bits(model.memory_required_gb_bits) <= 12.0);
    }
}

#[test]
fn test_rocm_recommendation_filters_by_vram() {
    let limited = ModelRegistry::recommend_models(Runtime::ROCm, 6.0f32.to_bits());
    let abundant = ModelRegistry::recommend_models(Runtime::ROCm, 48.0f32.to_bits());
    assert!(limited.len() < abundant.len(), "More VRAM should allow more models");
}

#[test]
fn catalogue_contents_and_order() {
    let models = ModelRegistry::all_models();
    assert_eq!(models.len(), 11);
    assert_eq!(models[0].name, "orca-mini");
    assert_eq!(f32::from_bits(models[0].size_gb_bits), 1.7);
    assert_eq!(models[10].name, "dolphin-mixtral");
    assert_eq!(models[10].parameters, "8x7B");
    let npu: Vec<String> = ModelRegistry::models_for_runtime(Runtime::NPU).into_iter().map(|m| m.name).collect();
    assert_eq!(npu, vec!["orca-mini", "phi", "mistral"]);
    assert_eq!(ModelRegistry::best_for_runtime(Runtime::NPU).unwrap().name, "mistral");
    let metal_premium = ModelRegistry::recommend_models(Runtime::Metal, 10.0f32.to_bits());
    assert!(metal_premium.iter().any(|m| m.name == "llama2-13b"));
    assert!(metal_premium.iter().all(|m| m.name != "mistral-medium"));
}

#[test]
fn float_bit_comparison_follows_ieee() {
    let le = |a: f32, b: f32| f32_bits_le_exec(a.to_bits(), b.to_bits());
    let cases = [0.0f32, -0.0, 1.0, -1.0, 2.5, -2.5, f32::INFINITY, f32::NEG_INFINITY, f32::NAN, f32::MIN_POSITIVE];
    for a in cases {
        for b in cases {
            assert_eq!(le(a, b), a <= b, "{a} <= {b}");
        }
    }
}
