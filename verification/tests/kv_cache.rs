use std::sync::{Arc, Mutex};
use ghostlink::kv_cache::{KVCacheConfig, LayerKvCache, DEFAULT_MAX_TOKENS_PER_SEQ};

fn small_config() -> KVCacheConfig {
    KVCacheConfig { max_tokens_per_seq: 16, num_heads: 2, hidden_dim_per_head: 4 }
}

fn bits(v: f32, n: usize) -> Vec<u32> {
    vec![v.to_bits(); n]
}

#[test]
fn initialize_rejects_zero_len() {
    let mut cache = LayerKvCache::default();
    assert_eq!(cache.initialize(0), Err("sequence length must be greater than zero".to_string()));
    assert_eq!(cache.config.max_tokens_per_seq, DEFAULT_MAX_TOKENS_PER_SEQ);
}

#[test]
fn initialize_and_round_trip() {
    let mut cache = LayerKvCache::new(small_config());
    cache.initialize(8).expect("cache should initialize");
    assert_eq!(cache.len(), 8);
    let width = cache.config.token_width();
    let keys = bits(1.0, width);
    let values = bits(2.0, width);
    cache.write_kv(2, &keys, &values).expect("write should succeed");
    let entry = cache.read_kv(2).expect("entry should exist");
    assert_eq!(entry.keys, keys);
    assert_eq!(entry.values, values);
}

#[test]
fn growing_seq_len_preserves_prior_writes() {
    let mut cache = LayerKvCache::new(small_config());
    cache.initialize(4).unwrap();
    let width = cache.config.token_width();
    let keys = bits(7.0, width);
    let values = bits(9.0, width);
    cache.write_kv(1, &keys, &values).unwrap();
    cache.initialize(10).unwrap();
    assert_eq!(cache.len(), 10);
    let entry = cache.read_kv(1).unwrap();
    assert_eq!(entry.keys, keys);
    assert_eq!(entry.values, values);
}

#[test]
fn initialize_clamps_to_the_maximum_and_never_shrinks() {
    let mut cache = LayerKvCache::new(small_config());
    cache.initialize(100).unwrap();
    assert_eq!(cache.len(), 16);
    cache.initialize(3).unwrap();
    assert_eq!(cache.len(), 16);
}

#[test]
fn write_kv_rejects_wrong_width() {
    let mut cache = LayerKvCache::new(small_config());
    cache.initialize(4).unwrap();
    let wrong_width = vec![0u32; cache.config.token_width() + 1];
    assert_eq!(
        cache.write_kv(0, &wrong_width, &wrong_width),
        Err("expected 8 elements per token (num_heads * hidden_dim_per_head), got 9".to_string())
    );
}

#[test]
fn write_kv_rejects_mismatched_lengths() {
    let mut cache = LayerKvCache::new(small_config());
    cache.initialize(4).unwrap();
    assert_eq!(cache.write_kv(0, &[0; 8], &[0; 7]), Err("keys/values length mismatch".to_string()));
}

#[test]
fn write_kv_rejects_out_of_bounds_token() {
    let mut cache = LayerKvCache::new(small_config());
    cache.initialize(4).unwrap();
    let width = cache.config.token_width();
    let data = vec![0u32; width];
    assert_eq!(cache.write_kv(999, &data, &data), Err("token index 999 out of bounds (max 16)".to_string()));
}

#[test]
fn write_kv_before_initialize_is_rejected() {
    let mut cache = LayerKvCache::new(small_config());
    let width = cache.config.token_width();
    let data = vec![0u32; width];
    assert_eq!(
        cache.write_kv(0, &data, &data),
        Err("cache not initialized \u{2014} call initialize() first".to_string())
    );
}

#[test]
fn write_extends_the_valid_length() {
    let mut cache = LayerKvCache::new(small_config());
    cache.initialize(2).unwrap();
    cache.write_kv(9, &[5; 8], &[6; 8]).unwrap();
    assert_eq!(cache.len(), 10);
    assert_eq!(cache.read_kv(9).unwrap().values, vec![6u32; 8]);
    assert_eq!(cache.read_kv(5).unwrap().keys, vec![0u32; 8]);
}

#[test]
fn read_range_returns_contiguous_data() {
    let mut cache = LayerKvCache::new(small_config());
    cache.initialize(4).unwrap();
    let width = cache.config.token_width();
    for token_idx in 0..4 {
        let keys = bits(token_idx as f32, width);
        let values = bits((token_idx * 10) as f32, width);
        cache.write_kv(token_idx, &keys, &values).unwrap();
    }
    let (keys, values) = cache.read_range(1, 3).unwrap();
    assert_eq!(keys.len(), 2 * width);
    assert_eq!(values.len(), 2 * width);
    assert_eq!(f32::from_bits(keys[0]), 1.0);
    assert_eq!(f32::from_bits(values[0]), 10.0);
    assert_eq!(f32::from_bits(keys[width]), 2.0);
    assert_eq!(f32::from_bits(values[width]), 20.0);
}

#[test]
fn read_range_rejects_end_beyond_current_len() {
    let mut cache = LayerKvCache::new(small_config());
    cache.initialize(4).unwrap();
    assert_eq!(cache.read_range(0, 100), Err("end_token 100 exceeds current length 4".to_string()));
    assert_eq!(cache.read_range(3, 2), Err("start_token must be <= end_token".to_string()));
    assert_eq!(cache.read_range(2, 2), Ok((vec![], vec![])));
}

#[test]
fn read_kv_rejects_invalid_token() {
    let mut cache = LayerKvCache::new(small_config());
    cache.initialize(4).unwrap();
    assert_eq!(cache.read_kv(4), Err("token index 4 out of bounds (current length 4)".to_string()));
}

#[test]
fn is_empty_and_len_track_initialization() {
    let mut cache = LayerKvCache::new(small_config());
    assert!(cache.is_empty());
    cache.initialize(5).unwrap();
    assert!(!cache.is_empty());
    assert_eq!(cache.len(), 5);
}

#[test]
fn clone_shares_the_same_underlying_cache() {
    let cache = Arc::new(Mutex::new(LayerKvCache::new(small_config())));
    cache.lock().unwrap().initialize(4).unwrap();
    let width = cache.lock().unwrap().config.token_width();
    let data = bits(3.0, width);

    let cache_clone = Arc::clone(&cache);
    cache_clone.lock().unwrap().write_kv(0, &data, &data).unwrap();

    // Written through the clone, visible through the first handle.
    assert_eq!(cache.lock().unwrap().read_kv(0).unwrap().keys, data);
}
