use std::cell::RefCell;
use std::sync::{Arc, Mutex};
use ghostlink::api_response_cache::{compute_etag, ApiResponseCache};

#[test]
fn cache_miss_computes_value() {
    let mut cache = ApiResponseCache::new();
    let body = b"response data".to_vec();
    let body_clone = body.clone();
    let (result, etag) = cache.get_or_compute("test", 60_000, || Ok(body_clone)).unwrap();
    assert_eq!(result.as_slice(), body.as_slice());
    assert!(!etag.is_empty());
}

#[test]
fn cache_hit_reuses() {
    let mut cache = ApiResponseCache::new();
    let body1 = b"response1".to_vec();
    let body1_clone = body1.clone();
    let (result1, etag1) = cache.get_or_compute("test", 60_000, || Ok(body1_clone)).unwrap();
    let (result2, etag2) = cache.get_or_compute("test", 60_000, || Ok(b"response2".to_vec())).unwrap();
    assert_eq!(result1, result2);
    assert_eq!(etag1, etag2);
    assert_eq!(cache.stats().cache_hits, 1);
}

#[test]
fn etag_match_detection() {
    let mut cache = ApiResponseCache::new();
    let body = b"data".to_vec();
    let body_clone = body.clone();
    let (_result, etag) = cache.get_or_compute("test", 60_000, || Ok(body_clone)).unwrap();
    assert!(cache.etag_matches("test", &etag));
    assert!(!cache.etag_matches("test", "wrong-etag"));
}

#[test]
fn expiration_and_recompute() {
    let mut cache = ApiResponseCache::new();
    cache.get_or_compute_at("test", 5, 1_000, || Ok(b"data1".to_vec())).unwrap();
    let (result2, _etag2) = cache.get_or_compute_at("test", 60_000, 1_050, || Ok(b"data2".to_vec())).unwrap();
    assert_eq!(result2.as_slice(), b"data2");
}

#[test]
fn entry_is_fresh_until_its_expiry() {
    let mut cache = ApiResponseCache::new();
    cache.get_or_compute_at("k", 100, 1_000, || Ok(b"first".to_vec())).unwrap();
    let (hit, _) = cache.get_or_compute_at("k", 100, 1_099, || Ok(b"second".to_vec())).unwrap();
    assert_eq!(hit.as_slice(), b"first");
    let (miss, _) = cache.get_or_compute_at("k", 100, 1_100, || Ok(b"second".to_vec())).unwrap();
    assert_eq!(miss.as_slice(), b"second");
    let stats = cache.stats();
    assert_eq!(stats.total_requests, 3);
    assert_eq!(stats.cache_hits, 1);
    assert_eq!(stats.cache_misses, 2);
}

#[test]
fn compute_error_is_returned_and_nothing_is_cached() {
    let mut cache = ApiResponseCache::new();
    let r = cache.get_or_compute_at("k", 100, 0, || Err("backend down".to_string()));
    assert_eq!(r, Err("backend down".to_string()));
    assert_eq!(cache.size(), 0);
    assert_eq!(cache.stats().cache_misses, 1);
}

#[test]
fn statistics_tracking() {
    let mut cache = ApiResponseCache::new();
    for i in 0..5 {
        let body = format!("response{}", i).into_bytes();
        cache.get_or_compute(&format!("endpoint{}", i), 60_000, || Ok(body)).unwrap();
    }
    let stats = cache.stats();
    assert_eq!(stats.total_requests, 5);
    assert_eq!(stats.cache_misses, 5);
    assert_eq!(stats.cache_hits, 0);
}

#[test]
fn pre_warm_populates() {
    let mut cache = ApiResponseCache::new();
    cache
        .pre_warm(vec![("models", 60_000), ("runtime", 300_000)], |_key| Ok(b"warm data".to_vec()))
        .unwrap();
    assert_eq!(cache.size(), 2);
}

#[test]
fn pre_warm_stops_at_first_error() {
    let mut cache = ApiResponseCache::new();
    let called = RefCell::new(Vec::new());
    let r = cache.pre_warm(vec![("a", 60_000), ("b", 60_000), ("c", 60_000)], |key| {
        called.borrow_mut().push(key.to_string());
        if key == "b" { Err("boom".to_string()) } else { Ok(b"x".to_vec()) }
    });
    assert_eq!(r, Err("boom".to_string()));
    assert_eq!(cache.size(), 1);
    assert_eq!(called.into_inner(), vec!["a".to_string(), "b".to_string()]);
    let stats = cache.stats();
    assert_eq!(stats.total_requests, 2);
    assert_eq!(stats.cache_misses, 2);
}

#[test]
fn pre_warm_serves_fresh_entries_from_the_cache() {
    let mut cache = ApiResponseCache::new();
    cache.get_or_compute_at("a", 1_000, 0, || Ok(b"first".to_vec())).unwrap();
    let r = cache.pre_warm_at(vec![("a", 1_000), ("b", 1_000)], 10, |_key| Ok(b"second".to_vec()));
    assert_eq!(r, Ok(()));
    let (body, _) = cache.get_or_compute_at("a", 1_000, 20, || Ok(b"third".to_vec())).unwrap();
    assert_eq!(body, b"first".to_vec());
    let stats = cache.stats();
    assert_eq!(stats.cache_hits, 2);
    assert_eq!(stats.cache_misses, 2);
}

#[test]
fn clone_shares_state() {
    // A shared cache is one value behind `Arc<Mutex<_>>`; cloning the
    // handle shares it.
    let cache1 = Arc::new(Mutex::new(ApiResponseCache::new()));
    cache1.lock().unwrap().get_or_compute("test", 60_000, || Ok(b"data".to_vec())).unwrap();

    let cache2 = Arc::clone(&cache1);
    let size1 = cache1.lock().unwrap().size();
    let size2 = cache2.lock().unwrap().size();
    assert_eq!(size1, size2);
    assert_eq!(size2, 1);
}

#[test]
fn clear_empties_the_cache_and_zeroes_stats() {
    let mut cache = ApiResponseCache::new();
    cache.get_or_compute_at("a", 10, 0, || Ok(b"x".to_vec())).unwrap();
    cache.record_etag_hit();
    cache.clear();
    assert_eq!(cache.size(), 0);
    assert_eq!(cache.stats().etag_hits, 0);
    assert_eq!(cache.stats().total_requests, 0);
}

#[test]
fn etag_is_weak_and_depends_on_the_body() {
    let a = compute_etag(b"data");
    let b = compute_etag(b"data");
    let c = compute_etag(b"other");
    assert_eq!(a, b);
    assert_ne!(a, c);
    assert!(a.starts_with("W/\"") && a.ends_with("-4\""), "{a}");
}
