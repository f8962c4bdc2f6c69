use std::sync::{Arc, Mutex};
use ghostlink::circuit_breaker::{CircuitBreaker, CircuitBreakerConfig, CircuitState, JitteredBackoff};

#[test]
fn circuit_starts_closed() {
    let mut cb = CircuitBreaker::new();
    assert_eq!(cb.current_state(), CircuitState::Closed);
    assert!(cb.should_attempt());
}

#[test]
fn circuit_opens_after_threshold_failures() {
    let mut cb = CircuitBreaker::new();
    for _ in 0..5 {
        cb.record_failure();
    }
    assert_eq!(cb.current_state(), CircuitState::Open);
    assert!(!cb.should_attempt());
}

#[test]
fn circuit_stays_closed_below_threshold() {
    let mut cb = CircuitBreaker::new();
    for _ in 0..4 {
        cb.record_failure();
    }
    assert_eq!(cb.current_state(), CircuitState::Closed);
    assert_eq!(cb.failure_count(), 4);
    assert!(cb.should_attempt());
}

#[test]
fn circuit_half_opens_after_timeout() {
    let config = CircuitBreakerConfig { failure_threshold: 1, open_duration_secs: 0, reset_timeout_secs: 60 };
    let mut cb = CircuitBreaker::with_config_at(config, 1_000);
    cb.record_failure_at(1_000);
    assert_eq!(cb.current_state(), CircuitState::Open);
    assert!(cb.should_attempt_at(1_100));
    assert_eq!(cb.current_state(), CircuitState::HalfOpen);
}

#[test]
fn circuit_closes_on_successful_probe() {
    let config = CircuitBreakerConfig { failure_threshold: 1, open_duration_secs: 0, reset_timeout_secs: 0 };
    let mut cb = CircuitBreaker::with_config_at(config, 1_000);
    cb.record_failure_at(1_000);
    assert_eq!(cb.current_state(), CircuitState::Open);
    assert!(cb.should_attempt_at(1_100));
    assert_eq!(cb.current_state(), CircuitState::HalfOpen);
    cb.record_success_at(1_200);
    assert_eq!(cb.current_state(), CircuitState::Closed);
    assert_eq!(cb.failure_count(), 0);
}

#[test]
fn half_open_grants_probe_to_exactly_one_concurrent_caller() {
    let config = CircuitBreakerConfig { failure_threshold: 1, open_duration_secs: 0, reset_timeout_secs: 60 };
    let cb = Arc::new(Mutex::new(CircuitBreaker::with_config_at(config, 0)));
    cb.lock().unwrap().record_failure_at(0);
    assert_eq!(cb.lock().unwrap().current_state(), CircuitState::Open);

    // Sixteen callers, each with its own handle to the shared breaker.
    let handles: Vec<_> = (0..16).map(|_| Arc::clone(&cb)).collect();
    let granted = handles.iter().filter(|h| h.lock().unwrap().should_attempt_at(50)).count();
    assert_eq!(granted, 1, "exactly one concurrent caller should win the half-open probe slot");
    assert_eq!(cb.lock().unwrap().current_state(), CircuitState::HalfOpen);
}

#[test]
fn failed_probe_reopens_the_circuit() {
    let config = CircuitBreakerConfig { failure_threshold: 1, open_duration_secs: 10, reset_timeout_secs: 60 };
    let mut cb = CircuitBreaker::with_config_at(config, 0);
    cb.record_failure_at(0);
    assert!(!cb.should_attempt_at(9_999));
    assert!(!cb.should_attempt_at(10_000), "the open window includes its last millisecond");
    assert!(cb.should_attempt_at(10_001));
    cb.record_failure_at(10_001);
    assert_eq!(cb.current_state(), CircuitState::Open);
    assert!(!cb.should_attempt_at(10_002));
}

#[test]
fn reset_closes_and_clears_failures() {
    let mut cb = CircuitBreaker::with_config_at(CircuitBreakerConfig::default(), 0);
    for _ in 0..5 {
        cb.record_failure_at(5);
    }
    assert_eq!(cb.current_state(), CircuitState::Open);
    cb.reset_at(20);
    assert_eq!(cb.current_state(), CircuitState::Closed);
    assert_eq!(cb.failure_count(), 0);
    assert_eq!(cb.time_since_last_failure_at(25), 5);
}

#[test]
fn state_codes_decode() {
    assert_eq!(CircuitState::from_u8(0), CircuitState::Closed);
    assert_eq!(CircuitState::from_u8(1), CircuitState::Open);
    assert_eq!(CircuitState::from_u8(2), CircuitState::HalfOpen);
}

#[test]
fn jittered_backoff_increases() {
    let mut backoff = JitteredBackoff::new();
    let backoff1 = backoff.next_backoff();
    let backoff2 = backoff.next_backoff();
    let backoff3 = backoff.next_backoff();
    assert!(backoff1 >= 100 && backoff1 <= 220);
    assert!(backoff2 >= 200 && backoff2 <= 440);
    assert!(backoff3 >= 400 && backoff3 <= 880);
}

#[test]
fn jittered_backoff_has_jitter() {
    let mut backoffs = Vec::new();
    for _ in 0..10 {
        backoffs.push(JitteredBackoff::new().next_backoff());
    }
    let min = *backoffs.iter().min().unwrap();
    let max = *backoffs.iter().max().unwrap();
    assert!(max > min, "Jitter should produce different values");
}

#[test]
fn backoff_is_capped_and_resets() {
    let mut backoff = JitteredBackoff::with_max_backoff(300);
    for _ in 0..10 {
        let ms = backoff.next_backoff();
        assert!(ms <= 300 + 300 / 10 + 100, "got {ms}");
    }
    backoff.reset();
    let first = backoff.next_backoff();
    assert!(first >= 100 && first <= 220);
}

#[test]
fn circuit_breaker_is_cloneable() {
    // A breaker shared between callers is one value behind `Arc<Mutex<_>>`;
    // every clone of the handle sees the same counter and state.
    let cb1 = Arc::new(Mutex::new(CircuitBreaker::new()));
    cb1.lock().unwrap().record_failure();
    let cb2 = Arc::clone(&cb1);

    assert_eq!(cb2.lock().unwrap().failure_count(), 1);
    cb2.lock().unwrap().record_failure();
    assert_eq!(cb1.lock().unwrap().failure_count(), 2);
}

#[test]
fn shared_breaker_reset_is_seen_by_every_handle() {
    let cb = Arc::new(Mutex::new(CircuitBreaker::with_config_at(
        CircuitBreakerConfig { failure_threshold: 1, open_duration_secs: 30, reset_timeout_secs: 60 },
        0,
    )));
    let other = Arc::clone(&cb);
    cb.lock().unwrap().record_failure_at(0);
    assert_eq!(other.lock().unwrap().current_state(), CircuitState::Open);
    cb.lock().unwrap().reset_at(10);
    assert_eq!(other.lock().unwrap().current_state(), CircuitState::Closed);
    assert_eq!(other.lock().unwrap().failure_count(), 0);
}
