use ghostlink::number::{parse_decimal, parse_usize};
use ghostlink::request_tracker::{clamp_slots, drain_step, initial_slots, DrainStep, RequestCounters, SlotChange};
use ghostlink::switcher::{unavailable_backend_error, ComputeBackend, SwitchResult};

#[test]
fn test_request_tracker_increment_decrement() {
    let mut tracker = RequestCounters::new(initial_slots(None));
    assert_eq!(tracker.get_count(), 0);
    tracker.increment();
    assert_eq!(tracker.get_count(), 1);
    tracker.increment();
    assert_eq!(tracker.get_count(), 2);
    tracker.decrement();
    assert_eq!(tracker.get_count(), 1);
    tracker.decrement();
    assert_eq!(tracker.get_count(), 0);
    tracker.decrement();
    assert_eq!(tracker.get_count(), 0, "never below zero");
}

#[test]
fn test_request_tracker_drain_immediate() {
    assert_eq!(drain_step(0, 0, 5_000), DrainStep::Drained);
}

#[test]
fn test_request_tracker_drain_timeout() {
    match drain_step(1, 101, 100) {
        DrainStep::TimedOut(m) => {
            assert!(m.contains("Request drain timeout"));
            assert_eq!(m, "Request drain timeout: 1 requests still in-flight");
        }
        other => panic!("expected a timeout, got {other:?}"),
    }
    assert_eq!(drain_step(1, 100, 100), DrainStep::Wait);
}

#[test]
fn test_request_tracker_default_slot_capacity_is_one() {
    let tracker = RequestCounters::new(initial_slots(None));
    assert_eq!(tracker.slot_capacity(), 1);
    // The only slot is taken: nothing else may start.
    assert_eq!(tracker.queue_depth(0), 0);
}

#[test]
fn test_request_tracker_reads_initial_capacity_from_env() {
    assert_eq!(initial_slots(Some("3")), 3);
    assert_eq!(initial_slots(Some(" 12 ")), 12);
    assert_eq!(initial_slots(Some("0")), 1);
    assert_eq!(initial_slots(Some("500")), 64);
    assert_eq!(initial_slots(Some("many")), 1);
    assert_eq!(initial_slots(Some("-2")), 1);
}

#[test]
fn test_request_tracker_resize_slots_grows_and_shrinks() {
    let mut tracker = RequestCounters::new(initial_slots(None));
    assert_eq!(tracker.slot_capacity(), 1);
    assert_eq!(tracker.resize_slots(4), SlotChange::Add(3));
    assert_eq!(tracker.slot_capacity(), 4);
    assert_eq!(tracker.resize_slots(1), SlotChange::Forget(3));
    assert_eq!(tracker.slot_capacity(), 1);
    assert_eq!(tracker.resize_slots(0), SlotChange::Unchanged);
    assert_eq!(tracker.resize_slots(1000), SlotChange::Add(63));
    assert_eq!(clamp_slots(65), 64);
}

#[test]
fn test_request_tracker_queue_depth_reflects_admitted_but_unslotted_requests() {
    let mut tracker = RequestCounters::new(1);
    assert_eq!(tracker.queue_depth(1), 0);
    tracker.increment();
    tracker.increment();
    tracker.increment();
    // One slot held (no free permit): two requests wait.
    assert_eq!(tracker.queue_depth(0), 2);
    // Slot free again: all three count as waiting.
    assert_eq!(tracker.queue_depth(1), 3);
}

#[test]
fn parse_usize_and_bounded_decimals() {
    assert_eq!(parse_usize("64"), Some(64));
    assert_eq!(parse_usize("+1"), Some(1));
    assert_eq!(parse_usize(" 1"), None);
    assert_eq!(parse_decimal("255", 255), Some(255));
    assert_eq!(parse_decimal("256", 255), None);
    assert_eq!(parse_decimal("18446744073709551615", u64::MAX), Some(u64::MAX));
    assert_eq!(parse_decimal("18446744073709551616", u64::MAX), None);
}

#[test]
fn switch_results_and_errors() {
    let r = SwitchResult::switched(ComputeBackend::Rocm, 4, true);
    assert_eq!(r.backend, "rocm");
    assert_eq!(r.env_vars_updated, 4);
    assert_eq!(r.in_flight_drained, 0);
    assert_eq!(r.message, "Successfully switched to rocm backend (restart required)");
    let q = SwitchResult::switched(ComputeBackend::Cpu, 2, false);
    assert_eq!(q.message, "Successfully switched to cpu backend");
    assert_eq!(unavailable_backend_error(ComputeBackend::Metal), "Target backend metal not available");
}
