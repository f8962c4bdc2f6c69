use ghostlink::ring::{RingConfig, SpscRingBuffer};

#[test]
fn supports_fifo_push_and_pop() {
    let mut ring = SpscRingBuffer::<i32>::new(RingConfig::default());
    assert!(ring.push(1).is_ok());
    assert!(ring.push(2).is_ok());
    assert_eq!(ring.len(), 2);
    assert_eq!(ring.pop(), Some(1));
    assert_eq!(ring.pop(), Some(2));
    assert!(ring.is_empty());
}

#[test]
fn returns_full_when_capacity_is_reached() {
    let config = RingConfig { capacity: 2, backpressure_threshold: 1 };
    let mut ring = SpscRingBuffer::<i32>::new(config);
    assert!(ring.push(1).is_ok());
    assert!(ring.push(2).is_ok());
    assert_eq!(ring.push(3), Err(3));
    assert_eq!(ring.overflow_count(), 1);
}

#[test]
fn handles_wrap_around_correctly() {
    let mut ring = SpscRingBuffer::<i32>::new(RingConfig::default());
    for i in 0..1020 {
        ring.push(i).unwrap();
    }
    assert_eq!(ring.len(), 1020);
    for i in 0..1020 {
        assert_eq!(ring.pop(), Some(i));
    }
    assert!(ring.is_empty());
}

#[test]
fn wraps_past_the_end_of_the_slot_array() {
    let config = RingConfig { capacity: 3, backpressure_threshold: 2 };
    let mut ring = SpscRingBuffer::<u32>::new(config);
    for round in 0..5000u32 {
        ring.push(round).unwrap();
        ring.push(round + 1).unwrap();
        assert_eq!(ring.pop(), Some(round));
        assert_eq!(ring.pop(), Some(round + 1));
    }
    assert!(ring.is_empty());
    assert_eq!(ring.pop(), None);
    assert_eq!(ring.empty_count(), 3);
}

#[test]
fn backpressure_threshold_works() {
    let config = RingConfig { capacity: 100, backpressure_threshold: 70 };
    let mut ring = SpscRingBuffer::<i32>::new(config);
    for i in 0..69 {
        ring.push(i).unwrap();
    }
    assert!(!ring.should_backpressure());
    let result = ring.push(70);
    assert!(result.is_ok());
    assert!(ring.should_backpressure());
}

#[test]
fn wait_for_space_releases() {
    let mut ring = SpscRingBuffer::<i32>::new(RingConfig::default());
    for i in 0..1020 {
        ring.push(i).unwrap();
    }
    ring.pop();
    let result = ring.push(1021);
    assert!(result.is_ok());
}

#[test]
fn wait_for_data_releases() {
    let mut ring = SpscRingBuffer::<i32>::new(RingConfig::default());
    ring.push(42).unwrap();
    assert_eq!(ring.pop(), Some(42));
}

#[test]
fn push_batch_writes_multiple_elements() {
    let mut ring = SpscRingBuffer::<u64>::new(RingConfig::default());
    let data: Vec<u64> = (0..100).collect();
    let n = ring.push_batch(&data);
    assert_eq!(n, 100);
    assert_eq!(ring.len(), 100);
}

#[test]
fn push_batch_respects_capacity() {
    let config = RingConfig { capacity: 10, backpressure_threshold: 8 };
    let mut ring = SpscRingBuffer::<u64>::new(config);
    let data: Vec<u64> = (0..100).collect();
    let n = ring.push_batch(&data);
    assert_eq!(n, 10);
    assert_eq!(ring.len(), 10);
    assert_eq!(ring.overflow_count(), 90);
}

#[test]
fn pop_batch_reads_multiple_elements() {
    let mut ring = SpscRingBuffer::<u64>::new(RingConfig::default());
    for i in 0..50u64 {
        ring.push(i).unwrap();
    }
    let mut out = Vec::new();
    let n = ring.pop_batch(20, &mut out);
    assert_eq!(n, 20);
    assert_eq!(out, (0..20).collect::<Vec<u64>>());
    assert_eq!(ring.len(), 30);
}

#[test]
fn pop_batch_returns_available_count() {
    let mut ring = SpscRingBuffer::<u64>::new(RingConfig::default());
    for i in 0..5u64 {
        ring.push(i).unwrap();
    }
    let mut out = Vec::new();
    let n = ring.pop_batch(100, &mut out);
    assert_eq!(n, 5);
}

#[test]
fn write_read_available_tracking() {
    let config = RingConfig { capacity: 100, backpressure_threshold: 70 };
    let mut ring = SpscRingBuffer::<u64>::new(config);
    assert_eq!(ring.write_available(), 100);
    assert_eq!(ring.read_available(), 0);
    for i in 0..30u64 {
        ring.push(i).unwrap();
    }
    assert_eq!(ring.write_available(), 70);
    assert_eq!(ring.read_available(), 30);
    ring.pop();
    assert_eq!(ring.read_available(), 29);
    let wa = ring.write_available();
    assert!(wa == 70 || wa == 71, "write_available should be 70 (conservative) or 71 (true): got {wa}");
}

#[test]
fn empty_count_is_free_capacity() {
    let mut ring = SpscRingBuffer::<u8>::new(RingConfig::default());
    assert_eq!(ring.capacity(), 4095);
    assert_eq!(ring.empty_count(), 4095);
    ring.push(1).unwrap();
    ring.push(2).unwrap();
    assert_eq!(ring.empty_count(), 4093);
}
