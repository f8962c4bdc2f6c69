//! Single-producer/single-consumer ring buffer with backpressure
//! accounting.
//!
//! Storage is a fixed array of `RING_CAPACITY` slots indexed by a head and a
//! tail position; the configured capacity (strictly below the slot count)
//! bounds how many elements may be queued. Each side keeps a cached copy of
//! the other side's position and only refreshes it when the cached value
//! says the ring is full (producer) or empty (consumer).

use vstd::prelude::*;

verus! {

/// Number of slots (positions are taken modulo this).
pub const RING_CAPACITY: usize = 4096;

/// Ring buffer configuration with backpressure thresholds.
#[derive(Clone, Copy, Debug)]
pub struct RingConfig {
    /// Maximum number of elements the ring can hold.
    pub capacity: usize,
    /// Queue length at which producers should back off.
    pub backpressure_threshold: usize,
}

impl Default for RingConfig {
    fn default() -> (c: RingConfig)
        ensures
            c.capacity == 4095,
            c.backpressure_threshold == 2867,
    {
        RingConfig { capacity: 4095, backpressure_threshold: 2867 }
    }
}

/// Distance from position `a` forward to position `b` on the ring.
pub open spec fn dist(a: int, b: int) -> int {
    if b >= a {
        b - a
    } else {
        b + RING_CAPACITY - a
    }
}

/// The slot `i` places after position `p`.
pub open spec fn slot_at(p: int, i: int) -> int {
    if p + i < RING_CAPACITY {
        p + i
    } else {
        p + i - RING_CAPACITY
    }
}

/// Single-producer/single-consumer ring buffer.
pub struct SpscRingBuffer<T> {
    slots: Vec<Option<T>>,
    head: usize,
    cached_tail: usize,
    tail: usize,
    cached_head: usize,
    overflow_count: usize,
    config: RingConfig,
}

impl<T> SpscRingBuffer<T> {
    /// Internal consistency of the ring.
    pub closed spec fn wf(&self) -> bool {
        &&& self.slots@.len() == RING_CAPACITY
        &&& self.head < RING_CAPACITY
        &&& self.tail < RING_CAPACITY
        &&& self.cached_head < RING_CAPACITY
        &&& self.cached_tail < RING_CAPACITY
        &&& self.config.capacity < RING_CAPACITY
        &&& dist(self.cached_head as int, self.head as int) + dist(self.head as int, self.tail as int)
            == dist(self.cached_head as int, self.tail as int)
        &&& dist(self.cached_head as int, self.tail as int) <= self.config.capacity
        &&& dist(self.head as int, self.cached_tail as int) + dist(
            self.cached_tail as int,
            self.tail as int,
        ) == dist(self.head as int, self.tail as int)
        &&& forall|i: int|
            0 <= i < dist(self.head as int, self.tail as int) ==> (#[trigger] self.slots@[slot_at(
                self.head as int,
                i,
            )]) is Some
    }

    /// The queued elements, oldest first.
    pub closed spec fn items(&self) -> Seq<T> {
        Seq::new(
            dist(self.head as int, self.tail as int) as nat,
            |i: int| self.slots@[slot_at(self.head as int, i)]->Some_0,
        )
    }

    /// Queue length as the producer currently believes it (never less than
    /// the true length; refreshed when it reaches the capacity).
    pub closed spec fn producer_len(&self) -> nat {
        dist(self.cached_head as int, self.tail as int) as nat
    }

    /// Elements the consumer currently believes are available (never more
    /// than the true length; refreshed when it reaches zero).
    pub closed spec fn consumer_len(&self) -> nat {
        dist(self.head as int, self.cached_tail as int) as nat
    }

    /// Configured capacity.
    pub closed spec fn spec_capacity(&self) -> nat {
        self.config.capacity as nat
    }

    /// Configured backpressure threshold.
    pub closed spec fn spec_threshold(&self) -> nat {
        self.config.backpressure_threshold as nat
    }

    /// Number of elements rejected so far (wrapping).
    pub closed spec fn spec_overflow(&self) -> usize {
        self.overflow_count
    }

    /// The bounds the consistency invariant gives to observers.
    pub proof fn lemma_wf_bounds(&self)
        requires
            self.wf(),
        ensures
            self.items().len() <= self.producer_len() <= self.spec_capacity(),
            self.consumer_len() <= self.items().len(),
            self.spec_capacity() < RING_CAPACITY,
    {
    }

    /// Create an empty ring; the configured capacity must be below
    /// `RING_CAPACITY`.
    pub fn new(config: RingConfig) -> (r: SpscRingBuffer<T>)
        requires
            config.capacity < RING_CAPACITY,
        ensures
            r.wf(),
            r.items() == Seq::<T>::empty(),
            r.producer_len() == 0,
            r.consumer_len() == 0,
            r.spec_capacity() == config.capacity,
            r.spec_threshold() == config.backpressure_threshold,
            r.spec_overflow() == 0,
    {
        let mut slots: Vec<Option<T>> = Vec::with_capacity(RING_CAPACITY);
        let mut k: usize = 0;
        while k < RING_CAPACITY
            invariant
                k <= RING_CAPACITY,
                slots@.len() == k,
            decreases RING_CAPACITY - k,
        {
            slots.push(None);
            k += 1;
        }
        let r = SpscRingBuffer {
            slots,
            head: 0,
            cached_tail: 0,
            tail: 0,
            cached_head: 0,
            overflow_count: 0,
            config,
        };
        proof {
            assert(r.items() =~= Seq::<T>::empty());
        }
        r
    }

    fn distance(a: usize, b: usize) -> (d: usize)
        requires
            a < RING_CAPACITY,
            b < RING_CAPACITY,
        ensures
            d == dist(a as int, b as int),
    {
        if b >= a {
            b - a
        } else {
            b + RING_CAPACITY - a
        }
    }

    fn advance(p: usize, n: usize) -> (q: usize)
        requires
            p < RING_CAPACITY,
            n < RING_CAPACITY,
        ensures
            q == slot_at(p as int, n as int),
            q < RING_CAPACITY,
    {
        if p + n < RING_CAPACITY {
            p + n
        } else {
            p + n - RING_CAPACITY
        }
    }


    /// Append at the tail; the producer's view of the length must be below
    /// the capacity.
    fn append_unchecked(&mut self, value: T)
        requires
            old(self).wf(),
            old(self).producer_len() < old(self).spec_capacity(),
        ensures
            final(self).wf(),
            final(self).items() == old(self).items().push(value),
            final(self).producer_len() == old(self).producer_len() + 1,
            final(self).consumer_len() == old(self).consumer_len(),
            final(self).config == old(self).config,
            final(self).overflow_count == old(self).overflow_count,
    {
        let ghost old_items = self.items();
        let tail = self.tail;
        let next_tail = Self::advance(tail, 1);
        self.slots.set(tail, Some(value));
        self.tail = next_tail;
        proof {
            assert(slot_at(self.head as int, old_items.len() as int) == tail);
            assert forall|i: int| 0 <= i < dist(self.head as int, self.tail as int) implies (
            #[trigger] self.slots@[slot_at(self.head as int, i)]) is Some by {
                if i < old_items.len() {
                    assert(slot_at(self.head as int, i) != tail as int);
                }
            }
            assert forall|i: int| 0 <= i < old_items.len() implies self.slots@[slot_at(
                self.head as int,
                i,
            )] == old(self).slots@[slot_at(self.head as int, i)] by {
                assert(slot_at(self.head as int, i) != tail as int);
            }
            assert(self.items() =~= old_items.push(value));
        }
    }

    /// Remove the element at the head; the consumer's view must be
    /// non-empty.
    fn take_front(&mut self) -> (v: T)
        requires
            old(self).wf(),
            old(self).consumer_len() > 0,
        ensures
            final(self).wf(),
            v == old(self).items()[0],
            final(self).items() == old(self).items().drop_first(),
            final(self).consumer_len() == old(self).consumer_len() - 1,
            final(self).producer_len() == old(self).producer_len(),
            final(self).config == old(self).config,
            final(self).overflow_count == old(self).overflow_count,
    {
        let head = self.head;
        let ghost old_items = self.items();
        let ghost old_slots = self.slots@;
        proof {
            assert(slot_at(head as int, 0) == head);
            assert(old_slots[head as int] is Some);
        }
        let value = self.slots[head].take();
        self.head = Self::advance(head, 1);
        proof {
            assert forall|i: int| 0 <= i < dist(self.head as int, self.tail as int) implies (
            #[trigger] self.slots@[slot_at(self.head as int, i)]) is Some by {
                assert(slot_at(self.head as int, i) == slot_at(head as int, i + 1));
                assert(old_slots[slot_at(head as int, i + 1)] is Some);
            }
            assert forall|i: int|
                0 <= i < dist(self.head as int, self.tail as int) implies self.slots@[slot_at(
                self.head as int,
                i,
            )] == old_slots[slot_at(head as int, i + 1)] by {
                assert(slot_at(self.head as int, i) == slot_at(head as int, i + 1));
            }
            assert(self.items() =~= old_items.drop_first());
        }
        value.unwrap()
    }

    /// Push an element. Succeeds exactly when fewer than `capacity`
    /// elements are queued; otherwise the element is handed back and the
    /// overflow counter grows by one.
    pub fn push(&mut self, value: T) -> (r: Result<(), T>)
        requires
            old(self).wf(),
        ensures
            final(self).wf(),
            final(self).spec_capacity() == old(self).spec_capacity(),
            final(self).spec_threshold() == old(self).spec_threshold(),
            final(self).consumer_len() == old(self).consumer_len(),
            r is Ok <==> old(self).items().len() < old(self).spec_capacity(),
            r is Ok ==> final(self).items() == old(self).items().push(value)
                && final(self).spec_overflow() == old(self).spec_overflow()
                && final(self).producer_len() == (if old(self).producer_len() < old(self).spec_capacity() {
                    old(self).producer_len() + 1
                } else {
                    old(self).items().len() + 1
                }),
            r matches Err(v) ==> v == value && final(self).items() == old(self).items()
                && final(self).spec_overflow() == old(self).spec_overflow().wrapping_add(1)
                && final(self).producer_len() == old(self).items().len(),
    {
        let tail = self.tail;
        let mut current = Self::distance(self.cached_head, tail);
        if current >= self.config.capacity {
            self.cached_head = self.head;
            current = Self::distance(self.head, tail);
            if current >= self.config.capacity {
                self.overflow_count = self.overflow_count.wrapping_add(1);
                return Err(value);
            }
        }
        self.append_unchecked(value);
        Ok(())
    }

    /// Pop the oldest element, or `None` when the ring is empty.
    pub fn pop(&mut self) -> (r: Option<T>)
        requires
            old(self).wf(),
        ensures
            final(self).wf(),
            final(self).spec_capacity() == old(self).spec_capacity(),
            final(self).spec_threshold() == old(self).spec_threshold(),
            final(self).spec_overflow() == old(self).spec_overflow(),
            final(self).producer_len() == old(self).producer_len(),
            r is Some <==> old(self).items().len() > 0,
            r matches Some(v) ==> v == old(self).items()[0] && final(self).items() == old(
                self,
            ).items().drop_first() && final(self).consumer_len() == (if old(self).consumer_len() > 0 {
                old(self).consumer_len() - 1
            } else {
                old(self).items().len() - 1
            }),
            r is None ==> final(self).items() == old(self).items() && final(self).consumer_len() == 0,
    {
        let head = self.head;
        if head == self.cached_tail {
            self.cached_tail = self.tail;
            if head == self.cached_tail {
                return None;
            }
        }
        Some(self.take_front())
    }

    /// Number of queued elements.
    pub fn len(&self) -> (n: usize)
        requires
            self.wf(),
        ensures
            n == self.items().len(),
    {
        Self::distance(self.head, self.tail)
    }

    /// Whether the ring is empty (refreshes the consumer's view when it
    /// believes so).
    pub fn is_empty(&mut self) -> (b: bool)
        requires
            old(self).wf(),
        ensures
            final(self).wf(),
            b == (old(self).items().len() == 0),
            final(self).items() == old(self).items(),
            final(self).spec_capacity() == old(self).spec_capacity(),
            final(self).spec_threshold() == old(self).spec_threshold(),
            final(self).spec_overflow() == old(self).spec_overflow(),
            final(self).producer_len() == old(self).producer_len(),
            final(self).consumer_len() == (if old(self).consumer_len() == 0 {
                old(self).items().len()
            } else {
                old(self).consumer_len()
            }),
    {
        if self.head == self.cached_tail {
            self.cached_tail = self.tail;
            proof {
                assert(self.items() =~= old(self).items());
            }
        }
        self.head == self.cached_tail
    }

    /// Configured capacity.
    pub fn capacity(&self) -> (c: usize)
        requires
            self.wf(),
        ensures
            c == self.spec_capacity(),
    {
        self.config.capacity
    }

    /// Number of elements rejected because the ring was full.
    pub fn overflow_count(&self) -> (c: usize)
        ensures
            c == self.spec_overflow(),
    {
        self.overflow_count
    }

    /// Free capacity: `capacity - len`, saturating at zero.
    pub fn empty_count(&self) -> (c: usize)
        requires
            self.wf(),
        ensures
            c == self.spec_capacity() - self.items().len(),
    {
        self.config.capacity - self.len()
    }

    /// Whether producers should back off: the queue holds at least
    /// `backpressure_threshold` elements.
    pub fn should_backpressure(&mut self) -> (b: bool)
        requires
            old(self).wf(),
        ensures
            final(self).wf(),
            b == (old(self).items().len() >= old(self).spec_threshold()),
            final(self).items() == old(self).items(),
            final(self).spec_capacity() == old(self).spec_capacity(),
            final(self).spec_threshold() == old(self).spec_threshold(),
            final(self).spec_overflow() == old(self).spec_overflow(),
            final(self).consumer_len() == old(self).consumer_len(),
            final(self).producer_len() == (if old(self).producer_len() >= old(self).spec_threshold() {
                old(self).items().len()
            } else {
                old(self).producer_len()
            }),
    {
        let tail = self.tail;
        let mut len = Self::distance(self.cached_head, tail);
        if len >= self.config.backpressure_threshold {
            self.cached_head = self.head;
            len = Self::distance(self.head, tail);
        }
        proof {
            assert(self.items() =~= old(self).items());
        }
        len >= self.config.backpressure_threshold
    }

    /// Number of elements that can be pushed without rejection, as the
    /// producer sees it: `capacity` minus its view of the length, refreshed
    /// first when that view says the ring is full.
    pub fn write_available(&mut self) -> (n: usize)
        requires
            old(self).wf(),
        ensures
            final(self).wf(),
            final(self).items() == old(self).items(),
            final(self).spec_capacity() == old(self).spec_capacity(),
            final(self).spec_threshold() == old(self).spec_threshold(),
            final(self).spec_overflow() == old(self).spec_overflow(),
            final(self).consumer_len() == old(self).consumer_len(),
            final(self).producer_len() == (if old(self).producer_len() >= old(self).spec_capacity() {
                old(self).items().len()
            } else {
                old(self).producer_len()
            }),
            n == old(self).spec_capacity() - final(self).producer_len(),
            n <= old(self).spec_capacity() - old(self).items().len(),
    {
        let tail = self.tail;
        let mut len = Self::distance(self.cached_head, tail);
        if len >= self.config.capacity {
            self.cached_head = self.head;
            len = Self::distance(self.head, tail);
        }
        proof {
            assert(self.items() =~= old(self).items());
        }
        self.config.capacity - len
    }

    /// Number of elements available to pop, as the consumer sees it
    /// (refreshed first when it believes the ring is empty).
    pub fn read_available(&mut self) -> (n: usize)
        requires
            old(self).wf(),
        ensures
            final(self).wf(),
            final(self).items() == old(self).items(),
            final(self).spec_capacity() == old(self).spec_capacity(),
            final(self).spec_threshold() == old(self).spec_threshold(),
            final(self).spec_overflow() == old(self).spec_overflow(),
            final(self).producer_len() == old(self).producer_len(),
            final(self).consumer_len() == (if old(self).consumer_len() == 0 {
                old(self).items().len()
            } else {
                old(self).consumer_len()
            }),
            n == final(self).consumer_len(),
    {
        if self.head == self.cached_tail {
            self.cached_tail = self.tail;
            proof {
                assert(self.items() =~= old(self).items());
            }
        }
        Self::distance(self.head, self.cached_tail)
    }
}


impl<T: Copy> SpscRingBuffer<T> {
    /// Push a prefix of `slice`, as many elements as the producer's view of
    /// the free space allows (refreshing that view first when it says the
    /// ring is full). Elements that do not fit are counted as overflow.
    /// Returns the number of elements pushed.
    pub fn push_batch(&mut self, slice: &[T]) -> (count: usize)
        requires
            old(self).wf(),
        ensures
            final(self).wf(),
            ({
                let seen = if old(self).producer_len() >= old(self).spec_capacity() {
                    old(self).items().len()
                } else {
                    old(self).producer_len()
                };
                let room = old(self).spec_capacity() - seen;
                &&& count == (if room < slice@.len() { room } else { slice@.len() as int })
                &&& final(self).producer_len() == seen + count
            }),
            final(self).items() == old(self).items() + slice@.subrange(0, count as int),
            final(self).spec_overflow() == old(self).spec_overflow().wrapping_add(
                (slice@.len() - count) as usize,
            ),
            final(self).consumer_len() == old(self).consumer_len(),
            final(self).spec_capacity() == old(self).spec_capacity(),
            final(self).spec_threshold() == old(self).spec_threshold(),
    {
        let mut current = Self::distance(self.cached_head, self.tail);
        if current >= self.config.capacity {
            self.cached_head = self.head;
            current = Self::distance(self.head, self.tail);
            if current >= self.config.capacity {
                self.overflow_count = self.overflow_count.wrapping_add(slice.len());
                proof {
                    assert(slice@.subrange(0, 0) =~= Seq::<T>::empty());
                    assert(self.items() =~= old(self).items() + slice@.subrange(0, 0));
                }
                return 0;
            }
        }
        let available = self.config.capacity - current;
        let count = if available < slice.len() {
            available
        } else {
            slice.len()
        };
        if count < slice.len() {
            self.overflow_count = self.overflow_count.wrapping_add(slice.len() - count);
        }
        let ghost start = self.items();
        let ghost seen = self.producer_len();
        let mut i: usize = 0;
        while i < count
            invariant
                self.wf(),
                i <= count,
                count <= slice@.len(),
                seen + count <= self.spec_capacity(),
                self.producer_len() == seen + i,
                self.items() == start + slice@.subrange(0, i as int),
                self.consumer_len() == old(self).consumer_len(),
                self.config == old(self).config,
                self.overflow_count == old(self).overflow_count.wrapping_add(
                    (slice@.len() - count) as usize,
                ),
            decreases count - i,
        {
            self.append_unchecked(slice[i]);
            i += 1;
            proof {
                assert(self.items() =~= start + slice@.subrange(0, i as int));
            }
        }
        count
    }
}

impl<T> SpscRingBuffer<T> {
    /// Pop up to `limit` elements, oldest first, appending them to `out`;
    /// as many as the consumer's view of the queue shows (refreshed first
    /// when it believes the ring is empty). Returns the number popped.
    pub fn pop_batch(&mut self, limit: usize, out: &mut Vec<T>) -> (count: usize)
        requires
            old(self).wf(),
        ensures
            final(self).wf(),
            ({
                let seen = if old(self).consumer_len() == 0 {
                    old(self).items().len()
                } else {
                    old(self).consumer_len()
                };
                &&& count == (if seen < limit { seen } else { limit as nat })
                &&& final(self).consumer_len() == seen - count
            }),
            final(self).items() == old(self).items().subrange(count as int, old(self).items().len() as int),
            final(out)@ == old(out)@ + old(self).items().subrange(0, count as int),
            final(self).producer_len() == old(self).producer_len(),
            final(self).spec_overflow() == old(self).spec_overflow(),
            final(self).spec_capacity() == old(self).spec_capacity(),
            final(self).spec_threshold() == old(self).spec_threshold(),
    {
        if self.head == self.cached_tail {
            self.cached_tail = self.tail;
            proof {
                assert(self.items() =~= old(self).items());
            }
            if self.head == self.cached_tail {
                proof {
                    assert(self.items().subrange(0, 0) =~= Seq::<T>::empty());
                    assert(self.items().subrange(0, self.items().len() as int) =~= self.items());
                    assert(out@ =~= old(out)@ + old(self).items().subrange(0, 0));
                }
                return 0;
            }
        }
        let available = Self::distance(self.head, self.cached_tail);
        let count = if available < limit {
            available
        } else {
            limit
        };
        let ghost start = self.items();
        let ghost start_out = out@;
        let mut i: usize = 0;
        while i < count
            invariant
                self.wf(),
                i <= count,
                count <= available,
                available <= start.len(),
                self.consumer_len() == available - i,
                self.items() == start.subrange(i as int, start.len() as int),
                out@ == start_out + start.subrange(0, i as int),
                self.producer_len() == old(self).producer_len(),
                self.config == old(self).config,
                self.overflow_count == old(self).overflow_count,
            decreases count - i,
        {
            let v = self.take_front();
            out.push(v);
            i += 1;
            proof {
                assert(out@ =~= start_out + start.subrange(0, i as int));
                assert(self.items() =~= start.subrange(i as int, start.len() as int));
            }
        }
        count
    }
}

} // verus!
