//! Accounting of in-flight inference requests and of the parallel slots
//! they run in, and the decisions of a graceful drain. Waiting and the
//! slot semaphore itself belong to the caller.

use vstd::prelude::*;
use crate::fmt::{decimal, push_decimal};
use crate::number::{parse_usize, parse_usize_spec};
use crate::text::{trim, trimmed};

verus! {

/// Fewest parallel slots.
pub const MIN_SLOTS: usize = 1;

/// Most parallel slots.
pub const MAX_SLOTS: usize = 64;

/// `n` clamped to `MIN_SLOTS..=MAX_SLOTS`.
pub open spec fn clamped_slots(n: usize) -> usize {
    if n < MIN_SLOTS {
        MIN_SLOTS
    } else if n > MAX_SLOTS {
        MAX_SLOTS
    } else {
        n
    }
}

/// Clamp a slot count to `MIN_SLOTS..=MAX_SLOTS`.
pub fn clamp_slots(n: usize) -> (c: usize)
    ensures
        c == clamped_slots(n),
{
    if n < MIN_SLOTS {
        MIN_SLOTS
    } else if n > MAX_SLOTS {
        MAX_SLOTS
    } else {
        n
    }
}

/// Initial slot count from the configured value (`GHOSTLINK_PARALLEL_SLOTS`):
/// the trimmed value as a `usize`, clamped; one slot when it is absent or
/// does not parse.
pub fn initial_slots(configured: Option<&str>) -> (n: usize)
    ensures
        n == (match configured {
            Some(v) => match parse_usize_spec(trimmed(v@)) {
                Some(k) => clamped_slots(k),
                None => 1,
            },
            None => 1,
        }),
{
    match configured {
        Some(v) => match parse_usize(trim(v)) {
            Some(k) => clamp_slots(k),
            None => 1,
        },
        None => 1,
    }
}

/// How the slot semaphore must change after a resize.
#[derive(Clone, Copy, Debug, PartialEq, Eq, Structural)]
pub enum SlotChange {
    /// Add this many permits.
    Add(usize),
    /// Retire this many permits.
    Forget(usize),
    /// Nothing to do.
    Unchanged,
}

/// How the semaphore changes when the capacity goes from `from` to `to`.
pub open spec fn slot_change(from: usize, to: usize) -> SlotChange {
    if to > from {
        SlotChange::Add((to - from) as usize)
    } else if to < from {
        SlotChange::Forget((from - to) as usize)
    } else {
        SlotChange::Unchanged
    }
}

/// Counts of in-flight requests and of parallel slots.
#[derive(Debug, PartialEq, Eq, Structural)]
pub struct RequestCounters {
    in_flight: usize,
    slot_capacity: usize,
}

impl RequestCounters {
    /// Slot capacity stays within its bounds.
    pub open spec fn wf(&self) -> bool {
        MIN_SLOTS <= self.spec_slot_capacity() <= MAX_SLOTS
    }

    /// In-flight requests.
    pub closed spec fn spec_in_flight(&self) -> usize {
        self.in_flight
    }

    /// Configured parallel slots.
    pub closed spec fn spec_slot_capacity(&self) -> usize {
        self.slot_capacity
    }

    /// No request in flight, `initial_slots` slots (clamped).
    pub fn new(initial_slots: usize) -> (c: RequestCounters)
        ensures
            c.wf(),
            c.spec_in_flight() == 0,
            c.spec_slot_capacity() == clamped_slots(initial_slots),
    {
        RequestCounters { in_flight: 0, slot_capacity: clamp_slots(initial_slots) }
    }

    /// One more request in flight.
    pub fn increment(&mut self)
        requires
            old(self).spec_in_flight() < usize::MAX,
        ensures
            final(self).spec_in_flight() == old(self).spec_in_flight() + 1,
            final(self).spec_slot_capacity() == old(self).spec_slot_capacity(),
    {
        self.in_flight = self.in_flight + 1;
    }

    /// One request fewer in flight (never below zero).
    pub fn decrement(&mut self)
        ensures
            final(self).spec_in_flight() == (if old(self).spec_in_flight() > 0 {
                old(self).spec_in_flight() - 1
            } else {
                0
            }),
            final(self).spec_slot_capacity() == old(self).spec_slot_capacity(),
    {
        if self.in_flight > 0 {
            self.in_flight = self.in_flight - 1;
        }
    }

    /// Requests in flight.
    pub fn get_count(&self) -> (n: usize)
        ensures
            n == self.spec_in_flight(),
    {
        self.in_flight
    }

    /// Configured parallel slots.
    pub fn slot_capacity(&self) -> (n: usize)
        ensures
            n == self.spec_slot_capacity(),
    {
        self.slot_capacity
    }

    /// Requests admitted but waiting for a slot, given the semaphore's
    /// free permits: in flight minus slots in use, both differences
    /// saturating at zero.
    pub fn queue_depth(&self, available_permits: usize) -> (n: usize)
        ensures
            ({
                let active = if self.spec_slot_capacity() >= available_permits {
                    self.spec_slot_capacity() - available_permits
                } else {
                    0
                };
                n == (if self.spec_in_flight() >= active { self.spec_in_flight() - active } else { 0 })
            }),
    {
        let active = self.slot_capacity.saturating_sub(available_permits);
        self.in_flight.saturating_sub(active)
    }

    /// Set the slot capacity (clamped) and say how the semaphore must change.
    pub fn resize_slots(&mut self, new_capacity: usize) -> (change: SlotChange)
        ensures
            final(self).spec_slot_capacity() == clamped_slots(new_capacity),
            final(self).spec_in_flight() == old(self).spec_in_flight(),
            change == slot_change(old(self).spec_slot_capacity(), clamped_slots(new_capacity)),
    {
        let new_capacity = clamp_slots(new_capacity);
        let old_capacity = self.slot_capacity;
        self.slot_capacity = new_capacity;
        if new_capacity > old_capacity {
            SlotChange::Add(new_capacity - old_capacity)
        } else if new_capacity < old_capacity {
            SlotChange::Forget(old_capacity - new_capacity)
        } else {
            SlotChange::Unchanged
        }
    }
}

/// One check of a graceful drain.
#[derive(Clone, Debug, PartialEq, Eq)]
pub enum DrainStep {
    /// Nothing is in flight: the drain is complete.
    Drained,
    /// The timeout passed with requests still in flight.
    TimedOut(String),
    /// Wait and check again.
    Wait,
}

/// Message of a drain that timed out.
pub open spec fn drain_timeout_text(count: usize) -> Seq<char> {
    "Request drain timeout: "@ + decimal(count as nat) + " requests still in-flight"@
}

/// Decide a drain check: done when nothing is in flight, failed once more
/// than `timeout_ms` has elapsed, else wait.
pub fn drain_step(in_flight: usize, elapsed_ms: u64, timeout_ms: u64) -> (s: DrainStep)
    ensures
        in_flight == 0 ==> s == DrainStep::Drained,
        in_flight > 0 && elapsed_ms > timeout_ms ==> (s matches DrainStep::TimedOut(m) && m@ == drain_timeout_text(in_flight)),
        in_flight > 0 && elapsed_ms <= timeout_ms ==> s == DrainStep::Wait,
{
    if in_flight == 0 {
        return DrainStep::Drained;
    }
    if elapsed_ms > timeout_ms {
        let mut m = "Request drain timeout: ".to_owned();
        push_decimal(&mut m, in_flight as u64);
        m.append(" requests still in-flight");
        return DrainStep::TimedOut(m);
    }
    DrainStep::Wait
}

/// Whatever size is requested, the capacity stays within bounds; and
/// resizing back to the previous capacity undoes the semaphore change
/// exactly (permits added are the permits then retired, and conversely).
pub proof fn lemma_resize_round_trip(old_capacity: usize, new_capacity: usize)
    requires
        MIN_SLOTS <= old_capacity <= MAX_SLOTS,
    ensures
        MIN_SLOTS <= clamped_slots(new_capacity) <= MAX_SLOTS,
        clamped_slots(old_capacity) == old_capacity,
        ({
            let b = clamped_slots(new_capacity);
            match (slot_change(old_capacity, b), slot_change(b, clamped_slots(old_capacity))) {
                (SlotChange::Add(x), SlotChange::Forget(y)) => x == y,
                (SlotChange::Forget(x), SlotChange::Add(y)) => x == y,
                (SlotChange::Unchanged, SlotChange::Unchanged) => true,
                _ => false,
            }
        }),
{
}

} // verus!
