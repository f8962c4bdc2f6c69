//! Circuit breaker for calls to remote nodes, plus jittered exponential
//! backoff for retries.
//!
//! The breaker moves between three states: `Closed` (requests pass),
//! `Open` (requests fail fast until `open_duration_secs` have passed since
//! the last failure) and `HalfOpen` (one recovery probe is let through).
//! Every operation exists in a form that takes the current time in
//! milliseconds, and in a form that reads the breaker's own monotonic
//! clock, which counts milliseconds from the moment the breaker was made.

use vstd::prelude::*;
use crate::sys::{elapsed_millis, instant_now, random_at_most};

verus! {

/// Circuit breaker states.
#[derive(Clone, Copy, Debug, PartialEq, Eq, Structural)]
pub enum CircuitState {
    /// Normal operation: requests pass through.
    Closed,
    /// Failure threshold exceeded: fail fast without retrying.
    Open,
    /// Recovery probing: a single request attempt is allowed.
    HalfOpen,
}

impl CircuitState {
    /// State from its stored code (0 closed, 1 open, 2 half-open); any other
    /// code reads as closed.
    pub fn from_u8(val: u8) -> (s: CircuitState)
        ensures
            s == (if val == 1 {
                CircuitState::Open
            } else if val == 2 {
                CircuitState::HalfOpen
            } else {
                CircuitState::Closed
            }),
    {
        match val {
            1 => CircuitState::Open,
            2 => CircuitState::HalfOpen,
            _ => CircuitState::Closed,
        }
    }
}

/// Configuration for circuit breaker behaviour.
#[derive(Clone, Copy, Debug)]
pub struct CircuitBreakerConfig {
    /// Number of failures before opening the circuit.
    pub failure_threshold: usize,
    /// Time to wait in the open state before a recovery probe.
    pub open_duration_secs: u64,
    /// Time since the last failure after which a success resets the count.
    pub reset_timeout_secs: u64,
}

impl Default for CircuitBreakerConfig {
    fn default() -> (c: CircuitBreakerConfig)
        ensures
            c.failure_threshold == 5,
            c.open_duration_secs == 30,
            c.reset_timeout_secs == 60,
    {
        CircuitBreakerConfig { failure_threshold: 5, open_duration_secs: 30, reset_timeout_secs: 60 }
    }
}

/// Abstract state of a breaker.
pub struct BreakerView {
    pub state: CircuitState,
    pub failures: usize,
    pub last_failure_ms: u64,
    pub probe_in_flight: bool,
    pub failure_threshold: usize,
    pub open_duration_secs: u64,
    pub reset_timeout_secs: u64,
}

/// Milliseconds elapsed from `since` to `now` (zero if the clock went back).
pub open spec fn elapsed_ms(since: u64, now: u64) -> int {
    if now >= since {
        now - since
    } else {
        0
    }
}

/// Outcome of asking to attempt a request at time `now`: the new state and
/// whether the attempt is allowed.
pub open spec fn attempt_step(v: BreakerView, now: u64) -> (BreakerView, bool) {
    match v.state {
        CircuitState::Closed => (v, true),
        CircuitState::Open => if elapsed_ms(v.last_failure_ms, now) <= v.open_duration_secs * 1000 {
            (v, false)
        } else if v.probe_in_flight {
            (v, false)
        } else {
            (BreakerView { state: CircuitState::HalfOpen, probe_in_flight: true, ..v }, true)
        },
        CircuitState::HalfOpen => if v.probe_in_flight {
            (v, false)
        } else {
            (BreakerView { probe_in_flight: true, ..v }, true)
        },
    }
}

/// State after a successful request at time `now`.
pub open spec fn success_step(v: BreakerView, now: u64) -> BreakerView {
    if elapsed_ms(v.last_failure_ms, now) > v.reset_timeout_secs * 1000 || v.state
        == CircuitState::HalfOpen {
        BreakerView { failures: 0, state: CircuitState::Closed, probe_in_flight: false, ..v }
    } else {
        v
    }
}

/// State after a failed request at time `now`.
pub open spec fn failure_step(v: BreakerView, now: u64) -> BreakerView {
    let count = v.failures.wrapping_add(1);
    if count >= v.failure_threshold || v.state == CircuitState::HalfOpen {
        BreakerView {
            failures: count,
            last_failure_ms: now,
            state: CircuitState::Open,
            probe_in_flight: false,
            ..v
        }
    } else {
        BreakerView { failures: count, last_failure_ms: now, ..v }
    }
}

/// State after a reset at time `now`.
pub open spec fn reset_step(v: BreakerView, now: u64) -> BreakerView {
    BreakerView {
        state: CircuitState::Closed,
        failures: 0,
        probe_in_flight: false,
        last_failure_ms: now,
        ..v
    }
}

/// Per-node circuit breaker.
#[derive(Debug)]
pub struct CircuitBreaker {
    state: CircuitState,
    failures: usize,
    last_failure_ms: u64,
    half_open_probe_in_flight: bool,
    config: CircuitBreakerConfig,
    clock: std::time::Instant,
}

impl View for CircuitBreaker {
    type V = BreakerView;

    closed spec fn view(&self) -> BreakerView {
        BreakerView {
            state: self.state,
            failures: self.failures,
            last_failure_ms: self.last_failure_ms,
            probe_in_flight: self.half_open_probe_in_flight,
            failure_threshold: self.config.failure_threshold,
            open_duration_secs: self.config.open_duration_secs,
            reset_timeout_secs: self.config.reset_timeout_secs,
        }
    }
}

impl CircuitBreaker {
    /// A closed breaker with the default configuration, its failure clock
    /// started now (time 0 on its own clock).
    pub fn new() -> (cb: CircuitBreaker)
        ensures
            cb@.last_failure_ms == 0,
            cb@.state == CircuitState::Closed,
            cb@.failures == 0,
            !cb@.probe_in_flight,
            cb@.failure_threshold == 5,
            cb@.open_duration_secs == 30,
            cb@.reset_timeout_secs == 60,
    {
        Self::with_config(CircuitBreakerConfig::default())
    }

    /// A closed breaker with `config`, its failure clock started now (time
    /// 0 on its own clock).
    pub fn with_config(config: CircuitBreakerConfig) -> (cb: CircuitBreaker)
        ensures
            cb@.last_failure_ms == 0,
            cb@.state == CircuitState::Closed,
            cb@.failures == 0,
            !cb@.probe_in_flight,
            cb@.failure_threshold == config.failure_threshold,
            cb@.open_duration_secs == config.open_duration_secs,
            cb@.reset_timeout_secs == config.reset_timeout_secs,
    {
        Self::with_config_at(config, 0)
    }

    /// A closed breaker with `config`, its failure clock started at `now_ms`.
    /// Its own clock starts now; the `*_at` methods take times on any clock
    /// the caller keeps, and the others read the breaker's.
    pub fn with_config_at(config: CircuitBreakerConfig, now_ms: u64) -> (cb: CircuitBreaker)
        ensures
            cb@ == (BreakerView {
                state: CircuitState::Closed,
                failures: 0,
                last_failure_ms: now_ms,
                probe_in_flight: false,
                failure_threshold: config.failure_threshold,
                open_duration_secs: config.open_duration_secs,
                reset_timeout_secs: config.reset_timeout_secs,
            }),
    {
        CircuitBreaker {
            state: CircuitState::Closed,
            failures: 0,
            last_failure_ms: now_ms,
            half_open_probe_in_flight: false,
            config,
            clock: instant_now(),
        }
    }

    /// Current state.
    pub fn current_state(&self) -> (s: CircuitState)
        ensures
            s == self@.state,
    {
        self.state
    }

    fn elapsed_since_failure(&self, now_ms: u64) -> (e: u64)
        ensures
            e == elapsed_ms(self@.last_failure_ms, now_ms),
    {
        if now_ms >= self.last_failure_ms {
            now_ms - self.last_failure_ms
        } else {
            0
        }
    }

    /// Whether a request may be attempted at time `now_ms`. Closed: yes.
    /// Open: only once `open_duration_secs` have passed since the last
    /// failure, and then only for the caller that claims the single
    /// recovery probe (the breaker becomes half-open). Half-open: only if
    /// the probe has not been claimed yet.
    pub fn should_attempt_at(&mut self, now_ms: u64) -> (b: bool)
        ensures
            (final(self)@, b) == attempt_step(old(self)@, now_ms),
    {
        match self.state {
            CircuitState::Closed => true,
            CircuitState::Open => {
                let elapsed = self.elapsed_since_failure(now_ms);
                if (elapsed as u128) <= (self.config.open_duration_secs as u128) * 1000 {
                    return false;
                }
                if self.half_open_probe_in_flight {
                    return false;
                }
                self.half_open_probe_in_flight = true;
                self.state = CircuitState::HalfOpen;
                true
            },
            CircuitState::HalfOpen => {
                if self.half_open_probe_in_flight {
                    false
                } else {
                    self.half_open_probe_in_flight = true;
                    true
                }
            },
        }
    }

    /// [`CircuitBreaker::should_attempt_at`] at the current time.
    pub fn should_attempt(&mut self) -> (b: bool)
        ensures
            exists|now: u64| (final(self)@, b) == attempt_step(old(self)@, now),
    {
        let now = elapsed_millis(&self.clock);
        self.should_attempt_at(now)
    }

    /// Record a successful request at time `now_ms`: closes the circuit and
    /// clears the failure count when the last failure is older than
    /// `reset_timeout_secs`, or when this was the half-open probe.
    pub fn record_success_at(&mut self, now_ms: u64)
        ensures
            final(self)@ == success_step(old(self)@, now_ms),
    {
        let elapsed = self.elapsed_since_failure(now_ms);
        if (elapsed as u128) > (self.config.reset_timeout_secs as u128) * 1000 {
            self.failures = 0;
            self.state = CircuitState::Closed;
            self.half_open_probe_in_flight = false;
        } else if self.state == CircuitState::HalfOpen {
            self.failures = 0;
            self.state = CircuitState::Closed;
            self.half_open_probe_in_flight = false;
        }
    }

    /// [`CircuitBreaker::record_success_at`] at the current time.
    pub fn record_success(&mut self)
        ensures
            exists|now: u64| final(self)@ == success_step(old(self)@, now),
    {
        let now = elapsed_millis(&self.clock);
        self.record_success_at(now)
    }

    /// Record a failed request at time `now_ms`: counts it and opens the
    /// circuit when the count reaches the threshold or a half-open probe
    /// failed.
    pub fn record_failure_at(&mut self, now_ms: u64)
        ensures
            final(self)@ == failure_step(old(self)@, now_ms),
    {
        let count = self.failures.wrapping_add(1);
        self.failures = count;
        self.last_failure_ms = now_ms;
        if count >= self.config.failure_threshold || self.state == CircuitState::HalfOpen {
            self.state = CircuitState::Open;
            self.half_open_probe_in_flight = false;
        }
    }

    /// [`CircuitBreaker::record_failure_at`] at the current time.
    pub fn record_failure(&mut self)
        ensures
            exists|now: u64| final(self)@ == failure_step(old(self)@, now),
    {
        let now = elapsed_millis(&self.clock);
        self.record_failure_at(now)
    }

    /// Number of failures counted since the last reset or close.
    pub fn failure_count(&self) -> (n: usize)
        ensures
            n == self@.failures,
    {
        self.failures
    }

    /// Milliseconds since the last failure (or creation/reset) at `now_ms`.
    pub fn time_since_last_failure_at(&self, now_ms: u64) -> (ms: u64)
        ensures
            ms == elapsed_ms(self@.last_failure_ms, now_ms),
    {
        self.elapsed_since_failure(now_ms)
    }

    /// Milliseconds since the last failure (or creation/reset), now.
    pub fn time_since_last_failure(&self) -> (ms: u64)
        ensures
            exists|now: u64| ms == elapsed_ms(self@.last_failure_ms, now),
    {
        let now = elapsed_millis(&self.clock);
        self.time_since_last_failure_at(now)
    }

    /// Close the circuit and clear all counters at time `now_ms`.
    pub fn reset_at(&mut self, now_ms: u64)
        ensures
            final(self)@ == reset_step(old(self)@, now_ms),
    {
        self.state = CircuitState::Closed;
        self.failures = 0;
        self.half_open_probe_in_flight = false;
        self.last_failure_ms = now_ms;
    }

    /// [`CircuitBreaker::reset_at`] at the current time.
    pub fn reset(&mut self)
        ensures
            exists|now: u64| final(self)@ == reset_step(old(self)@, now),
    {
        let now = elapsed_millis(&self.clock);
        self.reset_at(now)
    }
}

/// A half-open recovery window admits exactly one probe: once an attempt
/// on an open or half-open breaker has been granted, every further attempt
/// is refused until a success or failure is recorded.
pub proof fn lemma_single_probe(v: BreakerView, now: u64, later: u64)
    requires
        v.state != CircuitState::Closed,
        attempt_step(v, now).1,
    ensures
        attempt_step(v, now).0.state == CircuitState::HalfOpen,
        !attempt_step(attempt_step(v, now).0, later).1,
        attempt_step(attempt_step(v, now).0, later).0 == attempt_step(v, now).0,
{
}

/// An open breaker refuses every attempt, and stays as it is, until more
/// than `open_duration_secs` have passed since the last failure.
pub proof fn lemma_open_fails_fast(v: BreakerView, now: u64)
    requires
        v.state == CircuitState::Open,
        elapsed_ms(v.last_failure_ms, now) <= v.open_duration_secs * 1000,
    ensures
        attempt_step(v, now) == (v, false),
{
}

/// A closed breaker always lets requests through and is left unchanged.
pub proof fn lemma_closed_allows(v: BreakerView, now: u64)
    requires
        v.state == CircuitState::Closed,
    ensures
        attempt_step(v, now) == (v, true),
{
}

/// State after `k` consecutive failures recorded at time `now`.
pub open spec fn failures_then(v: BreakerView, k: nat, now: u64) -> BreakerView
    decreases k,
{
    if k == 0 {
        v
    } else {
        failure_step(failures_then(v, (k - 1) as nat, now), now)
    }
}

/// From a freshly closed breaker, the circuit is open exactly once
/// `failure_threshold` consecutive failures have been recorded (thresholds
/// of at least one; the count itself stays far from wrapping).
pub proof fn lemma_opens_at_threshold(v: BreakerView, k: nat, now: u64)
    requires
        v.state == CircuitState::Closed,
        v.failures == 0,
        v.failure_threshold >= 1,
        k < usize::MAX,
    ensures
        failures_then(v, k, now).failures == k,
        failures_then(v, k, now).state == (if k >= v.failure_threshold {
            CircuitState::Open
        } else {
            CircuitState::Closed
        }),
    decreases k,
{
    if k > 0 {
        lemma_opens_at_threshold(v, (k - 1) as nat, now);
        let prev = failures_then(v, (k - 1) as nat, now);
        assert(prev.failures.wrapping_add(1) == k);
        assert(prev.failure_threshold == v.failure_threshold) by {
            lemma_failures_keep_config(v, (k - 1) as nat, now);
        }
    }
}

/// Recording failures never changes the configuration.
proof fn lemma_failures_keep_config(v: BreakerView, k: nat, now: u64)
    ensures
        failures_then(v, k, now).failure_threshold == v.failure_threshold,
    decreases k,
{
    if k > 0 {
        lemma_failures_keep_config(v, (k - 1) as nat, now);
    }
}

/// A success on the half-open probe closes the circuit and clears the
/// failure count; a failure on it reopens the circuit.
pub proof fn lemma_probe_outcome(v: BreakerView, now: u64)
    requires
        v.state == CircuitState::HalfOpen,
    ensures
        success_step(v, now).state == CircuitState::Closed,
        success_step(v, now).failures == 0,
        failure_step(v, now).state == CircuitState::Open,
        !failure_step(v, now).probe_in_flight,
{
}


/// `2^e`.
pub open spec fn two_pow(e: nat) -> nat
    decreases e,
{
    if e == 0 {
        1
    } else {
        2 * two_pow((e - 1) as nat)
    }
}

/// Backoff before jitter: `100 * 2^min(attempt, 10)` milliseconds, capped
/// at `max_backoff_ms`.
pub open spec fn base_backoff_ms(attempt: u32, max_backoff_ms: u64) -> nat {
    let e: nat = if attempt < 10 {
        attempt as nat
    } else {
        10
    };
    let b = 100 * two_pow(e);
    if b <= max_backoff_ms {
        b
    } else {
        max_backoff_ms as nat
    }
}

/// Jittered exponential backoff for retry delays.
#[derive(Clone, Copy, Debug)]
pub struct JitteredBackoff {
    attempt: u32,
    max_backoff_ms: u64,
}

impl JitteredBackoff {
    /// Number of backoffs taken so far.
    pub closed spec fn spec_attempt(&self) -> u32 {
        self.attempt
    }

    /// Upper bound on the un-jittered backoff, in milliseconds.
    pub closed spec fn spec_max_backoff_ms(&self) -> u64 {
        self.max_backoff_ms
    }

    /// Start at attempt 0 with a 30 s cap.
    pub fn new() -> (b: JitteredBackoff)
        ensures
            b.spec_attempt() == 0,
            b.spec_max_backoff_ms() == 30_000,
    {
        JitteredBackoff { attempt: 0, max_backoff_ms: 30_000 }
    }

    /// Start at attempt 0 with a custom cap (milliseconds).
    pub fn with_max_backoff(max_backoff_ms: u64) -> (b: JitteredBackoff)
        ensures
            b.spec_attempt() == 0,
            b.spec_max_backoff_ms() == max_backoff_ms,
    {
        JitteredBackoff { attempt: 0, max_backoff_ms }
    }

    fn base_ms(&self) -> (ms: u64)
        ensures
            ms == base_backoff_ms(self.attempt, self.max_backoff_ms),
            ms <= 102_400,
    {
        let e: u32 = if self.attempt < 10 {
            self.attempt
        } else {
            10
        };
        let mut p: u64 = 1;
        let mut i: u32 = 0;
        while i < e
            invariant
                i <= e,
                e <= 10,
                p == two_pow(i as nat),
                p <= 1024,
            decreases e - i,
        {
            proof {
                assert(two_pow((i + 1) as nat) == 2 * two_pow(i as nat));
                lemma_two_pow_small(i as nat);
            }
            p = p * 2;
            i += 1;
        }
        let b = 100 * p;
        if b <= self.max_backoff_ms {
            b
        } else {
            self.max_backoff_ms
        }
    }

    /// Backoff for the current attempt, in milliseconds: the base plus a
    /// random jitter of up to a tenth of it.
    pub fn backoff_ms(&self) -> (ms: u64)
        ensures
            base_backoff_ms(self.spec_attempt(), self.spec_max_backoff_ms()) <= ms,
            ms <= base_backoff_ms(self.spec_attempt(), self.spec_max_backoff_ms()) + base_backoff_ms(
                self.spec_attempt(),
                self.spec_max_backoff_ms(),
            ) / 10,
    {
        let base = self.base_ms();
        let jitter = random_at_most(base / 10);
        base + jitter
    }

    /// Backoff for the current attempt (milliseconds), then move to the next
    /// attempt.
    pub fn next_backoff(&mut self) -> (ms: u64)
        requires
            old(self).spec_attempt() < u32::MAX,
        ensures
            final(self).spec_attempt() == old(self).spec_attempt() + 1,
            final(self).spec_max_backoff_ms() == old(self).spec_max_backoff_ms(),
            base_backoff_ms(old(self).spec_attempt(), old(self).spec_max_backoff_ms()) <= ms,
            ms <= base_backoff_ms(old(self).spec_attempt(), old(self).spec_max_backoff_ms())
                + base_backoff_ms(old(self).spec_attempt(), old(self).spec_max_backoff_ms()) / 10,
    {
        let d = self.backoff_ms();
        self.attempt = self.attempt + 1;
        d
    }

    /// Return to attempt 0.
    pub fn reset(&mut self)
        ensures
            final(self).spec_attempt() == 0,
            final(self).spec_max_backoff_ms() == old(self).spec_max_backoff_ms(),
    {
        self.attempt = 0;
    }
}

impl Default for JitteredBackoff {
    fn default() -> (b: JitteredBackoff)
        ensures
            b.spec_attempt() == 0,
            b.spec_max_backoff_ms() == 30_000,
    {
        Self::new()
    }
}

/// `2^e <= 512` for `e < 10`, so doubling stays within `1024`.
proof fn lemma_two_pow_small(e: nat)
    requires
        e < 10,
    ensures
        two_pow(e) <= 512,
    decreases e,
{
    lemma_two_pow_monotone(e, 9);
    reveal_with_fuel(two_pow, 10);
}

/// `2^e` grows with `e`.
proof fn lemma_two_pow_monotone(a: nat, b: nat)
    requires
        a <= b,
    ensures
        two_pow(a) <= two_pow(b),
    decreases b,
{
    if a < b {
        lemma_two_pow_monotone(a, (b - 1) as nat);
    }
}

/// The un-jittered backoff doubles with each attempt until it reaches the
/// cap or the tenth attempt, and never exceeds the cap.
pub proof fn lemma_backoff_grows(attempt: u32, max_backoff_ms: u64)
    requires
        attempt < 10,
    ensures
        base_backoff_ms(attempt, max_backoff_ms) <= max_backoff_ms,
        base_backoff_ms((attempt + 1) as u32, max_backoff_ms) == (if 2 * base_backoff_ms(
            attempt,
            max_backoff_ms,
        ) <= max_backoff_ms && 200 * two_pow(attempt as nat) <= max_backoff_ms {
            2 * base_backoff_ms(attempt, max_backoff_ms)
        } else {
            max_backoff_ms as nat
        }),
{
    assert(two_pow((attempt + 1) as nat) == 2 * two_pow(attempt as nat));
}


/// A success recorded more than `reset_timeout_secs` after the last failure
/// clears the failure count and closes the breaker, with no probe in
/// flight, whatever state the breaker was in; the time of the last failure
/// and the configuration stay as they were.
pub proof fn lemma_success_after_reset_timeout_closes(v: BreakerView, now: u64)
    requires
        now >= v.last_failure_ms,
        now - v.last_failure_ms > v.reset_timeout_secs * 1000,
    ensures
        success_step(v, now).state == CircuitState::Closed,
        success_step(v, now).failures == 0,
        !success_step(v, now).probe_in_flight,
        success_step(v, now).last_failure_ms == v.last_failure_ms,
        success_step(v, now).failure_threshold == v.failure_threshold,
        success_step(v, now).open_duration_secs == v.open_duration_secs,
        success_step(v, now).reset_timeout_secs == v.reset_timeout_secs,
{
}

/// A success on a half-open breaker (the probe came back) closes it and
/// clears the failure count, at any time.
pub proof fn lemma_half_open_success_closes(v: BreakerView, now: u64)
    requires
        v.state == CircuitState::HalfOpen,
    ensures
        success_step(v, now).state == CircuitState::Closed,
        success_step(v, now).failures == 0,
        !success_step(v, now).probe_in_flight,
        success_step(v, now).last_failure_ms == v.last_failure_ms,
{
}

/// A success within `reset_timeout_secs` of the last failure (or before it,
/// if the clock went back) leaves a breaker that is not half-open exactly
/// as it was: the failures counted so far are kept.
pub proof fn lemma_recent_success_keeps_state(v: BreakerView, now: u64)
    requires
        v.state != CircuitState::HalfOpen,
        now < v.last_failure_ms || now - v.last_failure_ms <= v.reset_timeout_secs * 1000,
    ensures
        success_step(v, now) == v,
{
}

} // verus!
