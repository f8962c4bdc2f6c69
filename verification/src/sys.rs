//! The clock and randomness sources the control logic consults. Their
//! results depend on the moment and on chance, so nothing is promised of
//! them beyond the ranges stated.

use vstd::prelude::*;
use rand::{Rng, RngCore};

verus! {

/// The monotonic clock's instant type, carried through as an opaque value.
#[verifier::external_type_specification]
#[verifier::external_body]
pub struct ExInstant(std::time::Instant);

/// The current instant of the monotonic clock.
///
/// Trusted: std `Instant::now`; nothing is stated of the value.
#[verifier::external_body]
pub(crate) fn instant_now() -> std::time::Instant {
    std::time::Instant::now()
}

/// Whole milliseconds elapsed on the monotonic clock since `origin`
/// (`u64::MAX` past that).
///
/// Trusted: std `Instant::elapsed` and `Duration::as_millis`; nothing is
/// stated of the value, which depends on the moment of the call (std
/// documents that the monotonic clock never goes back, so later readings
/// from one origin are never smaller).
#[verifier::external_body]
pub(crate) fn elapsed_millis(origin: &std::time::Instant) -> u64 {
    u64::try_from(origin.elapsed().as_millis()).unwrap_or(u64::MAX)
}

/// Seconds since the Unix epoch, or 0 when the system clock reads before
/// the epoch.
///
/// Trusted: std `SystemTime::now` and `duration_since`; nothing is stated
/// of the value, which depends on the moment of the call.
#[verifier::external_body]
pub(crate) fn unix_secs() -> u64 {
    match std::time::SystemTime::now().duration_since(std::time::UNIX_EPOCH) {
        Ok(d) => d.as_secs(),
        Err(_) => 0,
    }
}

/// A uniformly drawn integer in `0..=max`.
///
/// Trusted: `rand::thread_rng().gen_range(0..=max)`; the contract states
/// only the range, which `gen_range` guarantees (an inclusive range that
/// starts at zero is never empty, so it does not panic).
#[verifier::external_body]
pub(crate) fn random_at_most(max: u64) -> (r: u64)
    ensures
        r <= max,
{
    rand::thread_rng().gen_range(0..=max)
}

/// 128 random bits from the operating system's generator.
///
/// Trusted: `rand::rngs::OsRng::fill_bytes` over 16 bytes, read as a
/// little-endian integer; nothing is stated of the value.
#[verifier::external_body]
pub(crate) fn random_nonce() -> u128 {
    let mut bytes = [0u8; 16];
    rand::rngs::OsRng.fill_bytes(&mut bytes);
    u128::from_le_bytes(bytes)
}

} // verus!
