//! Trusted access to the system clocks.
//!
//! Nothing exact can be promised about a clock reading, so the wrappers
//! below state only what the standard library documents of every outcome.

use vstd::prelude::*;

verus! {

#[verifier::external_type_specification]
#[verifier::external_body]
pub struct ExSystemTime(std::time::SystemTime);

#[verifier::external_type_specification]
#[verifier::external_body]
pub struct ExInstant(std::time::Instant);

/// Relies on std's SystemTime::now: a reading of the wall clock.
#[verifier::external_body]
pub fn system_time_now() -> (t: std::time::SystemTime) {
    std::time::SystemTime::now()
}

/// Relies on std's SystemTime::duration_since: the distance from the Unix
/// epoch, converted to whole nanoseconds. A reading before the epoch (the
/// wall clock may move backwards) is converted to zero.
#[verifier::external_body]
pub fn nanos_since_unix_epoch(t: &std::time::SystemTime) -> (r: u64) {
    t.duration_since(std::time::UNIX_EPOCH).unwrap_or_default().as_nanos() as u64
}

/// Relies on std's Instant::now: a reading of the monotonic clock.
#[verifier::external_body]
pub fn instant_now() -> (t: std::time::Instant) {
    std::time::Instant::now()
}

/// Relies on std's Instant::elapsed: the time since the given reading,
/// converted to whole milliseconds. The monotonic clock never runs
/// backwards, but nothing exact can be said of the value.
#[verifier::external_body]
pub fn millis_since(t: &std::time::Instant) -> (r: u64) {
    t.elapsed().as_millis() as u64
}

} // verus!
