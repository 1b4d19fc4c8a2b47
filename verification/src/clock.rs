//! Clock readings: monotonic time for liveness, wall-clock time for
//! timestamps.

use vstd::prelude::*;
use std::time::{Duration, Instant, SystemTime, UNIX_EPOCH};

verus! {

/// Whether `elapsed_ms` milliseconds exceed a limit of `limit_ms`.
pub open spec fn over_limit(elapsed_ms: u64, limit_ms: u64) -> bool {
    elapsed_ms > limit_ms
}

/// std's monotonic clock reading.
#[verifier::external_type_specification]
#[verifier::external_body]
pub struct ExInstant(Instant);

/// The current monotonic time (std's `Instant::now`). Nothing is stated of
/// the reading: it depends on when the call is made.
#[verifier::external_body]
pub fn instant_now() -> Instant {
    Instant::now()
}

/// Whole milliseconds passed since `since` (std's `Instant::elapsed`, then
/// `Duration::as_millis`, cut to 64 bits). Nothing is stated of the number:
/// it depends on when the call is made.
#[verifier::external_body]
pub fn elapsed_millis(since: &Instant) -> u64 {
    since.elapsed().as_millis() as u64
}

/// Whole milliseconds of a span (std's `Duration::as_millis`, cut to 64
/// bits). The span is opaque here; nothing is stated of the number.
#[verifier::external_body]
pub fn duration_millis(d: Duration) -> u64 {
    d.as_millis() as u64
}

/// The time passed since `since` (std's `Instant::elapsed`). Nothing is
/// stated of the span: it depends on when the call is made.
#[verifier::external_body]
pub fn elapsed_since(since: &Instant) -> Duration {
    since.elapsed()
}

/// A span of whole seconds (std's `Duration::from_secs`). The span is
/// opaque here; nothing is stated of it.
#[verifier::external_body]
pub fn duration_from_secs(secs: u64) -> Duration {
    Duration::from_secs(secs)
}

/// std's `Clone` for `Duration`, a `Copy` type: the copy is the same span.
pub assume_specification[ <Duration as Clone>::clone ](d: &Duration) -> (r: Duration)
    ensures
        r == *d,
;

/// A span of whole milliseconds (std's `Duration::from_millis`). The span
/// is opaque here; nothing is stated of it.
#[verifier::external_body]
pub fn duration_from_millis(millis: u64) -> Duration {
    Duration::from_millis(millis)
}

/// Whole seconds since the Unix epoch (std's `SystemTime::now` and
/// `duration_since(UNIX_EPOCH)`), 0 for a clock set before the epoch.
/// Nothing else is stated: it depends on when the call is made.
#[verifier::external_body]
pub fn unix_secs() -> u64 {
    match SystemTime::now().duration_since(UNIX_EPOCH) {
        Ok(d) => d.as_secs(),
        Err(_) => 0,
    }
}

/// Microseconds since the Unix epoch (as `unix_secs`, through
/// `Duration::as_micros`, cut to 64 bits). Nothing is stated: it depends on
/// when the call is made.
#[verifier::external_body]
pub fn unix_micros() -> u64 {
    match SystemTime::now().duration_since(UNIX_EPOCH) {
        Ok(d) => d.as_micros() as u64,
        Err(_) => 0,
    }
}

/// Milliseconds since the Unix epoch (as `unix_secs`, through
/// `Duration::as_millis`, cut to 64 bits). Nothing is stated: it depends on
/// when the call is made.
#[verifier::external_body]
pub fn unix_millis() -> u64 {
    match SystemTime::now().duration_since(UNIX_EPOCH) {
        Ok(d) => d.as_millis() as u64,
        Err(_) => 0,
    }
}

} // verus!
