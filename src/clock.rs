use std::time::{Duration, Instant, UNIX_EPOCH};
use vstd::prelude::*;

verus! {

#[verifier::external_type_specification]
#[verifier::external_body]
pub struct ExInstant(std::time::Instant);

/// The whole nanoseconds in a duration.
pub uninterp spec fn nanos_of(d: Duration) -> u128;

/// Relies on std::time::SystemTime::elapsed, applied to the Unix epoch: the
/// time since then by the wall clock, or None if the clock reads earlier.
/// Nothing is promised of the value.
#[verifier::external_body]
fn since_epoch() -> (r: Option<Duration>) {
    UNIX_EPOCH.elapsed().ok()
}

/// Relies on std::time::Instant::now: a reading of the monotonic clock.
#[verifier::external_body]
pub(crate) fn instant_now() -> (r: Instant) {
    Instant::now()
}

/// Relies on std::time::Instant::elapsed: the monotonic time since `origin`.
/// Nothing is promised of the value.
#[verifier::external_body]
pub(crate) fn elapsed_since(origin: &Instant) -> (r: Duration) {
    origin.elapsed()
}

/// Relies on std::time::Duration::as_millis: the whole milliseconds in `d`.
#[verifier::external_body]
fn duration_millis(d: Duration) -> (r: u128) {
    d.as_millis()
}

/// Relies on std::time::Duration::as_nanos: the whole nanoseconds in `d`.
#[verifier::external_body]
pub(crate) fn duration_nanos(d: Duration) -> (r: u128)
    ensures
        r == nanos_of(d),
{
    d.as_nanos()
}

/// The wall clock in whole milliseconds since the Unix epoch; 0 if the clock
/// reads earlier than the epoch.
pub(crate) fn now_millis() -> (r: u128) {
    match since_epoch() {
        Some(d) => duration_millis(d),
        None => 0,
    }
}

} // verus!
