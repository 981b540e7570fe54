//! The wall clock, as far as the logger and the phrase picker read it.
use vstd::prelude::*;
use core::time::Duration;
use std::time::SystemTime;

verus! {

/// The system clock's reading.
#[verifier::external_type_specification]
#[verifier::external_body]
pub struct ExSystemTime(SystemTime);

/// The current reading of the system clock (`SystemTime::now`). Nothing is
/// promised of the value.
#[verifier::external_body]
pub(crate) fn system_now() -> (r: SystemTime) {
    SystemTime::now()
}

/// The time from the Unix epoch to `t` (`SystemTime::duration_since(UNIX_EPOCH)`),
/// zero when `t` is before the epoch (the error case). Nothing is promised of the value.
#[verifier::external_body]
pub(crate) fn duration_since_epoch(t: &SystemTime) -> (r: Duration) {
    match t.duration_since(std::time::UNIX_EPOCH) {
        Ok(d) => d,
        Err(_) => Duration::ZERO,
    }
}

/// The time elapsed since the Unix epoch, zero when the clock is before it.
pub(crate) fn since_epoch() -> Duration {
    let now = system_now();
    duration_since_epoch(&now)
}

/// Whole seconds of `d` (`Duration::as_secs`). Nothing is promised of the value.
#[verifier::external_body]
pub(crate) fn whole_seconds(d: &Duration) -> (r: u64) {
    d.as_secs()
}

/// The fractional part of `d` in whole milliseconds (`Duration::subsec_millis`),
/// which its documentation says is less than one thousand.
#[verifier::external_body]
pub(crate) fn sub_second_millis(d: &Duration) -> (r: u32)
    ensures
        r < 1000,
{
    d.subsec_millis()
}

/// The fractional part of `d` in nanoseconds (`Duration::subsec_nanos`),
/// which its documentation says is less than one billion.
#[verifier::external_body]
pub(crate) fn sub_second_nanos(d: &Duration) -> (r: u32)
    ensures
        r < 1_000_000_000,
{
    d.subsec_nanos()
}

} // verus!
