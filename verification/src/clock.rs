use vstd::prelude::*;
use std::time::{Duration, SystemTime, UNIX_EPOCH};

verus! {

/// `SystemTime` of the standard library: a reading of the system clock, which
/// is carried from one call to the next and never looked into.
#[verifier::external_type_specification]
#[verifier::external_body]
pub struct ExSystemTime(SystemTime);

/// `SystemTime::now` of the standard library: the reading of the system clock.
/// Nothing is claimed of it.
#[verifier::external_body]
fn system_clock() -> SystemTime {
    SystemTime::now()
}

/// `SystemTime::duration_since` of the standard library, taken from the Unix
/// epoch: the time that lies between the epoch and the reading, or nothing
/// when the reading lies before the epoch. Nothing is claimed of the amount.
#[verifier::external_body]
fn since_epoch(reading: &SystemTime) -> Option<Duration> {
    reading.duration_since(UNIX_EPOCH).ok()
}

/// `Duration::as_nanos` of the standard library: the whole span in
/// nanoseconds. Nothing is claimed of the number.
#[verifier::external_body]
fn nanos_of(span: &Duration) -> u128 {
    span.as_nanos()
}

/// The current time in nanoseconds since the Unix epoch, or `None` when the
/// system clock is set to a time before the epoch.
pub fn get_time_now() -> Option<u128> {
    let reading = system_clock();
    match since_epoch(&reading) {
        Some(span) => Some(nanos_of(&span)),
        None => None,
    }
}

} // verus!
