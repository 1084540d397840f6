//! The wall clock, read as milliseconds since the epoch.

use vstd::prelude::*;
use std::time::{Duration, SystemTime, SystemTimeError, UNIX_EPOCH};

verus! {

#[verifier::external_type_specification]
#[verifier::external_body]
pub struct ExSystemTime(SystemTime);

#[verifier::external_type_specification]
#[verifier::external_body]
pub struct ExSystemTimeError(SystemTimeError);

/// Calls `SystemTime::now`. The reading depends on the machine and the
/// moment, so nothing is claimed of it.
#[verifier::external_body]
fn wall_clock() -> SystemTime {
    SystemTime::now()
}

/// Calls `SystemTime::duration_since` with the epoch as the earlier time.
/// It fails where the reading lies before the epoch; nothing more is claimed.
#[verifier::external_body]
fn since_epoch(reading: &SystemTime) -> Result<Duration, SystemTimeError> {
    reading.duration_since(UNIX_EPOCH)
}

/// Calls `Duration::as_millis`: the span in whole milliseconds. A `Duration`
/// is opaque here, so nothing is claimed of the number.
#[verifier::external_body]
fn whole_millis(span: &Duration) -> u128 {
    span.as_millis()
}

/// The wall clock's reading in milliseconds since the epoch, or `None` where
/// the clock stands before the epoch.
pub fn now_millis() -> Option<u128> {
    let reading = wall_clock();
    match since_epoch(&reading) {
        Ok(span) => Some(whole_millis(&span)),
        Err(_) => None,
    }
}

} // verus!
