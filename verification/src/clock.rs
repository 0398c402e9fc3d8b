//! The wall clock, in whole seconds since the Unix epoch.

use std::time::{Duration, SystemTime, SystemTimeError, UNIX_EPOCH};
use vstd::prelude::*;

verus! {

#[verifier::external_type_specification]
#[verifier::external_body]
pub struct ExSystemTime(SystemTime);

#[verifier::external_type_specification]
#[verifier::external_body]
pub struct ExSystemTimeError(SystemTimeError);

/// `SystemTime::now` reads the system clock; nothing is known of the
/// reading.
pub assume_specification[ SystemTime::now ]() -> SystemTime;

/// `Duration::as_secs` gives the whole seconds of a duration; nothing is
/// stated of them.
pub assume_specification[ Duration::as_secs ](duration: &Duration) -> u64;

/// Calls `SystemTime::duration_since` with `UNIX_EPOCH`, which measures the
/// time from the epoch to `time` and fails where `time` lies before the
/// epoch; nothing is stated of either outcome.
#[verifier::external_body]
fn since_epoch(time: &SystemTime) -> Result<Duration, SystemTimeError> {
    time.duration_since(UNIX_EPOCH)
}

/// Seconds since the Unix epoch, or `None` where the system clock stands
/// before the epoch.
pub fn unix_seconds() -> Option<u64> {
    let time = SystemTime::now();
    match since_epoch(&time) {
        Ok(elapsed) => Some(elapsed.as_secs()),
        Err(_) => None,
    }
}

} // verus!
