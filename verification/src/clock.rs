//! The time of day.

use std::time::{Duration, SystemTime, SystemTimeError, UNIX_EPOCH};
use vstd::prelude::*;

verus! {

/// `std::time::SystemTime`, a moment of the system's clock. Nothing is known of what is in it.
#[verifier::external_type_specification]
#[verifier::external_body]
pub struct ExSystemTime(SystemTime);

/// `std::time::SystemTimeError`, which says how much earlier a moment is than another one.
/// Nothing is known of what is in it.
#[verifier::external_type_specification]
#[verifier::external_body]
pub struct ExSystemTimeError(SystemTimeError);

/// `SystemTime::now` reads the system's clock. What it shows is not known beforehand.
pub assume_specification[ SystemTime::now ]() -> SystemTime;

/// `SystemTime::duration_since` tells how much later a moment is than the start of Unix time, or
/// that it is earlier. Nothing is claimed of either.
#[verifier::external_body]
fn since_unix_epoch(t: SystemTime) -> Result<Duration, SystemTimeError> {
    t.duration_since(UNIX_EPOCH)
}

/// `Duration::as_secs` gives the whole seconds of a span of time. Nothing is claimed of them.
pub assume_specification[ Duration::as_secs ](d: &Duration) -> u64;

/// The seconds since the start of Unix time, none if the clock shows an earlier moment.
pub fn seconds_or_zero(elapsed: Option<u64>) -> (r: u64)
    ensures
        r == (match elapsed {
            Some(n) => n,
            None => 0,
        }),
{
    match elapsed {
        Some(n) => n,
        None => 0,
    }
}

/// The seconds since the start of Unix time by the system's clock.
///
/// What the clock shows is not known beforehand, so nothing is stated of the number; what is made
/// of it is stated by [`seconds_or_zero`].
pub fn now_secs() -> u64 {
    match since_unix_epoch(SystemTime::now()) {
        Ok(d) => seconds_or_zero(Some(d.as_secs())),
        Err(_) => seconds_or_zero(None),
    }
}

} // verus!
