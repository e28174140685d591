//! The wall clock, read for the creation time of new todos.
use std::time::{Duration, SystemTime, SystemTimeError, UNIX_EPOCH};
use vstd::prelude::*;

verus! {

#[verifier::external_type_specification]
#[verifier::external_body]
pub struct ExSystemTime(SystemTime);

#[verifier::external_type_specification]
#[verifier::external_body]
pub struct ExSystemTimeError(SystemTimeError);

/// `SystemTime::now`: the current time. Nothing is stated of it: it depends
/// on the machine's clock.
#[verifier::external_body]
fn system_now() -> SystemTime {
    SystemTime::now()
}

/// `SystemTime::duration_since` the Unix epoch: the time elapsed since then,
/// or an error when `t` lies before it. Nothing is stated of the outcome.
#[verifier::external_body]
fn since_epoch(t: &SystemTime) -> Result<Duration, SystemTimeError> {
    t.duration_since(UNIX_EPOCH)
}

/// `Duration::as_secs`: the whole seconds of `d`. `Duration` is opaque here,
/// so nothing is stated of the result.
#[verifier::external_body]
fn whole_secs(d: &Duration) -> u64 {
    d.as_secs()
}

/// The current time in whole seconds since the Unix epoch; 0 when the clock
/// reads a time before the epoch.
pub fn now_secs() -> u64 {
    let now = system_now();
    match since_epoch(&now) {
        Ok(d) => whole_secs(&d),
        Err(_) => 0,
    }
}

/// The creation time given to a stored todo that lacks one: the current time.
pub fn default_created_at() -> u64 {
    now_secs()
}

} // verus!
