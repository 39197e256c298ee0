use std::time::Duration;
use std::time::SystemTime;
use std::time::SystemTimeError;
use vstd::prelude::*;

verus! {

#[verifier::external_type_specification]
#[verifier::external_body]
pub struct ExSystemTime(SystemTime);

#[verifier::external_type_specification]
#[verifier::external_body]
pub struct ExSystemTimeError(SystemTimeError);

/// Reads the wall clock with `SystemTime::now`. Nothing is promised of the
/// reading: two of them may differ in either direction.
#[verifier::external_body]
fn clock_now() -> (t: SystemTime) {
    SystemTime::now()
}

/// The time from the Unix epoch to `t`, by `SystemTime::duration_since`; an
/// error where `t` lies before the epoch.
#[verifier::external_body]
fn since_epoch(t: &SystemTime) -> (d: Result<Duration, SystemTimeError>) {
    t.duration_since(std::time::UNIX_EPOCH)
}

/// The whole milliseconds of `d`, by `Duration::as_millis`.
#[verifier::external_body]
fn whole_millis(d: &Duration) -> (ms: u128) {
    d.as_millis()
}

/// Milliseconds since the Unix epoch on the local wall clock; zero where the
/// clock shows a time before the epoch.
pub fn now_ts() -> (ts: u128) {
    let t = clock_now();
    let elapsed = match since_epoch(&t) {
        Ok(d) => Some(whole_millis(&d)),
        Err(_) => None,
    };
    timestamp_of(elapsed)
}

/// The timestamp that stands for a reading of the clock: the milliseconds
/// that have passed since the Unix epoch, and zero for a clock that shows a
/// time before the epoch, for which `elapsed` is `None`.
pub fn timestamp_of(elapsed: Option<u128>) -> (ts: u128)
    ensures
        ts == match elapsed {
            Some(ms) => ms,
            None => 0,
        },
{
    match elapsed {
        Some(ms) => ms,
        None => 0,
    }
}

} // verus!
