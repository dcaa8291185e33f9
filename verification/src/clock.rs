//! Wall-clock time.
use std::time::{Duration, SystemTime};
use vstd::prelude::*;

verus! {

/// `std::time::SystemTime`, a point in time.
#[verifier::external_type_specification]
#[verifier::external_body]
pub struct ExSystemTime(SystemTime);

/// `SystemTime::now`: the current time, of which nothing is known beforehand.
#[verifier::external_body]
fn system_now() -> SystemTime {
    SystemTime::now()
}

/// `SystemTime::duration_since` the start of the Unix epoch: `None` for a time before it. How
/// long it is depends on the clock.
#[verifier::external_body]
fn since_epoch(t: SystemTime) -> Option<Duration> {
    t.duration_since(SystemTime::UNIX_EPOCH).ok()
}

/// `Duration::as_secs`: the whole seconds of a duration. How many there are depends on the
/// clock that the duration came from.
#[verifier::external_body]
fn whole_seconds(d: Duration) -> u64 {
    d.as_secs()
}

/// The Unix time for a clock that shows `seconds` seconds since the start of the epoch, or a
/// time before it.
pub open spec fn unix_time(seconds: Option<u64>) -> i64 {
    match seconds {
        Some(n) => n as i64,
        None => 0,
    }
}

/// The Unix time for a clock that shows `seconds` seconds since the start of the epoch, or a
/// time before it.
pub fn unix_seconds(seconds: Option<u64>) -> (t: i64)
    ensures
        t == unix_time(seconds),
{
    match seconds {
        Some(n) => n as i64,
        None => 0,
    }
}

/// The current Unix time in seconds, or 0 if the clock shows a time before the epoch.
pub fn now_unix() -> (t: i64)
    ensures
        exists|seconds: Option<u64>| t == #[trigger] unix_time(seconds),
{
    let seconds: Option<u64> = match since_epoch(system_now()) {
        Some(d) => Some(whole_seconds(d)),
        None => None,
    };
    let t: i64 = unix_seconds(seconds);
    assert(t == unix_time(seconds));
    t
}

} // verus!
