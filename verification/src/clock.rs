//! The wall clock, read through `std::time`.
use vstd::prelude::*;

verus! {

#[verifier::external_type_specification]
#[verifier::external_body]
pub struct ExSystemTime(std::time::SystemTime);

/// Calls `SystemTime::now`. The time is the machine's: nothing is claimed.
#[verifier::external_body]
fn system_now() -> std::time::SystemTime {
    std::time::SystemTime::now()
}

/// Calls `SystemTime::duration_since` with the Unix epoch; `None` when the
/// clock reads before the epoch. Nothing is claimed of the duration.
#[verifier::external_body]
fn since_epoch(t: &std::time::SystemTime) -> Option<core::time::Duration> {
    t.duration_since(std::time::UNIX_EPOCH).ok()
}

/// Calls `Duration::as_secs`: the whole seconds of `d`. Nothing is claimed
/// of the value, which depends on the clock that produced `d`.
#[verifier::external_body]
fn whole_seconds(d: &core::time::Duration) -> u64 {
    d.as_secs()
}

/// Whole seconds since the Unix epoch by the machine's clock: zero when the
/// clock reads before the epoch, and at most `i64::MAX` (a count past the
/// signed range is held there). Which instant it is depends on the machine.
pub fn unix_now() -> (r: i64)
    ensures
        r >= 0,
{
    let secs: u64 = match since_epoch(&system_now()) {
        Some(d) => whole_seconds(&d),
        None => 0,
    };
    if secs > i64::MAX as u64 {
        i64::MAX
    } else {
        secs as i64
    }
}

} // verus!
