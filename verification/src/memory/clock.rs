//! The wall clock.

use vstd::prelude::*;

verus! {

/// A point in time of the standard library.
#[verifier::external_type_specification]
#[verifier::external_body]
pub struct ExSystemTime(std::time::SystemTime);

/// Reads the system clock.
///
/// Calls `std::time::SystemTime::now`. Nothing is claimed of the time.
#[verifier::external_body]
fn system_time() -> (now: std::time::SystemTime) {
    std::time::SystemTime::now()
}

/// The time that has passed since the Unix epoch, if the clock stands after
/// it.
///
/// Calls `std::time::SystemTime::duration_since` with the Unix epoch. Nothing
/// is claimed of the duration, which follows from the clock.
#[verifier::external_body]
fn since_epoch(now: std::time::SystemTime) -> (elapsed: Option<std::time::Duration>) {
    now.duration_since(std::time::UNIX_EPOCH).ok()
}

/// The whole milliseconds of a duration.
///
/// Calls `std::time::Duration::as_millis`. Nothing is claimed of the number,
/// since nothing is known of the duration.
#[verifier::external_body]
fn milliseconds(elapsed: std::time::Duration) -> (count: u128) {
    elapsed.as_millis()
}

/// The time that is recorded for a clock that stands so many milliseconds
/// after the Unix epoch: zero if it stands before it.
pub fn recorded_time(elapsed: Option<u128>) -> (time: u128)
    ensures
        time == match elapsed {
            Some(milliseconds) => milliseconds,
            None => 0,
        },
{
    match elapsed {
        Some(milliseconds) => milliseconds,
        None => 0,
    }
}

/// `time` is what a reading of the system clock comes to: the whole
/// milliseconds that have passed since the Unix epoch, and zero if the clock
/// stands before it.
pub closed spec fn clock_reading(time: u128) -> bool {
    exists|now: std::time::SystemTime, elapsed: Option<std::time::Duration>|
        {
            &&& call_ensures(system_time, (), now)
            &&& #[trigger] call_ensures(since_epoch, (now,), elapsed)
            &&& match elapsed {
                Some(elapsed) => call_ensures(milliseconds, (elapsed,), time),
                None => time == 0,
            }
        }
}

/// The time that is recorded now: a reading of the system clock. Which one it is
/// the clock decides.
pub(crate) fn unix_milliseconds() -> (now: u128)
    ensures
        clock_reading(now),
{
    match since_epoch(system_time()) {
        Some(elapsed) => recorded_time(Some(milliseconds(elapsed))),
        None => recorded_time(None),
    }
}

} // verus!
