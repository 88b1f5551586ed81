//! Points in time as whole nanoseconds since the Unix epoch.

use std::time::Duration;
use std::time::SystemTimeError;
use std::time::UNIX_EPOCH;
use vstd::prelude::*;

verus! {

/// The error of `SystemTime::elapsed`; nothing of it is read.
#[verifier::external_type_specification]
#[verifier::external_body]
pub struct ExSystemTimeError(SystemTimeError);

/// `SystemTime::elapsed` on `UNIX_EPOCH`: the system clock's distance from
/// the epoch, or an error when the clock stands before it. Nothing is
/// claimed of the result.
#[verifier::external_body]
fn since_epoch() -> Result<Duration, SystemTimeError> {
    UNIX_EPOCH.elapsed()
}

/// `Duration::as_nanos`: the duration in whole nanoseconds. Nothing is
/// claimed of the result.
#[verifier::external_body]
fn whole_nanos(d: &Duration) -> u128 {
    d.as_nanos()
}

/// Whether a clock that reads `now` has moved more than `ttl` past `stamp`.
/// A clock that reads less than `stamp` has moved back; nothing has expired
/// for it.
pub open spec fn expired(ttl: u128, stamp: u128, now: u128) -> bool {
    stamp <= now && now - stamp > ttl
}

/// The time from `stamp` to `now`, or `None` when `now` lies before `stamp`.
pub fn elapsed(stamp: u128, now: u128) -> (r: Option<u128>)
    ensures
        r == (if stamp <= now { Some((now - stamp) as u128) } else { None::<u128> }),
{
    if stamp <= now {
        Some(now - stamp)
    } else {
        None
    }
}

/// Reads the system clock. A clock that stands before the epoch reads as the
/// epoch itself.
pub fn read_clock() -> (now: u128) {
    let since = match since_epoch() {
        Ok(d) => Some(whole_nanos(&d)),
        Err(_) => None,
    };
    reading_of(since)
}

/// The timestamp for what the clock gave: its distance from the epoch, or
/// the epoch itself, 0, where the clock stood before the epoch and gave no
/// distance.
pub fn reading_of(since: Option<u128>) -> (now: u128)
    ensures
        now == (match since {
            Some(n) => n,
            None => 0u128,
        }),
{
    match since {
        Some(n) => n,
        None => 0,
    }
}

} // verus!
