//! Time-to-live: when a key or collection counts as gone, and how long it
//! has left. Times are milliseconds since the Unix epoch.

use vstd::prelude::*;
use crate::arith::{clamp, saturating_difference, saturating_sum};

verus! {

/// Milliseconds since the Unix epoch.
pub type TimestampMillis = i64;

/// An expiry time has passed once the clock has reached it.
pub open spec fn is_expired(expiry: Option<i64>, now: i64) -> bool {
    expiry matches Some(at) && at <= now
}

/// The milliseconds left until `expiry`; `None` without an expiry time or
/// once it has passed.
pub open spec fn remaining(expiry: Option<i64>, now: i64) -> Option<i64> {
    match expiry {
        Some(at) => if at <= now {
            None
        } else {
            Some(clamp(at - now))
        },
        None => None,
    }
}

/// The time that lies `duration` milliseconds after `now`.
pub open spec fn deadline(now: i64, duration: i64) -> i64 {
    clamp(now + duration)
}

/// The expiry time of a collection made at `now` with the given lifetime.
pub open spec fn deadline_of(now: i64, lifetime: Option<i64>) -> Option<i64> {
    match lifetime {
        Some(duration) => Some(deadline(now, duration)),
        None => None,
    }
}

/// Whether `expiry` has passed at `now`.
pub fn expired(expiry: Option<TimestampMillis>, now: TimestampMillis) -> (r: bool)
    ensures
        r == is_expired(expiry, now),
{
    match expiry {
        Some(at) => at <= now,
        None => false,
    }
}

/// The milliseconds left until `expiry` at `now`.
pub fn time_left(expiry: Option<TimestampMillis>, now: TimestampMillis) -> (r: Option<
    TimestampMillis,
>)
    ensures
        r == remaining(expiry, now),
{
    match expiry {
        Some(at) => if at <= now {
            None
        } else {
            Some(saturating_difference(at, now))
        },
        None => None,
    }
}

/// The time `duration` milliseconds after `now`.
pub fn expires_after(now: TimestampMillis, duration: TimestampMillis) -> (r: TimestampMillis)
    ensures
        r == deadline(now, duration),
{
    saturating_sum(now, duration)
}

/// The expiry time of a collection made at `now` with the given lifetime.
pub fn expiry_after(now: TimestampMillis, lifetime: Option<TimestampMillis>) -> (r: Option<
    TimestampMillis,
>)
    ensures
        r == deadline_of(now, lifetime),
{
    match lifetime {
        Some(duration) => Some(saturating_sum(now, duration)),
        None => None,
    }
}

} // verus!
