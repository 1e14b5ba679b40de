//! Instants and durations as plain counts of nanoseconds.
//!
//! An instant is the number of nanoseconds since an origin that the caller picks
//! once (the moment the scheduler was created, say); a duration is a number of
//! nanoseconds.

use vstd::prelude::*;

verus! {

/// Nanoseconds in one millisecond.
pub const NANOS_PER_MILLI: u64 = 1_000_000;

/// The time left until `deadline`, seen from `now`: zero once the deadline has passed.
pub open spec fn remaining(deadline: u64, now: u64) -> u64 {
    if deadline > now {
        (deadline - now) as u64
    } else {
        0
    }
}

/// How long a driver has to sleep, from `now`, to wake at `deadline`. Never negative:
/// a deadline that has already passed gives zero.
pub fn delay_until(deadline: u64, now: u64) -> (d: u64)
    ensures
        d == remaining(deadline, now),
{
    if deadline > now {
        deadline - now
    } else {
        0
    }
}

/// What a host timer that counts whole milliseconds in an `i32` is asked for: the
/// delay's whole milliseconds, or zero where they do not fit.
pub open spec fn millis_or_zero(delay: u64) -> i32 {
    if delay / NANOS_PER_MILLI <= i32::MAX {
        (delay / NANOS_PER_MILLI) as i32
    } else {
        0
    }
}

/// Converts a delay to the argument of a host timer that takes whole milliseconds
/// as an `i32`. The fraction of a millisecond is dropped; a delay too long for the
/// host's range is asked for as zero, so that the driver wakes at once and re-arms.
pub fn timeout_millis(delay: u64) -> (ms: i32)
    ensures
        ms == millis_or_zero(delay),
        ms >= 0,
{
    let whole: u64 = delay / NANOS_PER_MILLI;
    if whole <= 2_147_483_647 {
        whole as i32
    } else {
        0
    }
}

} // verus!
