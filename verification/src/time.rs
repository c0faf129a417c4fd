//! Unix time in whole seconds.

use vstd::prelude::*;

verus! {

/// A number moved to the nearest one that 64 signed bits hold.
pub open spec fn clamped(value: int) -> int {
    if value > i64::MAX {
        i64::MAX as int
    } else if value < i64::MIN {
        i64::MIN as int
    } else {
        value
    }
}

/// A sum, held at the bounds of the type.
pub fn saturating_sum(a: i64, b: i64) -> (r: i64)
    ensures
        r == clamped(a + b),
{
    let sum: i128 = a as i128 + b as i128;
    if sum > i64::MAX as i128 {
        i64::MAX
    } else if sum < i64::MIN as i128 {
        i64::MIN
    } else {
        sum as i64
    }
}

/// A difference, held at the bounds of the type.
pub fn saturating_difference(a: i64, b: i64) -> (r: i64)
    ensures
        r == clamped(a - b),
{
    let difference: i128 = a as i128 - b as i128;
    if difference > i64::MAX as i128 {
        i64::MAX
    } else if difference < i64::MIN as i128 {
        i64::MIN
    } else {
        difference as i64
    }
}

/// The time stamp for the seconds that have passed since the Unix epoch, `None` where the clock
/// stands before it: zero then, and the greatest time stamp where there is none so great.
pub fn unix_timestamp(elapsed_seconds: Option<u64>) -> (r: i64)
    ensures
        r == match elapsed_seconds {
            Some(seconds) => clamped(seconds as int),
            None => 0,
        },
{
    match elapsed_seconds {
        Some(seconds) => {
            if seconds > i64::MAX as u64 {
                i64::MAX
            } else {
                seconds as i64
            }
        },
        None => 0,
    }
}

} // verus!
