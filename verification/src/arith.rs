//! Saturating arithmetic on signed 64-bit numbers: counters and times stop
//! at the ends of the range instead of wrapping around.

use vstd::prelude::*;

verus! {

/// The 64-bit number nearest to `x`.
pub open spec fn clamp(x: int) -> i64 {
    if x > i64::MAX {
        i64::MAX
    } else if x < i64::MIN {
        i64::MIN
    } else {
        x as i64
    }
}

/// `a + b`, stopping at the ends of the range.
pub fn saturating_sum(a: i64, b: i64) -> (r: i64)
    ensures
        r == clamp(a + b),
{
    if b > 0 && a > i64::MAX - b {
        i64::MAX
    } else if b < 0 && a < i64::MIN - b {
        i64::MIN
    } else {
        a + b
    }
}

/// `a - b`, stopping at the ends of the range.
pub fn saturating_difference(a: i64, b: i64) -> (r: i64)
    ensures
        r == clamp(a - b),
{
    if b < 0 && a > i64::MAX + b {
        i64::MAX
    } else if b > 0 && a < i64::MIN + b {
        i64::MIN
    } else {
        a - b
    }
}

/// The count `n` as far as the machine's word can hold it.
pub open spec fn word(n: nat) -> usize {
    if n > usize::MAX {
        usize::MAX
    } else {
        n as usize
    }
}

/// The count `n` as a machine word, stopping at the largest word.
pub fn to_word(n: u64) -> (r: usize)
    ensures
        r == word(n as nat),
{
    if n > usize::MAX as u64 {
        usize::MAX
    } else {
        n as usize
    }
}

} // verus!
