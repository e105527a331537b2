//! Width conversions between the integer types used for sizes and counts.

use vstd::prelude::*;

verus! {

/// `u64` to `usize`; a value that does not fit becomes `usize::MAX`.
pub fn u64_as_usize(value: u64) -> (result: usize)
    ensures
        value <= usize::MAX ==> result == value,
        value > usize::MAX ==> result == usize::MAX,
{
    if value <= usize::MAX as u64 {
        value as usize
    } else {
        usize::MAX
    }
}

/// `usize` to `u64`, without loss.
pub fn usize_as_u64(value: usize) -> (result: u64)
    ensures
        result == value,
{
    value as u64
}

/// `usize` to `i64`; a value that does not fit becomes `i64::MAX`.
pub fn usize_as_i64(value: usize) -> (result: i64)
    ensures
        value <= i64::MAX ==> result == value,
        value > i64::MAX ==> result == i64::MAX,
{
    if value as u64 <= i64::MAX as u64 {
        value as i64
    } else {
        i64::MAX
    }
}

} // verus!
