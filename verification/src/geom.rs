//! Small integer helpers used by the renderer.

use vstd::prelude::*;

verus! {

/// A mathematical value forced into the 32-bit signed range, saturating
/// at either end.
pub open spec fn clamp_i32(v: int) -> i32 {
    if v > i32::MAX {
        i32::MAX
    } else if v < i32::MIN {
        i32::MIN
    } else {
        v as i32
    }
}

/// The larger of two coordinates.
pub fn max(x: i32, y: i32) -> (r: i32)
    ensures
        r == if x > y {
            x
        } else {
            y
        },
{
    if x > y {
        x
    } else {
        y
    }
}

/// The smaller of two coordinates.
pub fn min(x: i32, y: i32) -> (r: i32)
    ensures
        r == if x < y {
            x
        } else {
            y
        },
{
    if x < y {
        x
    } else {
        y
    }
}

/// `x` forced into the interval `[low, high]`.
pub fn clamp(x: i32, low: i32, high: i32) -> (r: i32)
    requires
        low <= high,
    ensures
        low <= r <= high,
        r == if x < low {
            low
        } else if x > high {
            high
        } else {
            x
        },
{
    min(max(low, x), high)
}

} // verus!
