//! Fixed-point conventions shared by every component.

use vstd::prelude::*;

verus! {

/// The fixed-point representation of 1.0: values count millionths.
pub const UNIT: i64 = 1_000_000;

/// `x` limited to the closed interval from `lo` to `hi`.
pub open spec fn clamp(x: int, lo: int, hi: int) -> int {
    if x < lo {
        lo
    } else if x > hi {
        hi
    } else {
        x
    }
}

/// Limits `x` to the unit interval, from 0 to [`UNIT`].
pub fn clamp_unit(x: i64) -> (r: i64)
    ensures
        r == clamp(x as int, 0, UNIT as int),
{
    if x < 0 {
        0
    } else if x > UNIT {
        UNIT
    } else {
        x
    }
}

} // verus!
