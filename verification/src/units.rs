//! Fixed-point coordinates and the arithmetic every system shares.

use vstd::prelude::*;

verus! {

/// Sub-units per world unit. Coordinates and speeds are fixed-point numbers
/// with sixteen fractional bits, held in an `i64`.
pub const UNIT: i64 = 65536;

/// `v` limited to the closed interval `[lo, hi]`.
pub open spec fn clamp(v: int, lo: int, hi: int) -> int {
    if v < lo {
        lo
    } else if v > hi {
        hi
    } else {
        v
    }
}

/// `a + b`, stopped at the ends of the coordinate range instead of wrapping.
pub open spec fn saturating_sum(a: int, b: int) -> int {
    clamp(a + b, i64::MIN as int, i64::MAX as int)
}

/// Limits `v` to `[lo, hi]`.
pub fn clamp_to(v: i64, lo: i64, hi: i64) -> (r: i64)
    requires
        lo <= hi,
    ensures
        r == clamp(v as int, lo as int, hi as int),
{
    if v < lo {
        lo
    } else if v > hi {
        hi
    } else {
        v
    }
}

/// Adds `delta` to `a`; a sum outside the coordinate range stops at its end.
pub fn offset(a: i64, delta: i64) -> (r: i64)
    ensures
        r == saturating_sum(a as int, delta as int),
{
    match a.checked_add(delta) {
        Some(sum) => sum,
        None => if delta < 0 {
            i64::MIN
        } else {
            i64::MAX
        },
    }
}

/// A position in the plane, in sub-units. `x` grows to the right, `y` upward.
#[derive(Clone, Copy, Debug, PartialEq, Eq, Structural)]
pub struct Point {
    pub x: i64,
    pub y: i64,
}

impl Point {
    /// The point with the given coordinates in sub-units.
    pub fn new(x: i64, y: i64) -> (p: Point)
        ensures
            p == (Point { x, y }),
    {
        Point { x, y }
    }

    /// The point with the given coordinates in whole world units.
    pub fn from_units(x: i32, y: i32) -> (p: Point)
        ensures
            p.x == x * UNIT,
            p.y == y * UNIT,
    {
        let px: i64 = x as i64;
        let py: i64 = y as i64;
        Point { x: px * UNIT, y: py * UNIT }
    }
}

} // verus!
