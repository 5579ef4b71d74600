//! Two-dimensional integer vectors in world units.
use vstd::prelude::*;

verus! {

/// A point or displacement on the integer world grid.
#[derive(Clone, Copy, Debug, PartialEq, Eq, Structural)]
pub struct Vec2 {
    pub x: i32,
    pub y: i32,
}

/// Whether an exact integer value can be stored in a coordinate.
pub open spec fn fits(v: int) -> bool {
    i32::MIN <= v <= i32::MAX
}

/// The floor of `n / d` for a positive `d`.
pub fn floor_div(n: i128, d: i128) -> (r: i128)
    requires
        d > 0,
        n > i128::MIN + d,
    ensures
        r == n as int / d as int,
{
    if n >= 0 {
        n / d
    } else {
        let m: i128 = -n + d - 1;
        let q: i128 = m / d;
        assert(q * d <= m < q * d + d) by (nonlinear_arith)
            requires
                q as int == m as int / d as int,
                d > 0,
                m >= 0,
        ;
        assert(-q == n as int / d as int) by (nonlinear_arith)
            requires
                q * d <= m,
                m < q * d + d,
                d > 0,
                n < 0,
                m == -n + d - 1,
        ;
        -q
    }
}

/// A wide value as a coordinate, when it fits in one.
pub fn to_coord(v: i128) -> (r: Option<i32>)
    ensures
        r is Some <==> fits(v as int),
        r matches Some(c) ==> c == v,
{
    if i32::MIN as i128 <= v && v <= i32::MAX as i128 {
        Some(v as i32)
    } else {
        None
    }
}

impl Vec2 {
    /// Builds a vector from its two components.
    pub fn new(x: i32, y: i32) -> (r: Vec2)
        ensures
            r.x == x,
            r.y == y,
    {
        Vec2 { x, y }
    }

    /// The zero vector.
    pub fn zero() -> (r: Vec2)
        ensures
            r.x == 0,
            r.y == 0,
    {
        Vec2 { x: 0, y: 0 }
    }
}

} // verus!
