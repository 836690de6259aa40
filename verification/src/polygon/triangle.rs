use vstd::prelude::*;
use core::cmp::Ordering;
use crate::polygon::point::{IntPoint, fits_i64};

verus! {

/// A triangle given by three integer points.
#[derive(Debug, Clone, Copy, PartialEq, Eq, Structural)]
pub struct Triangle {
    pub a: IntPoint,
    pub b: IntPoint,
    pub c: IntPoint,
}

/// `(b - a) x (c - a)`: twice the signed area of the triangle `a, b, c`,
/// positive when the points turn counter-clockwise.
pub open spec fn tri_cross(a: IntPoint, b: IntPoint, c: IntPoint) -> int {
    (b.x - a.x) * (c.y - a.y) - (b.y - a.y) * (c.x - a.x)
}

/// The two products of [`tri_cross`] and its value fit into an `i64`.
pub open spec fn tri_cross_fits(a: IntPoint, b: IntPoint, c: IntPoint) -> bool {
    &&& fits_i64((b.x - a.x) * (c.y - a.y))
    &&& fits_i64((b.y - a.y) * (c.x - a.x))
    &&& fits_i64(tri_cross(a, b, c))
}

impl Triangle {
    pub fn new(a: IntPoint, b: IntPoint, c: IntPoint) -> (r: Self)
        ensures
            r.a == a && r.b == b && r.c == c,
    {
        Self { a, b, c }
    }

    /// Cross product value: (b - a) x (c - a).
    pub fn cross_product(a: IntPoint, b: IntPoint, c: IntPoint) -> (r: i64)
        requires
            tri_cross_fits(a, b, c),
        ensures
            r == tri_cross(a, b, c),
    {
        (b.x as i64 - a.x as i64) * (c.y as i64 - a.y as i64) - (b.y as i64 - a.y as i64) * (
        c.x as i64 - a.x as i64)
    }

    /// True when `a, b, c` turn clockwise.
    pub fn is_clockwise_point(a: IntPoint, b: IntPoint, c: IntPoint) -> (r: bool)
        requires
            tri_cross_fits(a, b, c),
        ensures
            r == (tri_cross(a, b, c) < 0),
    {
        Self::cross_product(a, b, c) < 0
    }

    /// `Less` for a counter-clockwise turn, `Greater` for a clockwise one,
    /// `Equal` for collinear points.
    pub fn clock_order_point(a: IntPoint, b: IntPoint, c: IntPoint) -> (r: Ordering)
        requires
            tri_cross_fits(a, b, c),
        ensures
            tri_cross(a, b, c) > 0 ==> r == Ordering::Less,
            tri_cross(a, b, c) < 0 ==> r == Ordering::Greater,
            tri_cross(a, b, c) == 0 ==> r == Ordering::Equal,
    {
        let val = Self::cross_product(a, b, c);
        if val > 0 {
            Ordering::Less
        } else if val < 0 {
            Ordering::Greater
        } else {
            Ordering::Equal
        }
    }

    /// The sign of the turn `a, b, c`: 1 counter-clockwise, -1 clockwise, 0 collinear.
    pub fn clock_direction_point(a: IntPoint, b: IntPoint, c: IntPoint) -> (r: i32)
        requires
            tri_cross_fits(a, b, c),
        ensures
            r == (if tri_cross(a, b, c) > 0 { 1int } else if tri_cross(a, b, c) < 0 { -1int } else { 0int }),
    {
        let val = Self::cross_product(a, b, c);
        if val > 0 {
            1
        } else if val < 0 {
            -1
        } else {
            0
        }
    }

    /// True when `a, p, b` are collinear.
    pub fn is_line_point(a: IntPoint, p: IntPoint, b: IntPoint) -> (r: bool)
        requires
            tri_cross_fits(a, p, b),
        ensures
            r == (tri_cross(a, p, b) == 0),
    {
        Self::cross_product(a, p, b) == 0
    }

    /// True when `a, p, b` are not collinear.
    pub fn is_not_line_point(a: IntPoint, p: IntPoint, b: IntPoint) -> (r: bool)
        requires
            tri_cross_fits(a, p, b),
        ensures
            r == (tri_cross(a, p, b) != 0),
    {
        Self::cross_product(a, p, b) != 0
    }

    /// True when `a, b, c` turn clockwise or are collinear.
    pub fn is_cw_or_line_point(a: IntPoint, b: IntPoint, c: IntPoint) -> (r: bool)
        requires
            tri_cross_fits(a, b, c),
        ensures
            r == (tri_cross(a, b, c) <= 0),
    {
        Self::cross_product(a, b, c) <= 0
    }

    /// Twice the signed area of the triangle `a, b, c`.
    pub fn area_two_point(a: IntPoint, b: IntPoint, c: IntPoint) -> (r: i64)
        requires
            tri_cross_fits(a, b, c),
        ensures
            r == tri_cross(a, b, c),
    {
        Self::cross_product(a, b, c)
    }

    /// True when `p` lies strictly inside the triangle `a, b, c` (either orientation).
    pub fn is_contain_point_exclude_borders(p: IntPoint, a: IntPoint, b: IntPoint, c: IntPoint) -> (r: bool)
        requires
            tri_cross_fits(a, b, p),
            tri_cross_fits(b, c, p),
            tri_cross_fits(c, a, p),
        ensures
            r == ((tri_cross(a, b, p) > 0 && tri_cross(b, c, p) > 0 && tri_cross(c, a, p) > 0)
                || (tri_cross(a, b, p) < 0 && tri_cross(b, c, p) < 0 && tri_cross(c, a, p) < 0)),
    {
        let cp1 = Self::cross_product(a, b, p);
        let cp2 = Self::cross_product(b, c, p);
        let cp3 = Self::cross_product(c, a, p);
        (cp1 > 0 && cp2 > 0 && cp3 > 0) || (cp1 < 0 && cp2 < 0 && cp3 < 0)
    }
}

} // verus!
