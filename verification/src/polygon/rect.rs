use vstd::prelude::*;
use crate::polygon::point::{IntPoint, fits_i32};

verus! {

/// An axis-aligned rectangle with inclusive integer bounds.
#[derive(Debug, Clone, Copy, PartialEq, Eq, Structural)]
pub struct IntRect {
    pub min_x: i32,
    pub max_x: i32,
    pub min_y: i32,
    pub max_y: i32,
}

/// The smaller of two integers.
pub open spec fn min_i(a: int, b: int) -> int {
    if a <= b { a } else { b }
}

/// The larger of two integers.
pub open spec fn max_i(a: int, b: int) -> int {
    if a >= b { a } else { b }
}

impl IntRect {
    pub fn new(min_x: i32, min_y: i32, max_x: i32, max_y: i32) -> (r: Self)
        ensures
            r.min_x == min_x && r.min_y == min_y && r.max_x == max_x && r.max_y == max_y,
    {
        Self { min_x, min_y, max_x, max_y }
    }

    /// The degenerate rectangle that covers exactly one point.
    pub fn with_point(p: IntPoint) -> (r: Self)
        ensures
            r.min_x == p.x && r.max_x == p.x && r.min_y == p.y && r.max_y == p.y,
    {
        Self { min_x: p.x, min_y: p.y, max_x: p.x, max_y: p.y }
    }

    /// True when the two rectangles overlap or touch.
    pub fn is_intersect_border_include(&self, other: &IntRect) -> (r: bool)
        ensures
            r == (self.min_x <= other.max_x && self.max_x >= other.min_x
                && self.min_y <= other.max_y && self.max_y >= other.min_y),
    {
        self.min_x <= other.max_x && self.max_x >= other.min_x && self.min_y <= other.max_y
            && self.max_y >= other.min_y
    }

    /// True when `p` lies in the rectangle grown by `radius` on every side.
    pub fn contains_with_radius(&self, p: IntPoint, radius: i32) -> (r: bool)
        requires
            fits_i32(self.min_x - radius),
            fits_i32(self.max_x + radius),
            fits_i32(self.min_y - radius),
            fits_i32(self.max_y + radius),
        ensures
            r == (p.x >= self.min_x - radius && p.x <= self.max_x + radius
                && p.y >= self.min_y - radius && p.y <= self.max_y + radius),
    {
        p.x >= self.min_x - radius && p.x <= self.max_x + radius && p.y >= self.min_y - radius
            && p.y <= self.max_y + radius
    }

    /// True when `p` lies in the rectangle, borders included.
    pub fn contains(&self, p: IntPoint) -> (r: bool)
        ensures
            r == (p.x >= self.min_x && p.x <= self.max_x && p.y >= self.min_y && p.y <= self.max_y),
    {
        p.x >= self.min_x && p.x <= self.max_x && p.y >= self.min_y && p.y <= self.max_y
    }

    /// Grows the rectangle so that it covers `p`.
    pub fn unsafe_add_point(&mut self, p: IntPoint)
        ensures
            final(self).min_x == min_i(old(self).min_x as int, p.x as int),
            final(self).max_x == max_i(old(self).max_x as int, p.x as int),
            final(self).min_y == min_i(old(self).min_y as int, p.y as int),
            final(self).max_y == max_i(old(self).max_y as int, p.y as int),
    {
        if p.x < self.min_x {
            self.min_x = p.x;
        }
        if p.x > self.max_x {
            self.max_x = p.x;
        }
        if p.y < self.min_y {
            self.min_y = p.y;
        }
        if p.y > self.max_y {
            self.max_y = p.y;
        }
    }
}

} // verus!
