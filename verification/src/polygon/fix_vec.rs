use vstd::prelude::*;
use crate::polygon::point::{IntPoint, fits_i64, cross_spec, dot_spec};

verus! {

/// A vector with 64-bit integer coordinates.
#[derive(Debug, Clone, Copy, PartialEq, Eq, Structural)]
pub struct FixVec {
    pub x: i64,
    pub y: i64,
}

impl Default for FixVec {
    fn default() -> (r: Self)
        ensures
            r.x == 0 && r.y == 0,
    {
        FixVec { x: 0, y: 0 }
    }
}

impl FixVec {
    pub fn new(x: i64, y: i64) -> (r: Self)
        ensures
            r.x == x && r.y == y,
    {
        Self { x, y }
    }

    /// Widens a point with 32-bit coordinates.
    pub fn new_point(p: IntPoint) -> (r: Self)
        ensures
            r.x == p.x && r.y == p.y,
    {
        Self { x: p.x as i64, y: p.y as i64 }
    }

    /// The cross product `self.x * other.y - self.y * other.x`.
    pub fn cross_product(&self, other: FixVec) -> (r: i64)
        requires
            fits_i64(self.x * other.y),
            fits_i64(self.y * other.x),
            fits_i64(cross_spec(self.x as int, self.y as int, other.x as int, other.y as int)),
        ensures
            r == cross_spec(self.x as int, self.y as int, other.x as int, other.y as int),
    {
        self.x * other.y - self.y * other.x
    }

    /// The dot product `self.x * other.x + self.y * other.y`.
    pub fn dot_product(&self, other: FixVec) -> (r: i64)
        requires
            fits_i64(self.x * other.x),
            fits_i64(self.y * other.y),
            fits_i64(dot_spec(self.x as int, self.y as int, other.x as int, other.y as int)),
        ensures
            r == dot_spec(self.x as int, self.y as int, other.x as int, other.y as int),
    {
        self.x * other.x + self.y * other.y
    }

    /// Component-wise difference `self - other`.
    pub fn subtract(&self, other: FixVec) -> (r: FixVec)
        requires
            fits_i64(self.x - other.x),
            fits_i64(self.y - other.y),
        ensures
            r.x == self.x - other.x,
            r.y == self.y - other.y,
    {
        FixVec { x: self.x - other.x, y: self.y - other.y }
    }
}

} // verus!
