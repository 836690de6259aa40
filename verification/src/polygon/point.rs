use vstd::prelude::*;
use crate::polygon::arith::lemma_i32_product_bounds;

verus! {

/// A point (or vector) with 32-bit integer coordinates.
#[derive(Debug, Clone, Copy, PartialEq, Eq, Structural, PartialOrd, Ord)]
pub struct IntPoint {
    pub x: i32,
    pub y: i32,
}

/// The 2D cross product `a.x * b.y - a.y * b.x` over mathematical integers.
pub open spec fn cross_spec(ax: int, ay: int, bx: int, by: int) -> int {
    ax * by - ay * bx
}

/// The 2D dot product `a.x * b.x + a.y * b.y` over mathematical integers.
pub open spec fn dot_spec(ax: int, ay: int, bx: int, by: int) -> int {
    ax * bx + ay * by
}

/// True when a value fits into an `i32`.
pub open spec fn fits_i32(v: int) -> bool {
    i32::MIN <= v <= i32::MAX
}

/// True when a value fits into an `i64`.
pub open spec fn fits_i64(v: int) -> bool {
    i64::MIN <= v <= i64::MAX
}

impl Default for IntPoint {
    fn default() -> (r: Self)
        ensures
            r.x == 0 && r.y == 0,
    {
        IntPoint { x: 0, y: 0 }
    }
}

impl IntPoint {
    /// The origin.
    pub fn zero() -> (r: IntPoint)
        ensures
            r.x == 0 && r.y == 0,
    {
        IntPoint { x: 0, y: 0 }
    }

    /// A marker point that stands for "no point": both coordinates are `i32::MAX`.
    pub fn empty() -> (r: IntPoint)
        ensures
            r.x == i32::MAX && r.y == i32::MAX,
    {
        IntPoint { x: i32::MAX, y: i32::MAX }
    }

    pub fn new(x: i32, y: i32) -> (r: Self)
        ensures
            r.x == x && r.y == y,
    {
        Self { x, y }
    }

    /// Component-wise difference `self - other`.
    pub fn subtract(&self, other: IntPoint) -> (r: IntPoint)
        requires
            fits_i32(self.x - other.x),
            fits_i32(self.y - other.y),
        ensures
            r.x == self.x - other.x,
            r.y == self.y - other.y,
    {
        IntPoint { x: self.x - other.x, y: self.y - other.y }
    }

    /// Component-wise sum `self + other`.
    pub fn add(&self, other: IntPoint) -> (r: IntPoint)
        requires
            fits_i32(self.x + other.x),
            fits_i32(self.y + other.y),
        ensures
            r.x == self.x + other.x,
            r.y == self.y + other.y,
    {
        IntPoint { x: self.x + other.x, y: self.y + other.y }
    }

    /// The cross product `self.x * other.y - self.y * other.x`; it never overflows an `i64`.
    pub fn cross_product(&self, other: IntPoint) -> (r: i64)
        ensures
            r == cross_spec(self.x as int, self.y as int, other.x as int, other.y as int),
    {
        proof {
            lemma_i32_product_bounds(self.x, other.y);
            lemma_i32_product_bounds(self.y, other.x);
        }
        (self.x as i64 * other.y as i64) - (self.y as i64 * other.x as i64)
    }

    /// The dot product `self.x * other.x + self.y * other.y`.
    pub fn dot_product(&self, other: IntPoint) -> (r: i64)
        requires
            fits_i64(dot_spec(self.x as int, self.y as int, other.x as int, other.y as int)),
        ensures
            r == dot_spec(self.x as int, self.y as int, other.x as int, other.y as int),
    {
        proof {
            lemma_i32_product_bounds(self.x, other.x);
            lemma_i32_product_bounds(self.y, other.y);
        }
        (self.x as i64 * other.x as i64) + (self.y as i64 * other.y as i64)
    }

    /// The squared Euclidean distance between two points.
    pub fn sqr_distance(&self, other: IntPoint) -> (r: i64)
        requires
            fits_i32(self.x - other.x),
            fits_i32(self.y - other.y),
            fits_i64((self.x - other.x) * (self.x - other.x) + (self.y - other.y) * (self.y - other.y)),
        ensures
            r == (self.x - other.x) * (self.x - other.x) + (self.y - other.y) * (self.y - other.y),
    {
        let dx = (self.x - other.x) as i64;
        let dy = (self.y - other.y) as i64;
        proof {
            lemma_i32_product_bounds((self.x - other.x) as i32, (self.x - other.x) as i32);
            lemma_i32_product_bounds((self.y - other.y) as i32, (self.y - other.y) as i32);
        }
        dx * dx + dy * dy
    }

    /// Same as [`IntPoint::sqr_distance`].
    pub fn sqr_dist(&self, other: IntPoint) -> (r: i64)
        requires
            fits_i32(self.x - other.x),
            fits_i32(self.y - other.y),
            fits_i64((self.x - other.x) * (self.x - other.x) + (self.y - other.y) * (self.y - other.y)),
        ensures
            r == (self.x - other.x) * (self.x - other.x) + (self.y - other.y) * (self.y - other.y),
    {
        self.sqr_distance(other)
    }

    /// The squared length of the vector from the origin.
    pub fn sqr_length(&self) -> (r: i64)
        requires
            fits_i64(self.x * self.x + self.y * self.y),
        ensures
            r == self.x * self.x + self.y * self.y,
    {
        let x = self.x as i64;
        let y = self.y as i64;
        proof {
            lemma_i32_product_bounds(self.x, self.x);
            lemma_i32_product_bounds(self.y, self.y);
        }
        x * x + y * y
    }
}

} // verus!
