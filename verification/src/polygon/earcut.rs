use vstd::prelude::*;
use crate::polygon::arith::lemma_i32_product_bounds;
use crate::polygon::fix_vec::FixVec;
use crate::polygon::point::{IntPoint, fits_i32, fits_i64, cross_spec, dot_spec};

verus! {

/// Where a point lies relative to a triangle when its `c, a` edge counts as inside.
#[derive(Debug, PartialEq, Eq, Structural)]
pub enum ABCExcludeResult {
    Inside,
    Outside,
    OutsideEdge,
}

/// A counter-clockwise triangle `a, b, c` with its three edge vectors.
pub struct Abc {
    pub a: IntPoint,
    pub b: IntPoint,
    pub c: IntPoint,
    pub ab: FixVec,
    pub bc: FixVec,
    pub ca: FixVec,
}

/// All differences between the coordinates of the given points fit into an `i32`.
pub open spec fn diffs_fit(p: IntPoint, q: IntPoint) -> bool {
    fits_i32(p.x - q.x) && fits_i32(p.y - q.y)
}

/// `(p - o) x e`, the cross product the containment tests use.
pub open spec fn edge_cross(p: IntPoint, o: IntPoint, ex: int, ey: int) -> int {
    cross_spec(p.x - o.x, p.y - o.y, ex, ey)
}

/// The value of `(p - o) x (q - o)` for three points.
pub open spec fn side(p: IntPoint, o: IntPoint, q: IntPoint) -> int {
    edge_cross(p, o, q.x - o.x, q.y - o.y)
}

/// `p` lies strictly on the inner side of all three edges of `a, b, c`.
pub open spec fn abc_strictly_inside(a: IntPoint, b: IntPoint, c: IntPoint, p: IntPoint) -> bool {
    side(p, a, b) < 0 && side(p, b, c) < 0 && side(p, c, a) < 0
}

/// `(a - p) . (b - p) < 0`: for `p` on the line through `a` and `b`, it lies strictly between them.
pub open spec fn between_spec(a: IntPoint, b: IntPoint, p: IntPoint) -> bool {
    dot_spec(a.x - p.x, a.y - p.y, b.x - p.x, b.y - p.y) < 0
}

/// The classification that [`Abc::contains_exclude_ca`] returns.
pub open spec fn exclude_ca_spec(a: IntPoint, b: IntPoint, c: IntPoint, p: IntPoint) -> ABCExcludeResult {
    if side(p, a, b) >= 0 || side(p, b, c) >= 0 {
        ABCExcludeResult::Outside
    } else if side(p, c, a) < 0 {
        ABCExcludeResult::Inside
    } else if side(p, c, a) == 0 && between_spec(a, c, p) {
        ABCExcludeResult::Inside
    } else {
        ABCExcludeResult::OutsideEdge
    }
}

proof fn lemma_cross_fits(px: i32, py: i32, ex: i32, ey: i32)
    ensures
        fits_i64(px * ey),
        fits_i64(py * ex),
        fits_i64(cross_spec(px as int, py as int, ex as int, ey as int)),
{
    lemma_i32_product_bounds(px, ey);
    lemma_i32_product_bounds(py, ex);
}

impl Abc {
    /// The edge vectors are the differences of the corners.
    pub open spec fn wf(&self) -> bool {
        &&& self.ab.x == self.b.x - self.a.x && self.ab.y == self.b.y - self.a.y
        &&& self.bc.x == self.c.x - self.b.x && self.bc.y == self.c.y - self.b.y
        &&& self.ca.x == self.a.x - self.c.x && self.ca.y == self.a.y - self.c.y
        &&& diffs_fit(self.b, self.a) && diffs_fit(self.c, self.b) && diffs_fit(self.a, self.c)
    }

    pub fn new(a: IntPoint, b: IntPoint, c: IntPoint) -> (r: Self)
        requires
            diffs_fit(b, a),
            diffs_fit(c, b),
            diffs_fit(a, c),
        ensures
            r.wf(),
            r.a == a && r.b == b && r.c == c,
    {
        let ab = FixVec::new_point(b.subtract(a));
        let bc = FixVec::new_point(c.subtract(b));
        let ca = FixVec::new_point(a.subtract(c));
        Self { a, b, c, ab, bc, ca }
    }

    /// True when `p` lies strictly inside the triangle.
    pub fn contains(&self, p: IntPoint) -> (r: bool)
        requires
            self.wf(),
            diffs_fit(p, self.a),
            diffs_fit(p, self.b),
            diffs_fit(p, self.c),
        ensures
            r == abc_strictly_inside(self.a, self.b, self.c, p),
    {
        let ap = FixVec::new_point(p.subtract(self.a));
        proof { lemma_cross_fits((p.x - self.a.x) as i32, (p.y - self.a.y) as i32, self.ab.x as i32, self.ab.y as i32); }
        let a_cross = ap.cross_product(self.ab);
        if a_cross >= 0 {
            return false;
        }
        let bp = FixVec::new_point(p.subtract(self.b));
        proof { lemma_cross_fits((p.x - self.b.x) as i32, (p.y - self.b.y) as i32, self.bc.x as i32, self.bc.y as i32); }
        let b_cross = bp.cross_product(self.bc);
        if b_cross >= 0 {
            return false;
        }
        let cp = FixVec::new_point(p.subtract(self.c));
        proof { lemma_cross_fits((p.x - self.c.x) as i32, (p.y - self.c.y) as i32, self.ca.x as i32, self.ca.y as i32); }
        let c_cross = cp.cross_product(self.ca);
        c_cross < 0
    }

    /// Like [`Abc::contains`], but a point on the open edge `c, a` counts as inside,
    /// and a point outside only across that edge is told apart as `OutsideEdge`.
    pub fn contains_exclude_ca(&self, p: IntPoint) -> (r: ABCExcludeResult)
        requires
            self.wf(),
            diffs_fit(p, self.a),
            diffs_fit(p, self.b),
            diffs_fit(p, self.c),
            (side(p, self.a, self.b) < 0 && side(p, self.b, self.c) < 0 && side(p, self.c, self.a) == 0)
                ==> (diffs_fit(self.a, p) && diffs_fit(self.c, p)
                && fits_i64(dot_spec(self.a.x - p.x, self.a.y - p.y, self.c.x - p.x, self.c.y - p.y))),
        ensures
            r == exclude_ca_spec(self.a, self.b, self.c, p),
    {
        let ap = FixVec::new_point(p.subtract(self.a));
        proof { lemma_cross_fits((p.x - self.a.x) as i32, (p.y - self.a.y) as i32, self.ab.x as i32, self.ab.y as i32); }
        let a_cross = ap.cross_product(self.ab);
        if a_cross >= 0 {
            return ABCExcludeResult::Outside;
        }
        let bp = FixVec::new_point(p.subtract(self.b));
        proof { lemma_cross_fits((p.x - self.b.x) as i32, (p.y - self.b.y) as i32, self.bc.x as i32, self.bc.y as i32); }
        let b_cross = bp.cross_product(self.bc);
        if b_cross >= 0 {
            return ABCExcludeResult::Outside;
        }
        let cp = FixVec::new_point(p.subtract(self.c));
        proof { lemma_cross_fits((p.x - self.c.x) as i32, (p.y - self.c.y) as i32, self.ca.x as i32, self.ca.y as i32); }
        let c_cross = cp.cross_product(self.ca);
        if c_cross < 0 {
            ABCExcludeResult::Inside
        } else if c_cross == 0 {
            if AB::contains(self.a, self.c, p) {
                ABCExcludeResult::Inside
            } else {
                ABCExcludeResult::OutsideEdge
            }
        } else {
            ABCExcludeResult::OutsideEdge
        }
    }
}

/// Segment helpers.
pub struct AB;

impl AB {
    /// For `p` already on the line through `a` and `b`: true when `p` lies strictly
    /// between them (the ends excluded), that is when `a - p` and `b - p` point in
    /// opposite directions.
    pub fn contains(a: IntPoint, b: IntPoint, p: IntPoint) -> (r: bool)
        requires
            diffs_fit(a, p),
            diffs_fit(b, p),
            fits_i64(dot_spec(a.x - p.x, a.y - p.y, b.x - p.x, b.y - p.y)),
        ensures
            r == between_spec(a, b, p),
    {
        let ap = FixVec::new_point(a.subtract(p));
        let bp = FixVec::new_point(b.subtract(p));
        proof {
            lemma_i32_product_bounds((a.x - p.x) as i32, (b.x - p.x) as i32);
            lemma_i32_product_bounds((a.y - p.y) as i32, (b.y - p.y) as i32);
        }
        ap.dot_product(bp) < 0
    }
}

} // verus!
