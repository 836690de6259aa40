use vstd::prelude::*;
use crate::polygon::point::IntPoint;

verus! {

/// An unsigned integer type that triangle vertex indices can be stored in.
pub trait IndexType: Sized + Copy {
    /// The integer this index stands for.
    spec fn index_value(&self) -> int;

    /// The largest index the type can hold.
    spec fn max_index() -> int;

    /// The index 0.
    fn zero() -> (r: Self)
        ensures
            r.index_value() == 0;

    /// Converts a `usize` index, or gives `None` when it does not fit.
    fn try_from_usize(v: usize) -> (r: Option<Self>)
        ensures
            v <= Self::max_index() ==> (r matches Some(i) && i.index_value() == v),
            v > Self::max_index() ==> r is None;
}

impl IndexType for u16 {
    open spec fn index_value(&self) -> int {
        *self as int
    }

    open spec fn max_index() -> int {
        u16::MAX as int
    }

    fn zero() -> (r: Self) {
        0
    }

    fn try_from_usize(v: usize) -> (r: Option<Self>) {
        if v <= 0xffff {
            Some(v as u16)
        } else {
            None
        }
    }
}

impl IndexType for u32 {
    open spec fn index_value(&self) -> int {
        *self as int
    }

    open spec fn max_index() -> int {
        u32::MAX as int
    }

    fn zero() -> (r: Self) {
        0
    }

    fn try_from_usize(v: usize) -> (r: Option<Self>) {
        if v <= 0xffff_ffff {
            Some(v as u32)
        } else {
            None
        }
    }
}

impl IndexType for usize {
    open spec fn index_value(&self) -> int {
        *self as int
    }

    open spec fn max_index() -> int {
        usize::MAX as int
    }

    fn zero() -> (r: Self) {
        0
    }

    fn try_from_usize(v: usize) -> (r: Option<Self>) {
        Some(v)
    }
}

/// A vertex of a Delaunay triangle: the index of its point and the point itself.
#[derive(Debug, Clone, Copy)]
pub struct IntVertex {
    pub index: usize,
    pub point: IntPoint,
}

/// A triangle of a Delaunay triangulation.
#[derive(Debug, Clone, Copy)]
pub struct IntTriangle {
    pub vertices: [IntVertex; 3],
}

/// A Delaunay triangulation over integer points.
pub struct IntDelaunay {
    pub points: Vec<IntPoint>,
    pub triangles: Vec<IntTriangle>,
}

/// A triangulation as a flat list of vertex indices (three per triangle) and the points.
pub struct IntTriangulation<I> {
    pub indices: Vec<I>,
    pub points: Vec<IntPoint>,
}

/// The index that a vertex index becomes in `I`: itself when it fits, else 0.
pub open spec fn stored_index<I: IndexType>(v: usize) -> int {
    if v <= I::max_index() { v as int } else { 0 }
}

/// The flat index list of the given triangles.
pub open spec fn indices_spec<I: IndexType>(triangles: Seq<IntTriangle>) -> Seq<int> {
    Seq::new(3 * triangles.len(), |k: int| stored_index::<I>(triangles[k / 3].vertices[k % 3].index))
}

/// The flat index list holds three entries per triangle, in triangle order: entry
/// `3 * k + j` is vertex `j` of triangle `k`, as it is stored in `I`.
pub proof fn indices_in_triangle_order<I: IndexType>(triangles: Seq<IntTriangle>)
    ensures
        indices_spec::<I>(triangles).len() == 3 * triangles.len(),
        forall|k: int, j: int| 0 <= k < triangles.len() && 0 <= j < 3 ==>
            #[trigger] indices_spec::<I>(triangles)[3 * k + j] == stored_index::<I>(triangles[k].vertices[j].index),
{
    assert forall|k: int, j: int| 0 <= k < triangles.len() && 0 <= j < 3 implies
        #[trigger] indices_spec::<I>(triangles)[3 * k + j] == stored_index::<I>(triangles[k].vertices[j].index) by {
        let n = 3 * k + j;
        assert(n / 3 == k && n % 3 == j) by (nonlinear_arith)
            requires n == 3 * k + j, 0 <= j < 3;
        assert(0 <= n < 3 * triangles.len()) by (nonlinear_arith)
            requires n == 3 * k + j, 0 <= j < 3, 0 <= k < triangles.len();
    }
}

impl IntDelaunay {
    /// The points of the triangulation.
    pub fn points(&self) -> (r: &Vec<IntPoint>)
        ensures
            r@ == self.points@,
    {
        &self.points
    }

    /// Three indices per triangle, in triangle order; an index that does not fit into `I` becomes 0.
    pub fn triangle_indices<I: IndexType>(&self) -> (r: Vec<I>)
        requires
            3 * self.triangles@.len() <= usize::MAX,
        ensures
            r@.len() == indices_spec::<I>(self.triangles@).len(),
            forall|k: int| 0 <= k < r@.len() ==> #[trigger] r@[k].index_value() == indices_spec::<I>(self.triangles@)[k],
    {
        let mut result: Vec<I> = Vec::with_capacity(3 * self.triangles.len());
        let mut t: usize = 0;
        while t < self.triangles.len()
            invariant
                t <= self.triangles@.len(),
                result@.len() == 3 * t,
                forall|k: int| 0 <= k < result@.len() ==> #[trigger] result@[k].index_value() == stored_index::<I>(
                    self.triangles@[k / 3].vertices[k % 3].index),
            decreases self.triangles@.len() - t,
        {
            let v = &self.triangles[t].vertices;
            let mut j: usize = 0;
            while j < 3
                invariant
                    t < self.triangles@.len(),
                    j <= 3,
                    *v == self.triangles@[t as int].vertices,
                    result@.len() == 3 * t + j,
                    forall|k: int| 0 <= k < result@.len() ==> #[trigger] result@[k].index_value() == stored_index::<I>(
                        self.triangles@[k / 3].vertices[k % 3].index),
                decreases 3 - j,
            {
                let idx = match I::try_from_usize(v[j].index) {
                    Some(i) => i,
                    None => I::zero(),
                };
                result.push(idx);
                proof {
                    let k = (3 * t + j) as int;
                    assert(k / 3 == t as int && k % 3 == j as int) by (nonlinear_arith)
                        requires k == 3 * t + j, 0 <= j < 3;
                }
                j += 1;
            }
            t += 1;
        }
        result
    }

    /// Turns the triangulation into a flat index list plus its points.
    pub fn into_triangulation<I: IndexType>(self) -> (r: IntTriangulation<I>)
        requires
            3 * self.triangles@.len() <= usize::MAX,
        ensures
            r.points@ == self.points@,
            r.indices@.len() == indices_spec::<I>(self.triangles@).len(),
            forall|k: int| 0 <= k < r.indices@.len() ==> #[trigger] r.indices@[k].index_value() == indices_spec::<I>(self.triangles@)[k],
    {
        IntTriangulation { indices: self.triangle_indices(), points: self.points }
    }
}

} // verus!
