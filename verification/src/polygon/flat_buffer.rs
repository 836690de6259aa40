use vstd::prelude::*;
use core::ops::Range;
use crate::polygon::point::IntPoint;
use vstd::seq_lib::lemma_flatten_concat;

verus! {

/// A contour: the points of one closed polygon path.
pub type IntContour = Vec<IntPoint>;

/// A shape: an outer contour followed by its holes.
pub type IntShape = Vec<IntContour>;

/// A list of shapes.
pub type IntShapes = Vec<IntShape>;

/// Contours stored back to back in one point buffer; `ranges[i]` delimits contour `i`.
#[derive(Debug, Clone)]
pub struct FlatContoursBuffer {
    pub points: Vec<IntPoint>,
    pub ranges: Vec<Range<usize>>,
}

/// The points of the given contours laid end to end.
pub open spec fn flat_points(contours: Seq<Seq<IntPoint>>) -> Seq<IntPoint> {
    contours.flatten()
}

/// The views of a list of contours.
pub open spec fn contour_views(contours: Seq<IntContour>) -> Seq<Seq<IntPoint>> {
    contours.map_values(|c: IntContour| c@)
}

/// The views of all contours of a list of shapes, in order.
pub open spec fn shapes_contours(shapes: Seq<IntShape>) -> Seq<Seq<IntPoint>> {
    shapes.map_values(|s: IntShape| contour_views(s@)).flatten()
}

/// The ranges that storing `contours` after `base` points appends: contour `k`
/// covers the points between the lengths of the first `k` and `k + 1` contours.
pub open spec fn ranges_after(base: int, contours: Seq<Seq<IntPoint>>) -> Seq<(int, int)> {
    Seq::new(
        contours.len(),
        |k: int|
            (
                base + flat_points(contours.take(k)).len(),
                base + flat_points(contours.take(k + 1)).len(),
            ),
    )
}

/// The ranges of a buffer as pairs of integers.
pub open spec fn range_pairs(ranges: Seq<Range<usize>>) -> Seq<(int, int)> {
    ranges.map_values(|r: Range<usize>| (r.start as int, r.end as int))
}

proof fn lemma_flatten_push(contours: Seq<Seq<IntPoint>>, c: Seq<IntPoint>)
    ensures
        flat_points(contours.push(c)) == flat_points(contours) + c,
{
    contours.lemma_flatten_push(c);
}

proof fn lemma_ranges_after_push(base: int, contours: Seq<Seq<IntPoint>>, c: Seq<IntPoint>)
    ensures
        ranges_after(base, contours.push(c)) == ranges_after(base, contours).push(
            (base + flat_points(contours).len(), base + flat_points(contours).len() + c.len()),
        ),
{
    let n = contours.len();
    let s = contours.push(c);
    assert(s.take(n as int) == contours);
    assert(s.take(n as int + 1) == s);
    lemma_flatten_push(contours, c);
    assert forall|k: int| 0 <= k < n implies #[trigger] s.take(k) == contours.take(k)
        && s.take(k + 1) == contours.take(k + 1) by {}
    assert(ranges_after(base, s) =~= ranges_after(base, contours).push(
        (base + flat_points(contours).len(), base + flat_points(contours).len() + c.len()),
    ));
}

proof fn lemma_ranges_after_concat(base: int, a: Seq<Seq<IntPoint>>, b: Seq<Seq<IntPoint>>)
    ensures
        ranges_after(base, a + b) == ranges_after(base, a) + ranges_after(base + flat_points(a).len(), b),
    decreases b.len(),
{
    if b.len() == 0 {
        assert(a + b == a);
        assert(ranges_after(base, a) + ranges_after(base + flat_points(a).len(), b) == ranges_after(base, a));
    } else {
        let b0 = b.drop_last();
        let c = b.last();
        assert(b == b0.push(c));
        assert(a + b == (a + b0).push(c));
        lemma_ranges_after_concat(base, a, b0);
        lemma_ranges_after_push(base, a + b0, c);
        lemma_ranges_after_push(base + flat_points(a).len(), b0, c);
        lemma_flatten_concat(a, b0);
        assert(ranges_after(base, a + b) =~= ranges_after(base, a) + ranges_after(base + flat_points(a).len(), b));
    }
}

impl Default for FlatContoursBuffer {
    fn default() -> (r: Self)
        ensures
            r.points@.len() == 0,
            r.ranges@.len() == 0,
    {
        FlatContoursBuffer { points: Vec::new(), ranges: Vec::new() }
    }
}

impl FlatContoursBuffer {
    /// Appends one contour and records its range.
    pub fn store_contour(&mut self, contour: IntContour)
        ensures
            final(self).points@ == old(self).points@ + contour@,
            range_pairs(final(self).ranges@) == range_pairs(old(self).ranges@).push(
                (old(self).points@.len() as int, (old(self).points@.len() + contour@.len()) as int),
            ),
    {
        let ghost c0 = contour@;
        let mut contour = contour;
        let start = self.points.len();
        self.points.append(&mut contour);
        let end = self.points.len();
        self.ranges.push(Range { start, end });
        proof {
            assert(range_pairs(self.ranges@) =~= range_pairs(old(self).ranges@).push(
                (old(self).points@.len() as int, (old(self).points@.len() + c0.len()) as int),
            ));
        }
    }

    /// Appends every contour of a shape, in order.
    pub fn store_shape(&mut self, shape: IntShape)
        ensures
            final(self).points@ == old(self).points@ + flat_points(contour_views(shape@)),
            range_pairs(final(self).ranges@) == range_pairs(old(self).ranges@) + ranges_after(
                old(self).points@.len() as int,
                contour_views(shape@),
            ),
    {
        let ghost base = old(self).points@.len() as int;
        let ghost old_points = old(self).points@;
        let ghost old_ranges = range_pairs(old(self).ranges@);
        let ghost all = contour_views(shape@);
        for contour in it: shape
            invariant
                it.seq() == shape@,
                all == contour_views(shape@),
                base == old_points.len(),
                self.points@ == old_points + flat_points(all.take(it.index() as int)),
                range_pairs(self.ranges@) == old_ranges + ranges_after(base, all.take(it.index() as int)),
        {
            let ghost k = it.index() as int;
            proof {
                assert(all.take(k + 1) == all.take(k).push(contour@));
                lemma_flatten_push(all.take(k), contour@);
                lemma_ranges_after_push(base, all.take(k), contour@);
            }
            let ghost pts_before = self.points@;
            let ghost rs_before = range_pairs(self.ranges@);
            let ghost cv = contour@;
            self.store_contour(contour);
            proof {
                assert(pts_before.len() == base + flat_points(all.take(k)).len());
                let entry = (base + flat_points(all.take(k)).len(), base + flat_points(all.take(k)).len() + cv.len());
                assert(range_pairs(self.ranges@) == rs_before.push(entry));
                assert(ranges_after(base, all.take(k + 1)) == ranges_after(base, all.take(k)).push(entry));
                assert(rs_before.push(entry) =~= old_ranges + ranges_after(base, all.take(k)).push(entry));
                assert(self.points@ == old_points + flat_points(all.take(k + 1)));
                assert(old_points + flat_points(all.take(k)) + contour@ == old_points + flat_points(all.take(k + 1)));
                assert(range_pairs(self.ranges@) =~= old_ranges + ranges_after(base, all.take(k + 1)));
            }
        }
        proof {
            assert(all.take(all.len() as int) == all);
        }
    }

    /// Appends every contour of every shape, in order.
    pub fn store_shapes(&mut self, shapes: IntShapes)
        ensures
            final(self).points@ == old(self).points@ + flat_points(shapes_contours(shapes@)),
            range_pairs(final(self).ranges@) == range_pairs(old(self).ranges@) + ranges_after(
                old(self).points@.len() as int,
                shapes_contours(shapes@),
            ),
    {
        let ghost base = old(self).points@.len() as int;
        let ghost old_points = old(self).points@;
        let ghost old_ranges = range_pairs(old(self).ranges@);
        let ghost all = shapes_contours(shapes@);
        for shape in it: shapes
            invariant
                it.seq() == shapes@,
                all == shapes_contours(shapes@),
                base == old_points.len(),
                self.points@ == old_points + flat_points(shapes_contours(shapes@.take(it.index() as int))),
                range_pairs(self.ranges@) == old_ranges + ranges_after(base, shapes_contours(shapes@.take(it.index() as int))),
        {
            let ghost k = it.index() as int;
            let ghost done = shapes_contours(shapes@.take(k));
            let ghost cs = contour_views(shape@);
            proof {
                assert(shapes@.take(k + 1) == shapes@.take(k).push(shape));
                assert(shapes@.take(k + 1).map_values(|s: IntShape| contour_views(s@))
                    == shapes@.take(k).map_values(|s: IntShape| contour_views(s@)).push(cs));
                shapes@.take(k).map_values(|s: IntShape| contour_views(s@)).lemma_flatten_push(cs);
                lemma_flatten_concat(done, cs);
                lemma_ranges_after_concat(base, done, cs);
            }
            let ghost pts_before = self.points@;
            let ghost rs_before = range_pairs(self.ranges@);
            self.store_shape(shape);
            proof {
                assert(shapes_contours(shapes@.take(k + 1)) == done + cs);
                assert(pts_before.len() == base + flat_points(done).len());
                assert(self.points@ =~= old_points + flat_points(shapes_contours(shapes@.take(k + 1))));
                assert(range_pairs(self.ranges@) =~= old_ranges + ranges_after(base, shapes_contours(shapes@.take(k + 1))));
            }
        }
        proof {
            assert(shapes@.take(shapes@.len() as int) == shapes@);
        }
    }

    /// Empties the buffer and reserves room for `capacity` points and `count` contours.
    pub fn clear_and_reserve(&mut self, count: usize, capacity: usize)
        ensures
            final(self).points@.len() == 0,
            final(self).ranges@.len() == 0,
    {
        self.points.clear();
        self.ranges.clear();
        self.points.reserve(capacity);
        self.ranges.reserve(count);
    }

    /// Appends a copy of `points` as one contour and records its range.
    pub fn add_contour(&mut self, points: &[IntPoint])
        ensures
            final(self).points@ == old(self).points@ + points@,
            range_pairs(final(self).ranges@) == range_pairs(old(self).ranges@).push(
                (old(self).points@.len() as int, (old(self).points@.len() + points@.len()) as int),
            ),
    {
        let start = self.points.len();
        let mut i: usize = 0;
        while i < points.len()
            invariant
                i <= points@.len(),
                self.points@ == old(self).points@ + points@.take(i as int),
                self.ranges@ == old(self).ranges@,
                start == old(self).points@.len(),
            decreases points@.len() - i,
        {
            self.points.push(points[i]);
            proof {
                assert(points@.take(i + 1) == points@.take(i as int).push(points@[i as int]));
            }
            i += 1;
        }
        proof {
            assert(points@.take(points@.len() as int) == points@);
        }
        let end = self.points.len();
        self.ranges.push(Range { start, end });
        proof {
            assert(range_pairs(self.ranges@) =~= range_pairs(old(self).ranges@).push(
                (old(self).points@.len() as int, (old(self).points@.len() + points@.len()) as int),
            ));
        }
    }

    /// True when exactly one contour is stored.
    pub fn is_single_contour(&self) -> (r: bool)
        ensures
            r == (self.ranges@.len() == 1),
    {
        self.ranges.len() == 1
    }

    /// The points of the first contour, or nothing when no contour is stored.
    pub fn as_first_contour(&self) -> (r: &[IntPoint])
        requires
            self.ranges@.len() > 0 ==> self.ranges@[0].start <= self.ranges@[0].end <= self.points@.len(),
        ensures
            self.ranges@.len() == 0 ==> r@ == Seq::<IntPoint>::empty(),
            self.ranges@.len() > 0 ==> r@ == self.points@.subrange(
                self.ranges@[0].start as int,
                self.ranges@[0].end as int,
            ),
    {
        if self.ranges.len() > 0 {
            let start = self.ranges[0].start;
            let end = self.ranges[0].end;
            let (head, _) = self.points.as_slice().split_at(end);
            let (_, mid) = head.split_at(start);
            proof {
                assert(mid@ =~= self.points@.subrange(start as int, end as int));
            }
            mid
        } else {
            &[]
        }
    }

    /// Mutable access to the points of the first contour (nothing when no contour is stored);
    /// writes through it change exactly that part of the point buffer.
    pub fn as_first_contour_mut(&mut self) -> (r: &mut [IntPoint])
        requires
            old(self).ranges@.len() > 0 ==> old(self).ranges@[0].start <= old(self).ranges@[0].end
                <= old(self).points@.len(),
        ensures
            final(self).ranges@ == old(self).ranges@,
            old(self).ranges@.len() == 0 ==> r@ == Seq::<IntPoint>::empty() && final(self).points@ == old(self).points@,
            old(self).ranges@.len() > 0 ==> {
                let s = old(self).ranges@[0].start as int;
                let e = old(self).ranges@[0].end as int;
                &&& r@ == old(self).points@.subrange(s, e)
                &&& final(self).points@ == old(self).points@.subrange(0, s) + final(r)@
                    + old(self).points@.subrange(e, old(self).points@.len() as int)
            },
    {
        if self.ranges.len() > 0 {
            let start = self.ranges[0].start;
            let end = self.ranges[0].end;
            let (head, _tail) = self.points.as_mut_slice().split_at_mut(end);
            let (_, mid) = head.split_at_mut(start);
            mid
        } else {
            &mut []
        }
    }

    /// True when no point is stored.
    pub fn is_empty(&self) -> (r: bool)
        ensures
            r == (self.points@.len() == 0),
    {
        self.points.is_empty()
    }
}

} // verus!
