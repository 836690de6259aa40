use vstd::prelude::*;
use crate::polygon::point::IntPoint;

verus! {

/// A segment end: the point and the id of the node it belongs to.
#[derive(Debug, Clone, Copy)]
pub struct IdPoint {
    pub id: usize,
    pub point: IntPoint,
}

/// A link (edge) of the overlay graph with its fill flags.
#[derive(Debug, Clone, Copy)]
pub struct OverlayLink {
    pub a: IdPoint,
    pub b: IdPoint,
    pub fill: u8,
}

/// A node of a graph, built from the indices of the links that meet in it.
pub trait GraphNode: Sized {
    /// The link indices the node holds.
    spec fn node_indices(&self) -> Seq<usize>;

    /// Builds a node holding exactly the given link indices.
    fn with_indices(indices: &[usize]) -> (r: Self)
        ensures
            r.node_indices() == indices@;
}

impl GraphNode for Vec<usize> {
    open spec fn node_indices(&self) -> Seq<usize> {
        self@
    }

    fn with_indices(indices: &[usize]) -> (r: Self) {
        let mut v: Vec<usize> = Vec::new();
        let mut i: usize = 0;
        while i < indices.len()
            invariant
                i <= indices@.len(),
                v@ == indices@.take(i as int),
            decreases indices@.len() - i,
        {
            v.push(indices[i]);
            proof {
                assert(indices@.take(i + 1) == indices@.take(i as int).push(indices@[i as int]));
            }
            i += 1;
        }
        proof {
            assert(indices@.take(indices@.len() as int) == indices@);
        }
        v
    }
}

/// A graph over string (open path) links: the nodes and the links between them.
pub struct StringGraph<'a> {
    pub nodes: &'a [Vec<usize>],
    pub links: &'a mut [OverlayLink],
}

/// Builds overlay graphs out of contours.
pub struct GraphBuilder<N> {
    pub nodes: Vec<N>,
}

/// True when some point occurs twice in the sequence.
pub open spec fn has_duplicate(s: Seq<IntPoint>) -> bool {
    exists|i: int, j: int| 0 <= i < j < s.len() && s[i] == s[j]
}

/// Points ordered by `x`, then by `y`.
pub open spec fn le_xy(p: IntPoint, q: IntPoint) -> bool {
    p.x < q.x || (p.x == q.x && p.y <= q.y)
}

/// The sequence is ordered by [`le_xy`].
pub open spec fn sorted_xy(s: Seq<IntPoint>) -> bool {
    forall|a: int, c: int| 0 <= a < c < s.len() ==> le_xy(#[trigger] s[a], #[trigger] s[c])
}

/// `p` maps the positions of `b` one to one onto the positions of `c`, with `b[i] == c[p[i]]`.
pub open spec fn is_permutation_map(b: Seq<IntPoint>, c: Seq<IntPoint>, p: Seq<int>) -> bool {
    &&& b.len() == c.len()
    &&& p.len() == b.len()
    &&& forall|i: int| 0 <= i < p.len() ==> 0 <= #[trigger] p[i] < c.len()
    &&& forall|i: int, j: int| 0 <= i < j < p.len() ==> #[trigger] p[i] != #[trigger] p[j]
    &&& forall|i: int| 0 <= i < p.len() ==> b[i] == c[#[trigger] p[i]]
}

/// `b` is a reordering of `c`.
pub open spec fn is_permutation(b: Seq<IntPoint>, c: Seq<IntPoint>) -> bool {
    exists|p: Seq<int>| is_permutation_map(b, c, p)
}

impl<N> GraphBuilder<N> {
    /// True when the contour passes through some point twice (it has a loop).
    /// Short contours are checked pairwise; longer ones are copied into `buffer`,
    /// sorted by `x` then `y`, and checked for equal neighbours.
    pub fn test_contour_for_loops(&mut self, contour: &[IntPoint], buffer: &mut Vec<IntPoint>) -> (r: bool)
        ensures
            r == has_duplicate(contour@),
            contour@.len() < 64 ==> final(buffer)@ == old(buffer)@,
            contour@.len() >= 64 ==> sorted_xy(final(buffer)@) && is_permutation(final(buffer)@, contour@),
    {
        let n = contour.len();
        if n < 64 {
            let mut i: usize = 0;
            while i + 1 < n
                invariant
                    n == contour@.len(),
                    n < 64,
                    i <= n,
                    forall|a: int, b: int| 0 <= a < b < n && a < i ==> contour@[a] != contour@[b],
                decreases n - i,
            {
                let a = contour[i];
                let mut j: usize = i + 1;
                while j < n
                    invariant
                        n == contour@.len(),
                        n < 64,
                        i < j <= n,
                        a == contour@[i as int],
                        forall|b: int| i < b < j ==> contour@[i as int] != contour@[b],
                    decreases n - j,
                {
                    if contour[j] == a {
                        return true;
                    }
                    j += 1;
                }
                i += 1;
            }
            return false;
        }
        buffer.clear();
        let mut k: usize = 0;
        while k < n
            invariant
                n == contour@.len(),
                k <= n,
                buffer@ == contour@.take(k as int),
            decreases n - k,
        {
            buffer.push(contour[k]);
            proof {
                assert(contour@.take(k + 1) == contour@.take(k as int).push(contour@[k as int]));
            }
            k += 1;
        }
        proof {
            assert(contour@.take(n as int) == contour@);
        }
        let ghost mut perm: Seq<int> = Seq::new(n as nat, |i: int| i);
        let ghost mut inv: Seq<int> = Seq::new(n as nat, |i: int| i);
        // Insertion sort by (x, y).
        let mut i: usize = 1;
        while i < n
            invariant
                n == contour@.len(),
                n >= 64,
                1 <= i <= n,
                buffer@.len() == n,
                perm.len() == n,
                inv.len() == n,
                forall|t: int| 0 <= t < n ==> 0 <= #[trigger] perm[t] < n,
                forall|t: int| 0 <= t < n ==> 0 <= #[trigger] inv[t] < n,
                forall|t: int| 0 <= t < n ==> #[trigger] perm[inv[t]] == t,
                forall|t: int| 0 <= t < n ==> #[trigger] inv[perm[t]] == t,
                forall|t: int| 0 <= t < n ==> buffer@[t] == contour@[#[trigger] perm[t]],
                forall|a: int, c: int| 0 <= a < c < i ==> le_xy(#[trigger] buffer@[a], #[trigger] buffer@[c]),
            decreases n - i,
        {
            let mut j: usize = i;
            while j > 0 && !(buffer[j - 1].x < buffer[j].x || (buffer[j - 1].x == buffer[j].x && buffer[j - 1].y <= buffer[j].y))
                invariant
                    n == contour@.len(),
                    1 <= i < n,
                    j <= i,
                    buffer@.len() == n,
                    perm.len() == n,
                    inv.len() == n,
                    forall|t: int| 0 <= t < n ==> 0 <= #[trigger] perm[t] < n,
                    forall|t: int| 0 <= t < n ==> 0 <= #[trigger] inv[t] < n,
                    forall|t: int| 0 <= t < n ==> #[trigger] perm[inv[t]] == t,
                    forall|t: int| 0 <= t < n ==> #[trigger] inv[perm[t]] == t,
                    forall|t: int| 0 <= t < n ==> buffer@[t] == contour@[#[trigger] perm[t]],
                    forall|a: int, c: int| 0 <= a < c <= i && a != j && c != j ==> le_xy(#[trigger] buffer@[a], #[trigger] buffer@[c]),
                    forall|c: int| j < c <= i ==> le_xy(buffer@[j as int], #[trigger] buffer@[c]),
                decreases j,
            {
                let lo = buffer[j - 1];
                let hi = buffer[j];
                buffer.set(j - 1, hi);
                buffer.set(j, lo);
                proof {
                    let pj = perm[j as int];
                    let pl = perm[j - 1];
                    let old_perm = perm;
                    let old_inv = inv;
                    assert(old_inv[pl] == j - 1 && old_inv[pj] == j);
                    perm = old_perm.update(j as int, pl).update(j - 1, pj);
                    inv = old_inv.update(pl, j as int).update(pj, j - 1);
                    assert forall|t: int| 0 <= t < n implies #[trigger] inv[perm[t]] == t by {
                        if t != j && t != j - 1 {
                            assert(old_inv[old_perm[t]] == t);
                            assert(perm[t] == old_perm[t]);
                            assert(old_perm[t] != pl && old_perm[t] != pj);
                        }
                    }
                    assert forall|t: int| 0 <= t < n implies #[trigger] perm[inv[t]] == t by {
                        if t != pl && t != pj {
                            assert(old_perm[old_inv[t]] == t);
                            assert(old_inv[t] != j && old_inv[t] != j - 1);
                        }
                    }
                }
                j -= 1;
            }
            proof {
                assert forall|a: int, c: int| 0 <= a < c < i + 1 implies le_xy(#[trigger] buffer@[a], #[trigger] buffer@[c]) by {
                    if c == j {
                        if a < j - 1 {
                            assert(le_xy(buffer@[a], buffer@[j - 1]));
                        }
                    } else if a == j {
                    } else {
                    }
                }
            }
            i += 1;
        }
        let ghost b = buffer@;
        proof {
            assert forall|x: int, y: int| 0 <= x < y < n implies #[trigger] perm[x] != #[trigger] perm[y] by {
                assert(inv[perm[x]] == x && inv[perm[y]] == y);
            }
            assert(is_permutation_map(b, contour@, perm));
        }
        let mut t: usize = 0;
        while t < n - 1
            invariant
                n == contour@.len(),
                n >= 64,
                t <= n,
                buffer@ == b,
                b.len() == n,
                perm.len() == n,
                inv.len() == n,
                forall|q: int| 0 <= q < n ==> 0 <= #[trigger] perm[q] < n,
                forall|q: int| 0 <= q < n ==> 0 <= #[trigger] inv[q] < n,
                forall|q: int| 0 <= q < n ==> #[trigger] perm[inv[q]] == q,
                forall|q: int| 0 <= q < n ==> #[trigger] inv[perm[q]] == q,
                forall|q: int| 0 <= q < n ==> b[q] == contour@[#[trigger] perm[q]],
                sorted_xy(b),
                is_permutation_map(b, contour@, perm),
                forall|a: int| 0 <= a < t ==> b[a] != #[trigger] b[a + 1],
            decreases n - t,
        {
            if buffer[t] == buffer[t + 1] {
                proof {
                    let x = perm[t as int];
                    let y = perm[t + 1];
                    assert(inv[x] == t && inv[y] == t + 1);
                    if x < y {
                        assert(contour@[x] == contour@[y]);
                    } else {
                        assert(contour@[y] == contour@[x]);
                    }
                    assert(is_permutation_map(b, contour@, perm));
                }
                return true;
            }
            t += 1;
        }
        proof {
            if has_duplicate(contour@) {
                let (x, y) = choose|x: int, y: int| 0 <= x < y < n && contour@[x] == contour@[y];
                let p = inv[x];
                let q = inv[y];
                assert(perm[p] == x && perm[q] == y);
                assert(b[p] == b[q]);
                let lo = if p < q { p } else { q };
                let hi = if p < q { q } else { p };
                assert(lo != hi);
                assert(b[lo] == b[hi]);
                assert(le_xy(b[lo], b[lo + 1]));
                if lo + 1 < hi {
                    assert(le_xy(b[lo + 1], b[hi]));
                }
                assert(b[lo] == b[lo + 1]);
                assert(false);
            }
            assert(is_permutation_map(b, contour@, perm));
        }
        false
    }
}

} // verus!
