//! The polygon engine: the convex hull of a point set by Graham scan —
//! pivot selection, polar-angle insertion sort, colinear deduplication and
//! the left-turn stack scan — and the stroking of the hull's edges.

use vstd::prelude::*;

use crate::canvas::Canvas;
use crate::color::Color;
use crate::paint::{lemma_paint_concat, paint};
use crate::shape::line2d::{draw_line2d, line_points};

verus! {

/// A convex polygon given by the two coordinate slices of its point set, an
/// open path: the stroked outline is the convex hull of these points.
#[derive(Debug, Clone, Copy, PartialEq, Eq)]
pub struct Polygon2D<'a> {
    pub xi: &'a [i32],
    pub yi: &'a [i32],
}

impl<'a> Polygon2D<'a> {
    /// Creates a polygon over the two coordinate slices.
    pub fn new(xi: &'a [i32], yi: &'a [i32]) -> (p: Self)
        ensures
            p.xi@ == xi@,
            p.yi@ == yi@,
    {
        Polygon2D { xi, yi }
    }
}

/// The orientation of the ordered point triple (p, q, r): 0 for colinear,
/// 1 where the cross product is positive, 2 where it is negative (a
/// counter-clockwise turn in this sign convention).
pub open spec fn orientation_spec(px: int, py: int, qx: int, qy: int, rx: int, ry: int) -> int {
    let v = (qy - py) * (rx - qx) - (qx - px) * (ry - qy);
    if v == 0 {
        0
    } else if v > 0 {
        1
    } else {
        2
    }
}

/// The squared distance between two points.
pub open spec fn dist_sq_spec(x1: int, y1: int, x2: int, y2: int) -> int {
    (x2 - x1) * (x2 - x1) + (y2 - y1) * (y2 - y1)
}

/// The polar-angle order around the pivot p that the hull sort uses: a
/// comes before b when the turn p -> a -> b is counter-clockwise, and among
/// colinear points the nearer one comes first.
pub open spec fn angle_lt(xs: Seq<i32>, ys: Seq<i32>, p: int, a: int, b: int) -> bool {
    let o = orientation_spec(
        xs[p] as int,
        ys[p] as int,
        xs[a] as int,
        ys[a] as int,
        xs[b] as int,
        ys[b] as int,
    );
    if o == 0 {
        dist_sq_spec(xs[p] as int, ys[p] as int, xs[a] as int, ys[a] as int) < dist_sq_spec(
            xs[p] as int,
            ys[p] as int,
            xs[b] as int,
            ys[b] as int,
        )
    } else {
        o == 2
    }
}

/// The index of the bottom-most point among the first k points, ties broken
/// towards the smaller x, earlier index first.
pub open spec fn pivot_upto(xs: Seq<i32>, ys: Seq<i32>, k: int) -> int
    decreases k,
{
    if k <= 1 {
        0
    } else {
        let p = pivot_upto(xs, ys, k - 1);
        if ys[k - 1] < ys[p] || (ys[k - 1] == ys[p] && xs[k - 1] < xs[p]) {
            k - 1
        } else {
            p
        }
    }
}

/// All indices 0..n except p, in ascending order.
pub open spec fn others(n: int, p: int) -> Seq<int> {
    Seq::new((n - 1) as nat, |i: int| if i < p { i } else { i + 1 })
}

/// Inserts index v into the angle-sorted index sequence s, before the first
/// entry it precedes; ties keep the existing entries first.
pub open spec fn insert_sorted(xs: Seq<i32>, ys: Seq<i32>, p: int, s: Seq<int>, v: int) -> Seq<int>
    decreases s.len(),
{
    if s.len() == 0 {
        seq![v]
    } else if angle_lt(xs, ys, p, v, s[0]) {
        seq![v] + s
    } else {
        seq![s[0]] + insert_sorted(xs, ys, p, s.drop_first(), v)
    }
}

/// Sorts the index sequence by polar angle around the pivot, by insertion.
pub open spec fn isort(xs: Seq<i32>, ys: Seq<i32>, p: int, s: Seq<int>) -> Seq<int>
    decreases s.len(),
{
    if s.len() == 0 {
        Seq::empty()
    } else {
        insert_sorted(xs, ys, p, isort(xs, ys, p, s.drop_last()), s.last())
    }
}

/// Of every run of points colinear with the pivot, keeps only the last one,
/// which the sort placed farthest from the pivot.
pub open spec fn dedup_same_angle(xs: Seq<i32>, ys: Seq<i32>, p: int, s: Seq<int>) -> Seq<int>
    decreases s.len(),
{
    if s.len() <= 1 {
        s
    } else if orientation_spec(
        xs[p] as int,
        ys[p] as int,
        xs[s[0]] as int,
        ys[s[0]] as int,
        xs[s[1]] as int,
        ys[s[1]] as int,
    ) == 0 {
        dedup_same_angle(xs, ys, p, s.drop_first())
    } else {
        seq![s[0]] + dedup_same_angle(xs, ys, p, s.drop_first())
    }
}

/// Pops the scan stack while its top two entries and the candidate c do not
/// make a strict counter-clockwise turn; never pops past two entries.
pub open spec fn scan_pop(xs: Seq<i32>, ys: Seq<i32>, stack: Seq<int>, c: int) -> Seq<int>
    decreases stack.len(),
{
    if stack.len() >= 2 && orientation_spec(
        xs[stack[stack.len() - 2]] as int,
        ys[stack[stack.len() - 2]] as int,
        xs[stack[stack.len() - 1]] as int,
        ys[stack[stack.len() - 1]] as int,
        xs[c] as int,
        ys[c] as int,
    ) != 2 {
        scan_pop(xs, ys, stack.drop_last(), c)
    } else {
        stack
    }
}

/// Runs the left-turn scan over the angle-sorted candidates from position i,
/// folding each into the stack after popping the non-left turns.
pub open spec fn scan_rec(xs: Seq<i32>, ys: Seq<i32>, pts: Seq<int>, i: int, stack: Seq<int>) -> Seq<
    int,
>
    decreases pts.len() - i,
{
    if i >= pts.len() {
        stack
    } else {
        scan_rec(xs, ys, pts, i + 1, scan_pop(xs, ys, stack, pts[i]).push(pts[i]))
    }
}

/// The indices of the convex hull of the point set, in counter-clockwise
/// order starting from the bottom-most point, as the Graham scan computes
/// them; empty when fewer than four points survive the angle deduplication.
pub open spec fn convex_hull_indices(xs: Seq<i32>, ys: Seq<i32>) -> Seq<int> {
    let n = xs.len() as int;
    if n == 0 {
        Seq::empty()
    } else {
        let p = pivot_upto(xs, ys, n);
        let sorted = isort(xs, ys, p, others(n, p));
        let dd = dedup_same_angle(xs, ys, p, sorted);
        if 1 + dd.len() < 4 {
            Seq::empty()
        } else {
            scan_rec(xs, ys, dd, 2, seq![p, dd[0], dd[1]])
        }
    }
}

/// The index sequence a vector of indices stands for.
pub open spec fn idxs(s: Seq<usize>) -> Seq<int> {
    s.map_values(|u: usize| u as int)
}

/// The pivot really is the bottom-most point of the first k: no other point
/// has a smaller y, and among points sharing the pivot's y none has a
/// smaller x.
pub proof fn lemma_pivot_is_bottom_most(xs: Seq<i32>, ys: Seq<i32>, k: int)
    requires
        1 <= k <= xs.len(),
        xs.len() == ys.len(),
    ensures
        0 <= pivot_upto(xs, ys, k) < k,
        forall|j: int|
            0 <= j < k ==> ys[pivot_upto(xs, ys, k)] < #[trigger] ys[j] || (ys[pivot_upto(xs, ys, k)]
                == ys[j] && xs[pivot_upto(xs, ys, k)] <= xs[j]),
    decreases k,
{
    if k > 1 {
        lemma_pivot_is_bottom_most(xs, ys, k - 1);
    }
}

/// Popping the scan stack never removes its bottom entry.
proof fn lemma_scan_pop_keeps_bottom(xs: Seq<i32>, ys: Seq<i32>, stack: Seq<int>, c: int)
    requires
        stack.len() >= 1,
    ensures
        scan_pop(xs, ys, stack, c).len() >= 1,
        scan_pop(xs, ys, stack, c)[0] == stack[0],
    decreases stack.len(),
{
    if stack.len() >= 2 && orientation_spec(
        xs[stack[stack.len() - 2]] as int,
        ys[stack[stack.len() - 2]] as int,
        xs[stack[stack.len() - 1]] as int,
        ys[stack[stack.len() - 1]] as int,
        xs[c] as int,
        ys[c] as int,
    ) != 2 {
        assert(stack.drop_last()[0] == stack[0]);
        lemma_scan_pop_keeps_bottom(xs, ys, stack.drop_last(), c);
    }
}

/// The whole scan never removes the bottom entry of its stack.
proof fn lemma_scan_rec_keeps_bottom(xs: Seq<i32>, ys: Seq<i32>, pts: Seq<int>, i: int, stack: Seq<int>)
    requires
        stack.len() >= 1,
    ensures
        scan_rec(xs, ys, pts, i, stack).len() >= 1,
        scan_rec(xs, ys, pts, i, stack)[0] == stack[0],
    decreases pts.len() - i,
{
    if i < pts.len() {
        lemma_scan_pop_keeps_bottom(xs, ys, stack, pts[i]);
        let pushed = scan_pop(xs, ys, stack, pts[i]).push(pts[i]);
        assert(pushed[0] == stack[0]);
        lemma_scan_rec_keeps_bottom(xs, ys, pts, i + 1, pushed);
    }
}

/// A stroked hull, where there is one, starts at the bottom-most point of
/// the whole set: the scan's stack is seeded with the pivot and never pops
/// it.
pub proof fn lemma_hull_starts_at_pivot(xs: Seq<i32>, ys: Seq<i32>)
    requires
        xs.len() == ys.len(),
        convex_hull_indices(xs, ys).len() > 0,
    ensures
        convex_hull_indices(xs, ys)[0] == pivot_upto(xs, ys, xs.len() as int),
        forall|j: int|
            0 <= j < xs.len() ==> ys[convex_hull_indices(xs, ys)[0]] < #[trigger] ys[j] || (
            ys[convex_hull_indices(xs, ys)[0]] == ys[j] && xs[convex_hull_indices(xs, ys)[0]]
                <= xs[j]),
{
    let n = xs.len() as int;
    let p = pivot_upto(xs, ys, n);
    let sorted = isort(xs, ys, p, others(n, p));
    let dd = dedup_same_angle(xs, ys, p, sorted);
    lemma_scan_rec_keeps_bottom(xs, ys, dd, 2, seq![p, dd[0], dd[1]]);
    lemma_pivot_is_bottom_most(xs, ys, n);
}

/// Computes the orientation of the ordered triple (p, q, r): 0 for
/// colinear, 1 for a positive cross product, 2 for a negative one.
fn orientation(px: i32, py: i32, qx: i32, qy: i32, rx: i32, ry: i32) -> (o: i32)
    ensures
        o as int == orientation_spec(px as int, py as int, qx as int, qy as int, rx as int, ry as int),
{
    proof {
        assert(-18_500_000_000_000_000_000 <= (qy as int - py as int) * (rx as int - qx as int)
            <= 18_500_000_000_000_000_000 && -18_500_000_000_000_000_000 <= (qx as int - px as int)
            * (ry as int - qy as int) <= 18_500_000_000_000_000_000) by (nonlinear_arith)
            requires
                -0x1_0000_0000 <= qy as int - py as int <= 0x1_0000_0000,
                -0x1_0000_0000 <= rx as int - qx as int <= 0x1_0000_0000,
                -0x1_0000_0000 <= qx as int - px as int <= 0x1_0000_0000,
                -0x1_0000_0000 <= ry as int - qy as int <= 0x1_0000_0000,
        ;
    }
    let v: i128 = (qy as i128 - py as i128) * (rx as i128 - qx as i128) - (qx as i128 - px as i128)
        * (ry as i128 - qy as i128);
    if v == 0 {
        0
    } else if v > 0 {
        1
    } else {
        2
    }
}

/// Computes the squared distance between two points.
fn dist_sq(x1: i32, y1: i32, x2: i32, y2: i32) -> (d: i128)
    ensures
        d as int == dist_sq_spec(x1 as int, y1 as int, x2 as int, y2 as int),
{
    proof {
        assert(0 <= (x2 as int - x1 as int) * (x2 as int - x1 as int)
            <= 18_500_000_000_000_000_000 && 0 <= (y2 as int - y1 as int) * (y2 as int - y1 as int)
            <= 18_500_000_000_000_000_000) by (nonlinear_arith)
            requires
                -0x1_0000_0000 <= x2 as int - x1 as int <= 0x1_0000_0000,
                -0x1_0000_0000 <= y2 as int - y1 as int <= 0x1_0000_0000,
        ;
    }
    (x2 as i128 - x1 as i128) * (x2 as i128 - x1 as i128) + (y2 as i128 - y1 as i128) * (y2 as i128
        - y1 as i128)
}

/// Decides the polar-angle order around the pivot between indices a and b.
fn angle_less(xi: &[i32], yi: &[i32], p: usize, a: usize, b: usize) -> (r: bool)
    requires
        xi@.len() == yi@.len(),
        p < xi@.len(),
        a < xi@.len(),
        b < xi@.len(),
    ensures
        r == angle_lt(xi@, yi@, p as int, a as int, b as int),
{
    let o = orientation(xi[p], yi[p], xi[a], yi[a], xi[b], yi[b]);
    if o == 0 {
        dist_sq(xi[p], yi[p], xi[a], yi[a]) < dist_sq(xi[p], yi[p], xi[b], yi[b])
    } else {
        o == 2
    }
}

/// Inserting at the first position whose entry v precedes is what
/// `insert_sorted` does.
proof fn lemma_insert_sorted_at(xs: Seq<i32>, ys: Seq<i32>, p: int, s: Seq<int>, v: int, pos: int)
    requires
        0 <= pos <= s.len(),
        forall|m: int| 0 <= m < pos ==> !angle_lt(xs, ys, p, v, #[trigger] s[m]),
        pos < s.len() ==> angle_lt(xs, ys, p, v, s[pos]),
    ensures
        insert_sorted(xs, ys, p, s, v) == s.take(pos) + seq![v] + s.skip(pos),
    decreases s.len(),
{
    if pos == 0 {
        if s.len() == 0 {
            assert(insert_sorted(xs, ys, p, s, v) =~= s.take(0) + seq![v] + s.skip(0));
        } else {
            assert(angle_lt(xs, ys, p, v, s[0]));
            assert(seq![v] + s =~= s.take(0) + seq![v] + s.skip(0));
        }
    } else {
        assert(!angle_lt(xs, ys, p, v, s[0]));
        let df = s.drop_first();
        assert forall|m: int| 0 <= m < pos - 1 implies !angle_lt(xs, ys, p, v, #[trigger] df[m]) by {
            assert(df[m] == s[m + 1]);
        }
        if pos - 1 < df.len() {
            assert(df[pos - 1] == s[pos]);
        }
        lemma_insert_sorted_at(xs, ys, p, df, v, pos - 1);
        assert(seq![s[0]] + (df.take(pos - 1) + seq![v] + df.skip(pos - 1)) =~= s.take(pos)
            + seq![v] + s.skip(pos));
    }
}

/// Computes the indices of the convex hull of the given point set with a
/// Graham scan; the result is empty when fewer than four points survive the
/// angle deduplication.
pub fn create_convex_hull(xi: &[i32], yi: &[i32]) -> (hull: Vec<usize>)
    requires
        xi@.len() == yi@.len(),
    ensures
        idxs(hull@) == convex_hull_indices(xi@, yi@),
        forall|j: int| 0 <= j < hull@.len() ==> (#[trigger] hull@[j]) < xi@.len(),
{
    let ghost xs = xi@;
    let ghost ys = yi@;
    let n = xi.len();
    if n == 0 {
        let hull: Vec<usize> = Vec::new();
        proof {
            assert(idxs(hull@) =~= convex_hull_indices(xs, ys));
        }
        return hull;
    }
    // Step 1: the bottom-most point, ties towards the smaller x, is the pivot.
    let mut start: usize = 0;
    let mut i: usize = 1;
    while i < n
        invariant
            1 <= i <= n,
            n == xs.len(),
            n == ys.len(),
            xs == xi@,
            ys == yi@,
            start < i,
            start as int == pivot_upto(xs, ys, i as int),
        decreases n - i,
    {
        if yi[i] < yi[start] || (yi[i] == yi[start] && xi[i] < xi[start]) {
            start = i;
        }
        i = i + 1;
    }
    let ghost p = start as int;
    // Step 2: all other indices, sorted by polar angle around the pivot.
    let mut rest: Vec<usize> = Vec::new();
    let mut j: usize = 0;
    while j < n
        invariant
            0 <= j <= n,
            n == xs.len(),
            0 <= p < n,
            start as int == p,
            idxs(rest@) =~= others(n as int, p).take(rest@.len() as int),
            rest@.len() == (if j <= p {
                j as int
            } else {
                j - 1
            }),
            forall|m: int| 0 <= m < rest@.len() ==> (#[trigger] rest@[m]) < n,
        decreases n - j,
    {
        if j != start {
            rest.push(j);
            proof {
                assert(idxs(rest@) =~= others(n as int, p).take(rest@.len() as int));
            }
        }
        j = j + 1;
    }
    let ghost others_full = others(n as int, p);
    proof {
        assert(idxs(rest@) =~= others_full);
    }
    let mut sorted: Vec<usize> = Vec::new();
    let mut k: usize = 0;
    while k < rest.len()
        invariant
            0 <= k <= rest@.len(),
            n == xs.len(),
            n == ys.len(),
            xs == xi@,
            ys == yi@,
            0 <= p < n,
            start as int == p,
            idxs(rest@) == others_full,
            forall|m: int| 0 <= m < rest@.len() ==> (#[trigger] rest@[m]) < n,
            forall|m: int| 0 <= m < sorted@.len() ==> (#[trigger] sorted@[m]) < n,
            idxs(sorted@) == isort(xs, ys, p, idxs(rest@).take(k as int)),
            sorted@.len() == k,
        decreases rest@.len() - k,
    {
        let v = rest[k];
        let mut pos: usize = 0;
        while pos < sorted.len() && !angle_less(xi, yi, start, v, sorted[pos])
            invariant
                0 <= pos <= sorted@.len(),
                n == xs.len(),
                n == ys.len(),
                xs == xi@,
                ys == yi@,
                0 <= p < n,
                start as int == p,
                start < n,
                v < n,
                forall|m: int| 0 <= m < sorted@.len() ==> (#[trigger] sorted@[m]) < n,
                forall|m: int|
                    0 <= m < pos ==> !angle_lt(xs, ys, p, v as int, #[trigger] idxs(sorted@)[m]),
            decreases sorted@.len() - pos,
        {
            pos = pos + 1;
        }
        proof {
            if pos < sorted@.len() {
                assert(angle_lt(xs, ys, p, v as int, idxs(sorted@)[pos as int]));
            }
            lemma_insert_sorted_at(xs, ys, p, idxs(sorted@), v as int, pos as int);
        }
        let ghost before = idxs(sorted@);
        sorted.insert(pos, v);
        proof {
            assert(idxs(sorted@) =~= before.take(pos as int) + seq![v as int] + before.skip(
                pos as int,
            ));
            assert(idxs(rest@).take(k as int + 1).drop_last() =~= idxs(rest@).take(k as int));
            assert(idxs(rest@).take(k as int + 1).last() == idxs(rest@)[k as int]);
        }
        k = k + 1;
    }
    let ghost sorted_full = idxs(sorted@);
    proof {
        assert(idxs(rest@).take(rest@.len() as int) =~= idxs(rest@));
        assert(sorted_full == isort(xs, ys, p, others_full));
    }
    // Step 3: among points at the same angle, keep only the farthest.
    let mut dd: Vec<usize> = Vec::new();
    let mut q: usize = 0;
    proof {
        assert(sorted_full.skip(0) =~= sorted_full);
        assert(idxs(dd@) =~= Seq::<int>::empty());
        assert(idxs(dd@) + dedup_same_angle(xs, ys, p, sorted_full) =~= dedup_same_angle(
            xs,
            ys,
            p,
            sorted_full,
        ));
    }
    while q < sorted.len()
        invariant
            0 <= q <= sorted@.len(),
            n == xs.len(),
            n == ys.len(),
            xs == xi@,
            ys == yi@,
            0 <= p < n,
            start as int == p,
            start < n,
            idxs(sorted@) == sorted_full,
            forall|m: int| 0 <= m < sorted@.len() ==> (#[trigger] sorted@[m]) < n,
            forall|m: int| 0 <= m < dd@.len() ==> (#[trigger] dd@[m]) < n,
            dedup_same_angle(xs, ys, p, sorted_full) == idxs(dd@) + dedup_same_angle(
                xs,
                ys,
                p,
                sorted_full.skip(q as int),
            ),
        decreases sorted@.len() - q,
    {
        let ghost q0 = q as int;
        while q < sorted.len() - 1 && orientation(
            xi[start],
            yi[start],
            xi[sorted[q]],
            yi[sorted[q]],
            xi[sorted[q + 1]],
            yi[sorted[q + 1]],
        ) == 0
            invariant
                q0 <= q,
                0 <= q < sorted@.len(),
                n == xs.len(),
                n == ys.len(),
                xs == xi@,
                ys == yi@,
                0 <= p < n,
                start as int == p,
                start < n,
                idxs(sorted@) == sorted_full,
                forall|m: int| 0 <= m < sorted@.len() ==> (#[trigger] sorted@[m]) < n,
                dedup_same_angle(xs, ys, p, sorted_full) == idxs(dd@) + dedup_same_angle(
                    xs,
                    ys,
                    p,
                    sorted_full.skip(q as int),
                ),
            decreases sorted@.len() - q,
        {
            proof {
                let t = sorted_full.skip(q as int);
                assert(t[0] == sorted_full[q as int]);
                assert(t[1] == sorted_full[q as int + 1]);
                assert(t.drop_first() =~= sorted_full.skip(q as int + 1));
            }
            q = q + 1;
        }
        proof {
            let t = sorted_full.skip(q as int);
            assert(t[0] == sorted_full[q as int]);
            if t.len() > 1 {
                assert(t[1] == sorted_full[q as int + 1]);
            }
            assert(t.drop_first() =~= sorted_full.skip(q as int + 1));
            assert(dedup_same_angle(xs, ys, p, t) == seq![sorted_full[q as int]]
                + dedup_same_angle(xs, ys, p, sorted_full.skip(q as int + 1)));
        }
        let ghost dd_before = idxs(dd@);
        dd.push(sorted[q]);
        proof {
            assert(idxs(dd@) =~= dd_before + seq![sorted_full[q as int]]);
            assert((dd_before + seq![sorted_full[q as int]]) + dedup_same_angle(
                xs,
                ys,
                p,
                sorted_full.skip(q as int + 1),
            ) =~= dd_before + (seq![sorted_full[q as int]] + dedup_same_angle(
                xs,
                ys,
                p,
                sorted_full.skip(q as int + 1),
            )));
        }
        q = q + 1;
    }
    let ghost dd_s = idxs(dd@);
    proof {
        assert(sorted_full.skip(sorted@.len() as int) =~= Seq::<int>::empty());
        assert(dedup_same_angle(xs, ys, p, sorted_full.skip(sorted@.len() as int)).len() == 0);
        assert(dd_s + dedup_same_angle(xs, ys, p, sorted_full.skip(sorted@.len() as int)) =~= dd_s);
        assert(dd_s == dedup_same_angle(xs, ys, p, sorted_full));
    }
    if dd.len() < 3 {
        let hull: Vec<usize> = Vec::new();
        proof {
            assert(1 + dd_s.len() < 4);
            assert(idxs(hull@) =~= convex_hull_indices(xs, ys));
        }
        return hull;
    }
    // Step 4: scan the sorted points, keeping only counter-clockwise turns.
    let ghost hull_target = scan_rec(xs, ys, dd_s, 2, seq![p, dd_s[0], dd_s[1]]);
    let mut hull: Vec<usize> = Vec::new();
    hull.push(start);
    hull.push(dd[0]);
    hull.push(dd[1]);
    proof {
        assert(idxs(hull@) =~= seq![p, dd_s[0], dd_s[1]]);
    }
    let mut t: usize = 2;
    while t < dd.len()
        invariant
            2 <= t <= dd@.len(),
            n == xs.len(),
            n == ys.len(),
            xs == xi@,
            ys == yi@,
            idxs(dd@) == dd_s,
            forall|m: int| 0 <= m < dd@.len() ==> (#[trigger] dd@[m]) < n,
            forall|m: int| 0 <= m < hull@.len() ==> (#[trigger] hull@[m]) < n,
            hull@.len() >= 1,
            scan_rec(xs, ys, dd_s, t as int, idxs(hull@)) == hull_target,
        decreases dd@.len() - t,
    {
        let c = dd[t];
        let ghost st0 = idxs(hull@);
        while hull.len() >= 2 && orientation(
            xi[hull[hull.len() - 2]],
            yi[hull[hull.len() - 2]],
            xi[hull[hull.len() - 1]],
            yi[hull[hull.len() - 1]],
            xi[c],
            yi[c],
        ) != 2
            invariant
                n == xs.len(),
                n == ys.len(),
                xs == xi@,
                ys == yi@,
                c < n,
                forall|m: int| 0 <= m < hull@.len() ==> (#[trigger] hull@[m]) < n,
                hull@.len() >= 1,
                scan_pop(xs, ys, idxs(hull@), c as int) == scan_pop(xs, ys, st0, c as int),
            decreases hull@.len(),
        {
            proof {
                let cur = idxs(hull@);
                assert(cur[cur.len() - 2] == hull@[hull@.len() - 2] as int);
                assert(cur[cur.len() - 1] == hull@[hull@.len() - 1] as int);
                assert(cur.drop_last() =~= idxs(hull@.drop_last()));
            }
            hull.pop();
        }
        proof {
            let cur = idxs(hull@);
            if cur.len() >= 2 {
                assert(cur[cur.len() - 2] == hull@[hull@.len() - 2] as int);
                assert(cur[cur.len() - 1] == hull@[hull@.len() - 1] as int);
            }
            assert(scan_pop(xs, ys, cur, c as int) == cur);
        }
        let ghost popped = idxs(hull@);
        hull.push(c);
        proof {
            assert(idxs(hull@) =~= popped.push(c as int));
            assert(idxs(hull@) =~= scan_pop(xs, ys, st0, c as int).push(dd_s[t as int]));
        }
        t = t + 1;
    }
    proof {
        assert(scan_rec(xs, ys, dd_s, t as int, idxs(hull@)) == idxs(hull@));
        assert(idxs(hull@) == hull_target);
        assert(convex_hull_indices(xs, ys) == hull_target);
    }
    hull
}

/// The line walks stroking consecutive hull edges from edge i on.
pub open spec fn hull_edges_points(xs: Seq<i32>, ys: Seq<i32>, hull: Seq<int>, i: int) -> Seq<
    (int, int),
>
    decreases hull.len() - i,
{
    if i + 1 >= hull.len() {
        Seq::empty()
    } else {
        line_points(
            xs[hull[i]] as int,
            ys[hull[i]] as int,
            xs[hull[i + 1]] as int,
            ys[hull[i + 1]] as int,
        ) + hull_edges_points(xs, ys, hull, i + 1)
    }
}

/// Exactly the points stroking the polygon plots: every consecutive hull
/// edge and the closing edge back to the first hull vertex; nothing for
/// mismatched coordinate slices or a degenerate hull.
pub open spec fn polygon_stroke_points(xs: Seq<i32>, ys: Seq<i32>) -> Seq<(int, int)> {
    if xs.len() != ys.len() {
        Seq::empty()
    } else {
        let hull = convex_hull_indices(xs, ys);
        if hull.len() == 0 {
            Seq::empty()
        } else {
            hull_edges_points(xs, ys, hull, 0) + line_points(
                xs[hull[hull.len() - 1]] as int,
                ys[hull[hull.len() - 1]] as int,
                xs[hull[0]] as int,
                ys[hull[0]] as int,
            )
        }
    }
}

/// Strokes the convex hull of the point set: a line along every consecutive
/// pair of hull vertices and a closing line back to the first, painted over
/// the old buffer, clipped to the canvas. Mismatched slice lengths and
/// degenerate hulls leave the canvas untouched.
pub fn draw_polygon2d(xi: &[i32], yi: &[i32], canvas: &mut Canvas, color: &Color)
    requires
        old(canvas).wf(),
    ensures
        final(canvas).wf(),
        final(canvas).spec_width() == old(canvas).spec_width(),
        final(canvas).spec_height() == old(canvas).spec_height(),
        final(canvas).buf() == paint(
            old(canvas).buf(),
            old(canvas).spec_width(),
            old(canvas).spec_height(),
            polygon_stroke_points(xi@, yi@),
            *color,
        ),
{
    let ghost buf0 = old(canvas).buf();
    let ghost w = old(canvas).spec_width();
    let ghost h = old(canvas).spec_height();
    let ghost xs = xi@;
    let ghost ys = yi@;
    if xi.len() != yi.len() {
        return;
    }
    let hull = create_convex_hull(xi, yi);
    if hull.len() == 0 {
        return;
    }
    let ghost hs = idxs(hull@);
    let ghost closing = line_points(
        xs[hs[hs.len() - 1]] as int,
        ys[hs[hs.len() - 1]] as int,
        xs[hs[0]] as int,
        ys[hs[0]] as int,
    );
    let ghost full = polygon_stroke_points(xs, ys);
    proof {
        assert(full == hull_edges_points(xs, ys, hs, 0) + closing);
    }
    let hull_len = hull.len() - 1;
    let mut i: usize = 0;
    while i < hull_len
        invariant
            canvas.wf(),
            canvas.spec_width() == w,
            canvas.spec_height() == h,
            xs == xi@,
            ys == yi@,
            xs.len() == ys.len(),
            hs == idxs(hull@),
            hull_len == hull@.len() - 1,
            forall|m: int| 0 <= m < hull@.len() ==> (#[trigger] hull@[m]) < xs.len(),
            0 <= i <= hull_len,
            closing == line_points(
                xs[hs[hs.len() - 1]] as int,
                ys[hs[hs.len() - 1]] as int,
                xs[hs[0]] as int,
                ys[hs[0]] as int,
            ),
            paint(canvas.buf(), w, h, hull_edges_points(xs, ys, hs, i as int) + closing, *color)
                == paint(buf0, w, h, full, *color),
        decreases hull_len - i,
    {
        let ghost lp = line_points(
            xs[hs[i as int]] as int,
            ys[hs[i as int]] as int,
            xs[hs[i as int + 1]] as int,
            ys[hs[i as int + 1]] as int,
        );
        let ghost rest = hull_edges_points(xs, ys, hs, i as int + 1);
        let ghost b0 = canvas.buf();
        proof {
            assert(hull_edges_points(xs, ys, hs, i as int) == lp + rest);
            assert((lp + rest) + closing =~= lp + (rest + closing));
            lemma_paint_concat(b0, w, h, lp, rest + closing, *color);
        }
        draw_line2d(xi[hull[i]], yi[hull[i]], xi[hull[i + 1]], yi[hull[i + 1]], canvas, color);
        i = i + 1;
    }
    proof {
        assert(hull_edges_points(xs, ys, hs, i as int).len() == 0);
        assert(hull_edges_points(xs, ys, hs, i as int) + closing =~= closing);
    }
    draw_line2d(
        xi[hull[hull_len]],
        yi[hull[hull_len]],
        xi[hull[0]],
        yi[hull[0]],
        canvas,
        color,
    );
}

/// Filling a polygon is a reserved interface with no implementation: the
/// canvas is left exactly as it was.
pub fn draw_polygon2d_filled(xi: &[i32], yi: &[i32], canvas: &mut Canvas, color: &Color)
    requires
        old(canvas).wf(),
    ensures
        final(canvas).wf(),
        final(canvas).spec_width() == old(canvas).spec_width(),
        final(canvas).spec_height() == old(canvas).spec_height(),
        final(canvas).buf() == old(canvas).buf(),
{
}

} // verus!
