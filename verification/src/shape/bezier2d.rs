//! The Bezier flatteners: quadratic and cubic curves are sampled at evenly
//! spaced parameters, each sample rounded to the nearest pixel, and the
//! samples joined by Bresenham lines. All arithmetic is exact integer
//! arithmetic: a sample at parameter i/n is a convex combination of the
//! control points with weights summing to a power of n, rounded half away
//! from zero.

use vstd::prelude::*;

use crate::canvas::Canvas;
use crate::color::Color;
use crate::paint::{lemma_concat_contains, lemma_paint_concat, paint};
use crate::shape::line2d::{draw_line2d, line_points};

verus! {

/// A quadratic Bezier curve: two endpoints and one control point.
#[derive(Debug, Clone, Copy, PartialEq, Eq)]
pub struct QuadraticBezier2D {
    pub start: (i32, i32),
    pub end: (i32, i32),
    pub control: (i32, i32),
}

impl QuadraticBezier2D {
    /// Creates a quadratic Bezier curve from its endpoints and control point.
    pub fn new(start: (i32, i32), end: (i32, i32), control: (i32, i32)) -> (q: Self)
        ensures
            q == (QuadraticBezier2D { start, end, control }),
    {
        QuadraticBezier2D { start, end, control }
    }
}

/// A cubic Bezier curve: two endpoints and two control points.
#[derive(Debug, Clone, Copy, PartialEq, Eq)]
pub struct CubicBezier2D {
    pub start: (i32, i32),
    pub end: (i32, i32),
    pub control_a: (i32, i32),
    pub control_b: (i32, i32),
}

impl CubicBezier2D {
    /// Creates a cubic Bezier curve from its endpoints and control points.
    pub fn new(start: (i32, i32), end: (i32, i32), control_a: (i32, i32), control_b: (i32, i32)) -> (c: Self)
        ensures
            c == (CubicBezier2D { start, end, control_a, control_b }),
    {
        CubicBezier2D { start, end, control_a, control_b }
    }
}

/// The squared Euclidean distance between two points.
pub open spec fn dist2(ax: int, ay: int, bx: int, by: int) -> int {
    (bx - ax) * (bx - ax) + (by - ay) * (by - ay)
}

/// Whether r is the integer square root of v, rounded down.
pub open spec fn is_sqrt_floor(v: int, r: int) -> bool {
    &&& 0 <= r
    &&& r * r <= v
    &&& v < (r + 1) * (r + 1)
}

/// The integer square root of v, rounded down; zero for negative v.
pub open spec fn sqrt_floor(v: int) -> int
    decreases v,
{
    if v <= 0 {
        0
    } else {
        let r = sqrt_floor(v - 1);
        if (r + 1) * (r + 1) <= v {
            r + 1
        } else {
            r
        }
    }
}

/// `sqrt_floor` computes what its name says.
pub proof fn lemma_sqrt_floor_is(v: int)
    requires
        0 <= v,
    ensures
        is_sqrt_floor(v, sqrt_floor(v)),
    decreases v,
{
    if v == 0 {
    } else {
        lemma_sqrt_floor_is(v - 1);
        let r = sqrt_floor(v - 1);
        if (r + 1) * (r + 1) <= v {
            assert((r + 2) * (r + 2) > v) by (nonlinear_arith)
                requires
                    0 <= r,
                    v - 1 < (r + 1) * (r + 1),
            ;
        }
    }
}

/// There is only one integer square root, so any witness equals `sqrt_floor`.
pub proof fn lemma_sqrt_floor_unique(v: int, r: int)
    requires
        is_sqrt_floor(v, r),
    ensures
        r == sqrt_floor(v),
{
    lemma_sqrt_floor_is(v);
    let q = sqrt_floor(v);
    assert(r == q) by (nonlinear_arith)
        requires
            0 <= r,
            r * r <= v,
            v < (r + 1) * (r + 1),
            0 <= q,
            q * q <= v,
            v < (q + 1) * (q + 1),
    ;
}

/// Division rounded half away from zero, for a positive divisor.
pub open spec fn round_div(num: int, den: int) -> int {
    if num >= 0 {
        (2 * num + den) / (2 * den)
    } else {
        -((2 * (-num) + den) / (2 * den))
    }
}

/// Rounding a quotient that lies between lo and hi stays between lo and hi.
pub proof fn lemma_round_div_bounds(num: int, den: int, lo: int, hi: int)
    requires
        den > 0,
        lo * den <= num <= hi * den,
    ensures
        lo <= round_div(num, den) <= hi,
{
    vstd::arithmetic::div_mod::lemma_fundamental_div_mod(2 * num + den, 2 * den);
    vstd::arithmetic::div_mod::lemma_mod_bound(2 * num + den, 2 * den);
    vstd::arithmetic::div_mod::lemma_fundamental_div_mod(2 * (-num) + den, 2 * den);
    vstd::arithmetic::div_mod::lemma_mod_bound(2 * (-num) + den, 2 * den);
    if num >= 0 {
        let q = (2 * num + den) / (2 * den);
        assert(lo <= q <= hi) by (nonlinear_arith)
            requires
                den > 0,
                lo * den <= num <= hi * den,
                num >= 0,
                2 * num + den == 2 * den * q + ((2 * num + den) % (2 * den)),
                0 <= (2 * num + den) % (2 * den) < 2 * den,
        ;
    } else {
        let q = (2 * (-num) + den) / (2 * den);
        assert(lo <= -q <= hi) by (nonlinear_arith)
            requires
                den > 0,
                lo * den <= num <= hi * den,
                num < 0,
                2 * (-num) + den == 2 * den * q + ((2 * (-num) + den) % (2 * den)),
                0 <= (2 * (-num) + den) % (2 * den) < 2 * den,
        ;
    }
}

/// Rounding an exact multiple of the divisor gives the exact quotient.
pub proof fn lemma_round_div_exact(a: int, den: int)
    requires
        den > 0,
    ensures
        round_div(a * den, den) == a,
{
    lemma_round_div_bounds(a * den, den, a, a);
}

/// The integer square root of v, by binary search.
fn isqrt(v: u128) -> (r: u128)
    requires
        v < 0x40_0000_0000_0000_0000u128,
    ensures
        is_sqrt_floor(v as int, r as int),
        r <= 0x8_0000_0000u128,
{
    proof {
        assert((1u128 << 35) == 0x8_0000_0000) by (bit_vector);
        assert(0x8_0000_0000i128 * 0x8_0000_0000i128 == 0x40_0000_0000_0000_0000i128);
    }
    let mut lo: u128 = 0;
    let mut hi: u128 = 1u128 << 35;
    while lo + 1 < hi
        invariant
            0 <= lo < hi <= 0x8_0000_0000u128,
            (lo * lo) as int <= v as int,
            (v as int) < (hi * hi) as int,
        decreases hi - lo,
    {
        let mid = lo + (hi - lo) / 2;
        proof {
            assert(lo < mid < hi);
            assert(mid * mid <= 0x8_0000_0000u128 * 0x8_0000_0000u128) by (nonlinear_arith)
                requires
                    0 <= mid <= 0x8_0000_0000u128,
            ;
        }
        if mid * mid <= v {
            lo = mid;
        } else {
            hi = mid;
        }
    }
    proof {
        assert((lo + 1) * (lo + 1) >= hi * hi ==> v < ((lo + 1) * (lo + 1)) as int)
            by (nonlinear_arith)
            requires
                lo + 1 >= hi,
                0 < hi,
                (v as int) < (hi * hi) as int,
        ;
    }
    lo
}

/// The sample of the quadratic curve at parameter i/n, rounded to the
/// nearest pixel: the Bernstein blend of the start, control and end points,
/// with weights (n-i)^2, 2i(n-i) and i^2 over the denominator n^2.
pub open spec fn quad_point(
    x0: int,
    y0: int,
    cx: int,
    cy: int,
    x1: int,
    y1: int,
    n: int,
    i: int,
) -> (int, int) {
    let mt = n - i;
    let den = n * n;
    (
        round_div(x0 * (mt * mt) + cx * (2 * (i * mt)) + x1 * (i * i), den),
        round_div(y0 * (mt * mt) + cy * (2 * (i * mt)) + y1 * (i * i), den),
    )
}

/// How many line segments flatten the quadratic curve: the control polygon
/// length, squared, biased by 800 under the square root and divided by 8, so
/// short curves still get a handful of segments.
pub open spec fn quad_segments(x0: int, y0: int, cx: int, cy: int, x1: int, y1: int) -> int {
    let l = sqrt_floor(dist2(x0, y0, cx, cy)) + sqrt_floor(dist2(cx, cy, x1, y1));
    (sqrt_floor(l * l + 800) + 4) / 8
}

/// The line walks joining consecutive samples of the quadratic curve, from
/// sample i up to sample n.
pub open spec fn quad_polyline(
    x0: int,
    y0: int,
    cx: int,
    cy: int,
    x1: int,
    y1: int,
    n: int,
    i: int,
) -> Seq<(int, int)>
    decreases n - i,
{
    if i >= n {
        Seq::empty()
    } else {
        let a = quad_point(x0, y0, cx, cy, x1, y1, n, i);
        let b = quad_point(x0, y0, cx, cy, x1, y1, n, i + 1);
        line_points(a.0, a.1, b.0, b.1) + quad_polyline(x0, y0, cx, cy, x1, y1, n, i + 1)
    }
}

/// Exactly the points drawing the quadratic curve plots.
pub open spec fn quad_bezier_points(x0: int, y0: int, cx: int, cy: int, x1: int, y1: int) -> Seq<
    (int, int),
> {
    quad_polyline(x0, y0, cx, cy, x1, y1, quad_segments(x0, y0, cx, cy, x1, y1), 0)
}

/// Computes the sample of the quadratic curve at parameter i/n.
fn quad_sample(x0: i128, y0: i128, cx: i128, cy: i128, x1: i128, y1: i128, n: i128, i: i128) -> (r: (
    i32,
    i32,
))
    requires
        -0x8000_0000 <= x0 < 0x8000_0000,
        -0x8000_0000 <= y0 < 0x8000_0000,
        -0x8000_0000 <= cx < 0x8000_0000,
        -0x8000_0000 <= cy < 0x8000_0000,
        -0x8000_0000 <= x1 < 0x8000_0000,
        -0x8000_0000 <= y1 < 0x8000_0000,
        0 < n <= 2_300_000_000,
        0 <= i <= n,
    ensures
        (r.0 as int, r.1 as int) == quad_point(
            x0 as int,
            y0 as int,
            cx as int,
            cy as int,
            x1 as int,
            y1 as int,
            n as int,
            i as int,
        ),
{
    let mt = n - i;
    proof {
        assert(0 <= mt * mt <= 5_290_000_000_000_000_000 && 0 <= i * mt
            <= 5_290_000_000_000_000_000 && 0 <= i * i <= 5_290_000_000_000_000_000 && 0 < n * n
            <= 5_290_000_000_000_000_000) by (nonlinear_arith)
            requires
                0 <= i <= n,
                0 < n <= 2_300_000_000,
                mt == n - i,
        ;
    }
    let w1 = mt * mt;
    let w2 = 2 * (i * mt);
    let w3 = i * i;
    let den = n * n;
    proof {
        assert(w1 + w2 + w3 == den) by (nonlinear_arith)
            requires
                w1 == mt * mt,
                w2 == 2 * (i * mt),
                w3 == i * i,
                den == n * n,
                mt == n - i,
        ;
        assert(-0x8000_0000i128 * w1 <= x0 * w1 <= 0x7fff_ffffi128 * w1 && x0 * w1
            <= 12_000_000_000_000_000_000_000_000_000 && -12_000_000_000_000_000_000_000_000_000
            <= x0 * w1) by (nonlinear_arith)
            requires
                -0x8000_0000 <= x0 < 0x8000_0000,
                0 <= w1 <= 5_290_000_000_000_000_000,
        ;
        assert(-0x8000_0000i128 * w2 <= cx * w2 <= 0x7fff_ffffi128 * w2 && cx * w2
            <= 24_000_000_000_000_000_000_000_000_000 && -24_000_000_000_000_000_000_000_000_000
            <= cx * w2) by (nonlinear_arith)
            requires
                -0x8000_0000 <= cx < 0x8000_0000,
                0 <= w2 <= 10_580_000_000_000_000_000,
        ;
        assert(-0x8000_0000i128 * w3 <= x1 * w3 <= 0x7fff_ffffi128 * w3 && x1 * w3
            <= 12_000_000_000_000_000_000_000_000_000 && -12_000_000_000_000_000_000_000_000_000
            <= x1 * w3) by (nonlinear_arith)
            requires
                -0x8000_0000 <= x1 < 0x8000_0000,
                0 <= w3 <= 5_290_000_000_000_000_000,
        ;
        assert(-0x8000_0000i128 * w1 <= y0 * w1 <= 0x7fff_ffffi128 * w1 && y0 * w1
            <= 12_000_000_000_000_000_000_000_000_000 && -12_000_000_000_000_000_000_000_000_000
            <= y0 * w1) by (nonlinear_arith)
            requires
                -0x8000_0000 <= y0 < 0x8000_0000,
                0 <= w1 <= 5_290_000_000_000_000_000,
        ;
        assert(-0x8000_0000i128 * w2 <= cy * w2 <= 0x7fff_ffffi128 * w2 && cy * w2
            <= 24_000_000_000_000_000_000_000_000_000 && -24_000_000_000_000_000_000_000_000_000
            <= cy * w2) by (nonlinear_arith)
            requires
                -0x8000_0000 <= cy < 0x8000_0000,
                0 <= w2 <= 10_580_000_000_000_000_000,
        ;
        assert(-0x8000_0000i128 * w3 <= y1 * w3 <= 0x7fff_ffffi128 * w3 && y1 * w3
            <= 12_000_000_000_000_000_000_000_000_000 && -12_000_000_000_000_000_000_000_000_000
            <= y1 * w3) by (nonlinear_arith)
            requires
                -0x8000_0000 <= y1 < 0x8000_0000,
                0 <= w3 <= 5_290_000_000_000_000_000,
        ;
    }
    let numx = x0 * w1 + cx * w2 + x1 * w3;
    let numy = y0 * w1 + cy * w2 + y1 * w3;
    proof {
        assert(-0x8000_0000i128 * den <= numx <= 0x7fff_ffffi128 * den);
        assert(-0x8000_0000i128 * den <= numy <= 0x7fff_ffffi128 * den);
        lemma_round_div_bounds(numx as int, den as int, -0x8000_0000, 0x7fff_ffff);
        lemma_round_div_bounds(numy as int, den as int, -0x8000_0000, 0x7fff_ffff);
    }
    let rx: i128 = if numx >= 0 {
        (2 * numx + den) / (2 * den)
    } else {
        -((2 * (-numx) + den) / (2 * den))
    };
    let ry: i128 = if numy >= 0 {
        (2 * numy + den) / (2 * den)
    } else {
        -((2 * (-numy) + den) / (2 * den))
    };
    proof {
        assert(rx as int == round_div(numx as int, den as int));
        assert(ry as int == round_div(numy as int, den as int));
    }
    (rx as i32, ry as i32)
}

/// How many pixels the integer square root of a squared i32 distance can
/// span; every edge of a control polygon is at most this long.
proof fn lemma_edge_len_bound(ax: int, ay: int, bx: int, by: int, l: int)
    requires
        -0x8000_0000 <= ax < 0x8000_0000,
        -0x8000_0000 <= ay < 0x8000_0000,
        -0x8000_0000 <= bx < 0x8000_0000,
        -0x8000_0000 <= by < 0x8000_0000,
        is_sqrt_floor(dist2(ax, ay, bx, by), l),
    ensures
        0 <= l <= 6_100_000_000,
        0 <= dist2(ax, ay, bx, by) < 0x40_0000_0000_0000_0000,
{
    assert(0 <= dist2(ax, ay, bx, by) <= 37_000_000_000_000_000_000) by (nonlinear_arith)
        requires
            -0x1_0000_0000 <= bx - ax <= 0x1_0000_0000,
            -0x1_0000_0000 <= by - ay <= 0x1_0000_0000,
    ;
    assert(l <= 6_100_000_000) by (nonlinear_arith)
        requires
            0 <= l,
            l * l <= 37_000_000_000_000_000_000,
    ;
}

/// Bounds for the flattening segment count derived from a control polygon of
/// total length at most len: at least one segment, at most a fixed cap, and
/// the biased square root stays close to the length.
proof fn lemma_segments_bounds(l: int, s: int, n: int)
    requires
        0 <= l <= 18_300_000_000,
        is_sqrt_floor(l * l + 800, s),
        n == (s + 4) / 8,
    ensures
        1 <= n <= 2_300_000_000,
        28 <= s <= l + 28,
{
    assert(28 <= s <= l + 28) by (nonlinear_arith)
        requires
            0 <= l,
            0 <= s,
            s * s <= l * l + 800,
            l * l + 800 < (s + 1) * (s + 1),
    ;
    vstd::arithmetic::div_mod::lemma_fundamental_div_mod(s + 4, 8);
    vstd::arithmetic::div_mod::lemma_mod_bound(s + 4, 8);
}

/// Draws the quadratic Bezier curve: the curve is sampled at evenly spaced
/// parameters, one per segment of the adaptive count, and consecutive
/// samples are joined with Bresenham lines, painting exactly the points of
/// `quad_bezier_points` over the old buffer, clipped to the canvas.
pub fn draw_quadratic_bezier2d(
    start: (i32, i32),
    end: (i32, i32),
    control: (i32, i32),
    canvas: &mut Canvas,
    color: &Color,
)
    requires
        old(canvas).wf(),
    ensures
        final(canvas).wf(),
        final(canvas).spec_width() == old(canvas).spec_width(),
        final(canvas).spec_height() == old(canvas).spec_height(),
        final(canvas).buf() == paint(
            old(canvas).buf(),
            old(canvas).spec_width(),
            old(canvas).spec_height(),
            quad_bezier_points(
                start.0 as int,
                start.1 as int,
                control.0 as int,
                control.1 as int,
                end.0 as int,
                end.1 as int,
            ),
            *color,
        ),
{
    let ghost buf0 = old(canvas).buf();
    let ghost w = old(canvas).spec_width();
    let ghost h = old(canvas).spec_height();
    let ghost full = quad_bezier_points(
        start.0 as int,
        start.1 as int,
        control.0 as int,
        control.1 as int,
        end.0 as int,
        end.1 as int,
    );
    let x0: i128 = start.0 as i128;
    let y0: i128 = start.1 as i128;
    let cx: i128 = control.0 as i128;
    let cy: i128 = control.1 as i128;
    let x1: i128 = end.0 as i128;
    let y1: i128 = end.1 as i128;
    proof {
        assert(0 <= (cx - x0) * (cx - x0) <= 18_500_000_000_000_000_000 && 0 <= (cy - y0) * (cy
            - y0) <= 18_500_000_000_000_000_000 && 0 <= (x1 - cx) * (x1 - cx)
            <= 18_500_000_000_000_000_000 && 0 <= (y1 - cy) * (y1 - cy)
            <= 18_500_000_000_000_000_000) by (nonlinear_arith)
            requires
                -0x1_0000_0000 <= cx - x0 <= 0x1_0000_0000,
                -0x1_0000_0000 <= cy - y0 <= 0x1_0000_0000,
                -0x1_0000_0000 <= x1 - cx <= 0x1_0000_0000,
                -0x1_0000_0000 <= y1 - cy <= 0x1_0000_0000,
        ;
    }
    let d1: i128 = (cx - x0) * (cx - x0) + (cy - y0) * (cy - y0);
    let d2: i128 = (x1 - cx) * (x1 - cx) + (y1 - cy) * (y1 - cy);
    let l1: i128 = isqrt(d1 as u128) as i128;
    let l2: i128 = isqrt(d2 as u128) as i128;
    proof {
        lemma_edge_len_bound(x0 as int, y0 as int, cx as int, cy as int, l1 as int);
        lemma_edge_len_bound(cx as int, cy as int, x1 as int, y1 as int, l2 as int);
        lemma_sqrt_floor_unique(d1 as int, l1 as int);
        lemma_sqrt_floor_unique(d2 as int, l2 as int);
    }
    let l: i128 = l1 + l2;
    proof {
        assert(0 <= l * l <= 148_840_000_000_000_000_000) by (nonlinear_arith)
            requires
                0 <= l <= 12_200_000_000,
        ;
        assert(l * l + 800 < 0x40_0000_0000_0000_0000);
    }
    let v: i128 = l * l + 800;
    let s: i128 = isqrt(v as u128) as i128;
    proof {
        lemma_sqrt_floor_unique(v as int, s as int);
        lemma_segments_bounds(l as int, s as int, ((s + 4) / 8) as int);
    }
    let n: i128 = (s + 4) / 8;
    proof {
        assert(n as int == quad_segments(
            x0 as int,
            y0 as int,
            cx as int,
            cy as int,
            x1 as int,
            y1 as int,
        ));
    }
    if n <= 0 {
        // degenerate segment count: nothing to draw
        return;
    }
    let mut i: i128 = 0;
    let mut sa = quad_sample(x0, y0, cx, cy, x1, y1, n, 0);
    while i < n
        invariant
            canvas.wf(),
            canvas.spec_width() == w,
            canvas.spec_height() == h,
            -0x8000_0000 <= x0 < 0x8000_0000,
            -0x8000_0000 <= y0 < 0x8000_0000,
            -0x8000_0000 <= cx < 0x8000_0000,
            -0x8000_0000 <= cy < 0x8000_0000,
            -0x8000_0000 <= x1 < 0x8000_0000,
            -0x8000_0000 <= y1 < 0x8000_0000,
            0 < n <= 2_300_000_000,
            0 <= i <= n,
            (sa.0 as int, sa.1 as int) == quad_point(
                x0 as int,
                y0 as int,
                cx as int,
                cy as int,
                x1 as int,
                y1 as int,
                n as int,
                i as int,
            ),
            full == quad_polyline(
                x0 as int,
                y0 as int,
                cx as int,
                cy as int,
                x1 as int,
                y1 as int,
                n as int,
                0,
            ),
            paint(
                canvas.buf(),
                w,
                h,
                quad_polyline(
                    x0 as int,
                    y0 as int,
                    cx as int,
                    cy as int,
                    x1 as int,
                    y1 as int,
                    n as int,
                    i as int,
                ),
                *color,
            ) == paint(buf0, w, h, full, *color),
        decreases n - i,
    {
        let sb = quad_sample(x0, y0, cx, cy, x1, y1, n, i + 1);
        let ghost lp = line_points(sa.0 as int, sa.1 as int, sb.0 as int, sb.1 as int);
        let ghost rest = quad_polyline(
            x0 as int,
            y0 as int,
            cx as int,
            cy as int,
            x1 as int,
            y1 as int,
            n as int,
            i as int + 1,
        );
        let ghost b0 = canvas.buf();
        proof {
            assert(quad_polyline(
                x0 as int,
                y0 as int,
                cx as int,
                cy as int,
                x1 as int,
                y1 as int,
                n as int,
                i as int,
            ) == lp + rest);
            lemma_paint_concat(b0, w, h, lp, rest, *color);
        }
        draw_line2d(sa.0, sa.1, sb.0, sb.1, canvas, color);
        sa = sb;
        i = i + 1;
    }
    proof {
        assert(quad_polyline(
            x0 as int,
            y0 as int,
            cx as int,
            cy as int,
            x1 as int,
            y1 as int,
            n as int,
            i as int,
        ).len() == 0);
    }
}

/// The flattened quadratic curve begins and ends exactly on the curve's
/// endpoints: the first sample is the start point, the last sample is the
/// end point, and both are among the plotted points, whatever the control
/// point.
pub proof fn lemma_quad_bezier_endpoints(x0: int, y0: int, cx: int, cy: int, x1: int, y1: int)
    ensures
        quad_segments(x0, y0, cx, cy, x1, y1) >= 1,
        quad_point(x0, y0, cx, cy, x1, y1, quad_segments(x0, y0, cx, cy, x1, y1), 0) == (x0, y0),
        quad_point(
            x0,
            y0,
            cx,
            cy,
            x1,
            y1,
            quad_segments(x0, y0, cx, cy, x1, y1),
            quad_segments(x0, y0, cx, cy, x1, y1),
        ) == (x1, y1),
        quad_bezier_points(x0, y0, cx, cy, x1, y1).contains((x0, y0)),
        quad_bezier_points(x0, y0, cx, cy, x1, y1).contains((x1, y1)),
{
    assert(dist2(x0, y0, cx, cy) >= 0 && dist2(cx, cy, x1, y1) >= 0) by (nonlinear_arith);
    lemma_sqrt_floor_is(dist2(x0, y0, cx, cy));
    lemma_sqrt_floor_is(dist2(cx, cy, x1, y1));
    let l = sqrt_floor(dist2(x0, y0, cx, cy)) + sqrt_floor(dist2(cx, cy, x1, y1));
    assert(l * l + 800 >= 0) by (nonlinear_arith)
        requires
            l >= 0,
    ;
    lemma_sqrt_floor_is(l * l + 800);
    let sq = sqrt_floor(l * l + 800);
    assert(sq >= 28) by (nonlinear_arith)
        requires
            0 <= sq,
            l * l + 800 < (sq + 1) * (sq + 1),
            l * l >= 0,
    ;
    vstd::arithmetic::div_mod::lemma_fundamental_div_mod(sq + 4, 8);
    vstd::arithmetic::div_mod::lemma_mod_bound(sq + 4, 8);
    let n = quad_segments(x0, y0, cx, cy, x1, y1);
    assert(n >= 1);
    assert(x0 * ((n - 0) * (n - 0)) + cx * (2 * (0 * (n - 0))) + x1 * (0 * 0) == x0 * (n * n))
        by (nonlinear_arith);
    assert(y0 * ((n - 0) * (n - 0)) + cy * (2 * (0 * (n - 0))) + y1 * (0 * 0) == y0 * (n * n))
        by (nonlinear_arith);
    assert(x0 * ((n - n) * (n - n)) + cx * (2 * (n * (n - n))) + x1 * (n * n) == x1 * (n * n))
        by (nonlinear_arith);
    assert(y0 * ((n - n) * (n - n)) + cy * (2 * (n * (n - n))) + y1 * (n * n) == y1 * (n * n))
        by (nonlinear_arith);
    assert(n * n > 0) by (nonlinear_arith)
        requires
            n >= 1,
    ;
    lemma_round_div_exact(x0, n * n);
    lemma_round_div_exact(y0, n * n);
    lemma_round_div_exact(x1, n * n);
    lemma_round_div_exact(y1, n * n);
    let p0 = quad_point(x0, y0, cx, cy, x1, y1, n, 0);
    let p1 = quad_point(x0, y0, cx, cy, x1, y1, n, 1);
    crate::shape::line2d::lemma_line_points_endpoints(p0.0, p0.1, p1.0, p1.1);
    lemma_concat_contains(
        line_points(p0.0, p0.1, p1.0, p1.1),
        quad_polyline(x0, y0, cx, cy, x1, y1, n, 1),
        (x0, y0),
    );
    lemma_quad_polyline_contains_end(x0, y0, cx, cy, x1, y1, n, 0);
}

/// Every tail of the flattened quadratic curve still reaches the final
/// sample.
proof fn lemma_quad_polyline_contains_end(
    x0: int,
    y0: int,
    cx: int,
    cy: int,
    x1: int,
    y1: int,
    n: int,
    i: int,
)
    requires
        0 <= i < n,
    ensures
        quad_polyline(x0, y0, cx, cy, x1, y1, n, i).contains(
            quad_point(x0, y0, cx, cy, x1, y1, n, n),
        ),
    decreases n - i,
{
    let a = quad_point(x0, y0, cx, cy, x1, y1, n, i);
    let b = quad_point(x0, y0, cx, cy, x1, y1, n, i + 1);
    if i + 1 == n {
        crate::shape::line2d::lemma_line_points_endpoints(a.0, a.1, b.0, b.1);
        lemma_concat_contains(
            line_points(a.0, a.1, b.0, b.1),
            quad_polyline(x0, y0, cx, cy, x1, y1, n, i + 1),
            b,
        );
    } else {
        lemma_quad_polyline_contains_end(x0, y0, cx, cy, x1, y1, n, i + 1);
        lemma_concat_contains(
            line_points(a.0, a.1, b.0, b.1),
            quad_polyline(x0, y0, cx, cy, x1, y1, n, i + 1),
            quad_point(x0, y0, cx, cy, x1, y1, n, n),
        );
    }
}

/// The sample of the cubic curve at parameter i/n, rounded to the nearest
/// pixel: the Bernstein blend of the four control points, with weights
/// (n-i)^3, 3i(n-i)^2, 3i^2(n-i) and i^3 over the denominator n^3.
pub open spec fn cubic_point(
    x0: int,
    y0: int,
    ax: int,
    ay: int,
    bx: int,
    by: int,
    x1: int,
    y1: int,
    n: int,
    i: int,
) -> (int, int) {
    let mt = n - i;
    let den = n * (n * n);
    (
        round_div(
            x0 * (mt * (mt * mt)) + ax * (3 * (i * (mt * mt))) + bx * (3 * ((i * i) * mt)) + x1 * (
            i * (i * i)),
            den,
        ),
        round_div(
            y0 * (mt * (mt * mt)) + ay * (3 * (i * (mt * mt))) + by * (3 * ((i * i) * mt)) + y1 * (
            i * (i * i)),
            den,
        ),
    )
}

/// How many line segments flatten the cubic curve: as for the quadratic one,
/// from the three-edge control polygon length.
pub open spec fn cubic_segments(
    x0: int,
    y0: int,
    ax: int,
    ay: int,
    bx: int,
    by: int,
    x1: int,
    y1: int,
) -> int {
    let l = sqrt_floor(dist2(x0, y0, ax, ay)) + sqrt_floor(dist2(ax, ay, bx, by)) + sqrt_floor(
        dist2(bx, by, x1, y1),
    );
    (sqrt_floor(l * l + 800) + 4) / 8
}

/// The line walks joining consecutive samples of the cubic curve, from
/// sample i up to sample n.
pub open spec fn cubic_polyline(
    x0: int,
    y0: int,
    ax: int,
    ay: int,
    bx: int,
    by: int,
    x1: int,
    y1: int,
    n: int,
    i: int,
) -> Seq<(int, int)>
    decreases n - i,
{
    if i >= n {
        Seq::empty()
    } else {
        let a = cubic_point(x0, y0, ax, ay, bx, by, x1, y1, n, i);
        let b = cubic_point(x0, y0, ax, ay, bx, by, x1, y1, n, i + 1);
        line_points(a.0, a.1, b.0, b.1) + cubic_polyline(x0, y0, ax, ay, bx, by, x1, y1, n, i + 1)
    }
}

/// Exactly the points drawing the cubic curve plots.
pub open spec fn cubic_bezier_points(
    x0: int,
    y0: int,
    ax: int,
    ay: int,
    bx: int,
    by: int,
    x1: int,
    y1: int,
) -> Seq<(int, int)> {
    cubic_polyline(
        x0,
        y0,
        ax,
        ay,
        bx,
        by,
        x1,
        y1,
        cubic_segments(x0, y0, ax, ay, bx, by, x1, y1),
        0,
    )
}

/// Computes the sample of the cubic curve at parameter i/n.
fn cubic_sample(
    x0: i128,
    y0: i128,
    ax: i128,
    ay: i128,
    bx: i128,
    by: i128,
    x1: i128,
    y1: i128,
    n: i128,
    i: i128,
) -> (r: (i32, i32))
    requires
        -0x8000_0000 <= x0 < 0x8000_0000,
        -0x8000_0000 <= y0 < 0x8000_0000,
        -0x8000_0000 <= ax < 0x8000_0000,
        -0x8000_0000 <= ay < 0x8000_0000,
        -0x8000_0000 <= bx < 0x8000_0000,
        -0x8000_0000 <= by < 0x8000_0000,
        -0x8000_0000 <= x1 < 0x8000_0000,
        -0x8000_0000 <= y1 < 0x8000_0000,
        0 < n <= 2_300_000_000,
        0 <= i <= n,
    ensures
        (r.0 as int, r.1 as int) == cubic_point(
            x0 as int,
            y0 as int,
            ax as int,
            ay as int,
            bx as int,
            by as int,
            x1 as int,
            y1 as int,
            n as int,
            i as int,
        ),
{
    let mt = n - i;
    proof {
        assert(0 <= mt * mt <= 5_290_000_000_000_000_000 && 0 <= i * i
            <= 5_290_000_000_000_000_000 && 0 < n * n <= 5_290_000_000_000_000_000 && 0 <= i * mt
            <= 1_322_500_000_000_000_000) by (nonlinear_arith)
            requires
                0 <= i <= n,
                0 < n <= 2_300_000_000,
                mt == n - i,
        ;
        assert(0 <= mt * (mt * mt) <= 12_167_000_000_000_000_000_000_000_000 && 0 <= i * (i * i)
            <= 12_167_000_000_000_000_000_000_000_000 && 0 < n * (n * n)
            <= 12_167_000_000_000_000_000_000_000_000 && 0 <= i * (mt * mt)
            <= 3_041_750_000_000_000_000_000_000_000 && 0 <= (i * i) * mt
            <= 3_041_750_000_000_000_000_000_000_000) by (nonlinear_arith)
            requires
                0 <= i <= n,
                0 < n <= 2_300_000_000,
                mt == n - i,
                0 <= mt * mt <= 5_290_000_000_000_000_000,
                0 <= i * i <= 5_290_000_000_000_000_000,
                0 < n * n <= 5_290_000_000_000_000_000,
                0 <= i * mt <= 1_322_500_000_000_000_000,
        ;
    }
    let w1 = mt * (mt * mt);
    let w2 = 3 * (i * (mt * mt));
    let w3 = 3 * ((i * i) * mt);
    let w4 = i * (i * i);
    let den = n * (n * n);
    proof {
        assert(w1 + w2 + w3 + w4 == den) by (nonlinear_arith)
            requires
                w1 == mt * (mt * mt),
                w2 == 3 * (i * (mt * mt)),
                w3 == 3 * ((i * i) * mt),
                w4 == i * (i * i),
                den == n * (n * n),
                mt == n - i,
        ;
        assert(-0x8000_0000i128 * w1 <= x0 * w1 <= 0x7fff_ffffi128 * w1 && x0 * w1
            <= 27_000_000_000_000_000_000_000_000_000_000_000_000
            && -27_000_000_000_000_000_000_000_000_000_000_000_000 <= x0 * w1)
            by (nonlinear_arith)
            requires
                -0x8000_0000 <= x0 < 0x8000_0000,
                0 <= w1 <= 12_167_000_000_000_000_000_000_000_000,
        ;
        assert(-0x8000_0000i128 * w2 <= ax * w2 <= 0x7fff_ffffi128 * w2 && ax * w2
            <= 27_000_000_000_000_000_000_000_000_000_000_000_000
            && -27_000_000_000_000_000_000_000_000_000_000_000_000 <= ax * w2)
            by (nonlinear_arith)
            requires
                -0x8000_0000 <= ax < 0x8000_0000,
                0 <= w2 <= 9_125_250_000_000_000_000_000_000_000,
        ;
        assert(-0x8000_0000i128 * w3 <= bx * w3 <= 0x7fff_ffffi128 * w3 && bx * w3
            <= 27_000_000_000_000_000_000_000_000_000_000_000_000
            && -27_000_000_000_000_000_000_000_000_000_000_000_000 <= bx * w3)
            by (nonlinear_arith)
            requires
                -0x8000_0000 <= bx < 0x8000_0000,
                0 <= w3 <= 9_125_250_000_000_000_000_000_000_000,
        ;
        assert(-0x8000_0000i128 * w4 <= x1 * w4 <= 0x7fff_ffffi128 * w4 && x1 * w4
            <= 27_000_000_000_000_000_000_000_000_000_000_000_000
            && -27_000_000_000_000_000_000_000_000_000_000_000_000 <= x1 * w4)
            by (nonlinear_arith)
            requires
                -0x8000_0000 <= x1 < 0x8000_0000,
                0 <= w4 <= 12_167_000_000_000_000_000_000_000_000,
        ;
        assert(-0x8000_0000i128 * w1 <= y0 * w1 <= 0x7fff_ffffi128 * w1 && y0 * w1
            <= 27_000_000_000_000_000_000_000_000_000_000_000_000
            && -27_000_000_000_000_000_000_000_000_000_000_000_000 <= y0 * w1)
            by (nonlinear_arith)
            requires
                -0x8000_0000 <= y0 < 0x8000_0000,
                0 <= w1 <= 12_167_000_000_000_000_000_000_000_000,
        ;
        assert(-0x8000_0000i128 * w2 <= ay * w2 <= 0x7fff_ffffi128 * w2 && ay * w2
            <= 27_000_000_000_000_000_000_000_000_000_000_000_000
            && -27_000_000_000_000_000_000_000_000_000_000_000_000 <= ay * w2)
            by (nonlinear_arith)
            requires
                -0x8000_0000 <= ay < 0x8000_0000,
                0 <= w2 <= 9_125_250_000_000_000_000_000_000_000,
        ;
        assert(-0x8000_0000i128 * w3 <= by * w3 <= 0x7fff_ffffi128 * w3 && by * w3
            <= 27_000_000_000_000_000_000_000_000_000_000_000_000
            && -27_000_000_000_000_000_000_000_000_000_000_000_000 <= by * w3)
            by (nonlinear_arith)
            requires
                -0x8000_0000 <= by < 0x8000_0000,
                0 <= w3 <= 9_125_250_000_000_000_000_000_000_000,
        ;
        assert(-0x8000_0000i128 * w4 <= y1 * w4 <= 0x7fff_ffffi128 * w4 && y1 * w4
            <= 27_000_000_000_000_000_000_000_000_000_000_000_000
            && -27_000_000_000_000_000_000_000_000_000_000_000_000 <= y1 * w4)
            by (nonlinear_arith)
            requires
                -0x8000_0000 <= y1 < 0x8000_0000,
                0 <= w4 <= 12_167_000_000_000_000_000_000_000_000,
        ;
    }
    let numx = x0 * w1 + ax * w2 + bx * w3 + x1 * w4;
    let numy = y0 * w1 + ay * w2 + by * w3 + y1 * w4;
    proof {
        assert(-0x8000_0000i128 * den <= numx <= 0x7fff_ffffi128 * den);
        assert(-0x8000_0000i128 * den <= numy <= 0x7fff_ffffi128 * den);
        lemma_round_div_bounds(numx as int, den as int, -0x8000_0000, 0x7fff_ffff);
        lemma_round_div_bounds(numy as int, den as int, -0x8000_0000, 0x7fff_ffff);
    }
    let rx: i128 = if numx >= 0 {
        (2 * numx + den) / (2 * den)
    } else {
        -((2 * (-numx) + den) / (2 * den))
    };
    let ry: i128 = if numy >= 0 {
        (2 * numy + den) / (2 * den)
    } else {
        -((2 * (-numy) + den) / (2 * den))
    };
    proof {
        assert(rx as int == round_div(numx as int, den as int));
        assert(ry as int == round_div(numy as int, den as int));
    }
    (rx as i32, ry as i32)
}

/// Draws the cubic Bezier curve: the curve is sampled at evenly spaced
/// parameters, one per segment of the adaptive count, and consecutive
/// samples are joined with Bresenham lines, painting exactly the points of
/// `cubic_bezier_points` over the old buffer, clipped to the canvas.
pub fn draw_cubic_bezier2d(
    start: (i32, i32),
    end: (i32, i32),
    control_a: (i32, i32),
    control_b: (i32, i32),
    canvas: &mut Canvas,
    color: &Color,
)
    requires
        old(canvas).wf(),
    ensures
        final(canvas).wf(),
        final(canvas).spec_width() == old(canvas).spec_width(),
        final(canvas).spec_height() == old(canvas).spec_height(),
        final(canvas).buf() == paint(
            old(canvas).buf(),
            old(canvas).spec_width(),
            old(canvas).spec_height(),
            cubic_bezier_points(
                start.0 as int,
                start.1 as int,
                control_a.0 as int,
                control_a.1 as int,
                control_b.0 as int,
                control_b.1 as int,
                end.0 as int,
                end.1 as int,
            ),
            *color,
        ),
{
    let ghost buf0 = old(canvas).buf();
    let ghost w = old(canvas).spec_width();
    let ghost h = old(canvas).spec_height();
    let ghost full = cubic_bezier_points(
        start.0 as int,
        start.1 as int,
        control_a.0 as int,
        control_a.1 as int,
        control_b.0 as int,
        control_b.1 as int,
        end.0 as int,
        end.1 as int,
    );
    let x0: i128 = start.0 as i128;
    let y0: i128 = start.1 as i128;
    let ax: i128 = control_a.0 as i128;
    let ay: i128 = control_a.1 as i128;
    let bx: i128 = control_b.0 as i128;
    let by: i128 = control_b.1 as i128;
    let x1: i128 = end.0 as i128;
    let y1: i128 = end.1 as i128;
    proof {
        assert(0 <= (ax - x0) * (ax - x0) <= 18_500_000_000_000_000_000 && 0 <= (ay - y0) * (ay
            - y0) <= 18_500_000_000_000_000_000 && 0 <= (bx - ax) * (bx - ax)
            <= 18_500_000_000_000_000_000 && 0 <= (by - ay) * (by - ay)
            <= 18_500_000_000_000_000_000 && 0 <= (x1 - bx) * (x1 - bx)
            <= 18_500_000_000_000_000_000 && 0 <= (y1 - by) * (y1 - by)
            <= 18_500_000_000_000_000_000) by (nonlinear_arith)
            requires
                -0x1_0000_0000 <= ax - x0 <= 0x1_0000_0000,
                -0x1_0000_0000 <= ay - y0 <= 0x1_0000_0000,
                -0x1_0000_0000 <= bx - ax <= 0x1_0000_0000,
                -0x1_0000_0000 <= by - ay <= 0x1_0000_0000,
                -0x1_0000_0000 <= x1 - bx <= 0x1_0000_0000,
                -0x1_0000_0000 <= y1 - by <= 0x1_0000_0000,
        ;
    }
    let d1: i128 = (ax - x0) * (ax - x0) + (ay - y0) * (ay - y0);
    let d2: i128 = (bx - ax) * (bx - ax) + (by - ay) * (by - ay);
    let d3: i128 = (x1 - bx) * (x1 - bx) + (y1 - by) * (y1 - by);
    let l1: i128 = isqrt(d1 as u128) as i128;
    let l2: i128 = isqrt(d2 as u128) as i128;
    let l3: i128 = isqrt(d3 as u128) as i128;
    proof {
        lemma_edge_len_bound(x0 as int, y0 as int, ax as int, ay as int, l1 as int);
        lemma_edge_len_bound(ax as int, ay as int, bx as int, by as int, l2 as int);
        lemma_edge_len_bound(bx as int, by as int, x1 as int, y1 as int, l3 as int);
        lemma_sqrt_floor_unique(d1 as int, l1 as int);
        lemma_sqrt_floor_unique(d2 as int, l2 as int);
        lemma_sqrt_floor_unique(d3 as int, l3 as int);
    }
    let l: i128 = l1 + l2 + l3;
    proof {
        assert(0 <= l * l <= 334_890_000_000_000_000_000) by (nonlinear_arith)
            requires
                0 <= l <= 18_300_000_000,
        ;
        assert(l * l + 800 < 0x40_0000_0000_0000_0000);
    }
    let v: i128 = l * l + 800;
    let s: i128 = isqrt(v as u128) as i128;
    proof {
        lemma_sqrt_floor_unique(v as int, s as int);
        lemma_segments_bounds(l as int, s as int, ((s + 4) / 8) as int);
    }
    let n: i128 = (s + 4) / 8;
    proof {
        assert(n as int == cubic_segments(
            x0 as int,
            y0 as int,
            ax as int,
            ay as int,
            bx as int,
            by as int,
            x1 as int,
            y1 as int,
        ));
    }
    if n <= 0 {
        // degenerate segment count: nothing to draw
        return;
    }
    let mut i: i128 = 0;
    let mut sa = cubic_sample(x0, y0, ax, ay, bx, by, x1, y1, n, 0);
    while i < n
        invariant
            canvas.wf(),
            canvas.spec_width() == w,
            canvas.spec_height() == h,
            -0x8000_0000 <= x0 < 0x8000_0000,
            -0x8000_0000 <= y0 < 0x8000_0000,
            -0x8000_0000 <= ax < 0x8000_0000,
            -0x8000_0000 <= ay < 0x8000_0000,
            -0x8000_0000 <= bx < 0x8000_0000,
            -0x8000_0000 <= by < 0x8000_0000,
            -0x8000_0000 <= x1 < 0x8000_0000,
            -0x8000_0000 <= y1 < 0x8000_0000,
            0 < n <= 2_300_000_000,
            0 <= i <= n,
            (sa.0 as int, sa.1 as int) == cubic_point(
                x0 as int,
                y0 as int,
                ax as int,
                ay as int,
                bx as int,
                by as int,
                x1 as int,
                y1 as int,
                n as int,
                i as int,
            ),
            full == cubic_polyline(
                x0 as int,
                y0 as int,
                ax as int,
                ay as int,
                bx as int,
                by as int,
                x1 as int,
                y1 as int,
                n as int,
                0,
            ),
            paint(
                canvas.buf(),
                w,
                h,
                cubic_polyline(
                    x0 as int,
                    y0 as int,
                    ax as int,
                    ay as int,
                    bx as int,
                    by as int,
                    x1 as int,
                    y1 as int,
                    n as int,
                    i as int,
                ),
                *color,
            ) == paint(buf0, w, h, full, *color),
        decreases n - i,
    {
        let sb = cubic_sample(x0, y0, ax, ay, bx, by, x1, y1, n, i + 1);
        let ghost lp = line_points(sa.0 as int, sa.1 as int, sb.0 as int, sb.1 as int);
        let ghost rest = cubic_polyline(
            x0 as int,
            y0 as int,
            ax as int,
            ay as int,
            bx as int,
            by as int,
            x1 as int,
            y1 as int,
            n as int,
            i as int + 1,
        );
        let ghost b0 = canvas.buf();
        proof {
            assert(cubic_polyline(
                x0 as int,
                y0 as int,
                ax as int,
                ay as int,
                bx as int,
                by as int,
                x1 as int,
                y1 as int,
                n as int,
                i as int,
            ) == lp + rest);
            lemma_paint_concat(b0, w, h, lp, rest, *color);
        }
        draw_line2d(sa.0, sa.1, sb.0, sb.1, canvas, color);
        sa = sb;
        i = i + 1;
    }
    proof {
        assert(cubic_polyline(
            x0 as int,
            y0 as int,
            ax as int,
            ay as int,
            bx as int,
            by as int,
            x1 as int,
            y1 as int,
            n as int,
            i as int,
        ).len() == 0);
    }
}

/// The flattened cubic curve begins and ends exactly on the curve's
/// endpoints: the first sample is the start point, the last sample is the
/// end point, and both are among the plotted points, whatever the two
/// control points.
pub proof fn lemma_cubic_bezier_endpoints(
    x0: int,
    y0: int,
    ax: int,
    ay: int,
    bx: int,
    by: int,
    x1: int,
    y1: int,
)
    ensures
        cubic_segments(x0, y0, ax, ay, bx, by, x1, y1) >= 1,
        cubic_point(
            x0,
            y0,
            ax,
            ay,
            bx,
            by,
            x1,
            y1,
            cubic_segments(x0, y0, ax, ay, bx, by, x1, y1),
            0,
        ) == (x0, y0),
        cubic_point(
            x0,
            y0,
            ax,
            ay,
            bx,
            by,
            x1,
            y1,
            cubic_segments(x0, y0, ax, ay, bx, by, x1, y1),
            cubic_segments(x0, y0, ax, ay, bx, by, x1, y1),
        ) == (x1, y1),
        cubic_bezier_points(x0, y0, ax, ay, bx, by, x1, y1).contains((x0, y0)),
        cubic_bezier_points(x0, y0, ax, ay, bx, by, x1, y1).contains((x1, y1)),
{
    assert(dist2(x0, y0, ax, ay) >= 0 && dist2(ax, ay, bx, by) >= 0 && dist2(bx, by, x1, y1) >= 0)
        by (nonlinear_arith);
    lemma_sqrt_floor_is(dist2(x0, y0, ax, ay));
    lemma_sqrt_floor_is(dist2(ax, ay, bx, by));
    lemma_sqrt_floor_is(dist2(bx, by, x1, y1));
    let l = sqrt_floor(dist2(x0, y0, ax, ay)) + sqrt_floor(dist2(ax, ay, bx, by)) + sqrt_floor(
        dist2(bx, by, x1, y1),
    );
    assert(l * l + 800 >= 0) by (nonlinear_arith)
        requires
            l >= 0,
    ;
    lemma_sqrt_floor_is(l * l + 800);
    let sq = sqrt_floor(l * l + 800);
    assert(sq >= 28) by (nonlinear_arith)
        requires
            0 <= sq,
            l * l + 800 < (sq + 1) * (sq + 1),
            l * l >= 0,
    ;
    vstd::arithmetic::div_mod::lemma_fundamental_div_mod(sq + 4, 8);
    vstd::arithmetic::div_mod::lemma_mod_bound(sq + 4, 8);
    let n = cubic_segments(x0, y0, ax, ay, bx, by, x1, y1);
    assert(n >= 1);
    assert(x0 * ((n - 0) * ((n - 0) * (n - 0))) + ax * (3 * (0 * ((n - 0) * (n - 0)))) + bx * (3
        * ((0 * 0) * (n - 0))) + x1 * (0 * (0 * 0)) == x0 * (n * (n * n))) by (nonlinear_arith);
    assert(y0 * ((n - 0) * ((n - 0) * (n - 0))) + ay * (3 * (0 * ((n - 0) * (n - 0)))) + by * (3
        * ((0 * 0) * (n - 0))) + y1 * (0 * (0 * 0)) == y0 * (n * (n * n))) by (nonlinear_arith);
    assert(x0 * ((n - n) * ((n - n) * (n - n))) + ax * (3 * (n * ((n - n) * (n - n)))) + bx * (3
        * ((n * n) * (n - n))) + x1 * (n * (n * n)) == x1 * (n * (n * n))) by (nonlinear_arith);
    assert(y0 * ((n - n) * ((n - n) * (n - n))) + ay * (3 * (n * ((n - n) * (n - n)))) + by * (3
        * ((n * n) * (n - n))) + y1 * (n * (n * n)) == y1 * (n * (n * n))) by (nonlinear_arith);
    assert(n * (n * n) > 0) by (nonlinear_arith)
        requires
            n >= 1,
    ;
    lemma_round_div_exact(x0, n * (n * n));
    lemma_round_div_exact(y0, n * (n * n));
    lemma_round_div_exact(x1, n * (n * n));
    lemma_round_div_exact(y1, n * (n * n));
    let p0 = cubic_point(x0, y0, ax, ay, bx, by, x1, y1, n, 0);
    let p1 = cubic_point(x0, y0, ax, ay, bx, by, x1, y1, n, 1);
    crate::shape::line2d::lemma_line_points_endpoints(p0.0, p0.1, p1.0, p1.1);
    lemma_concat_contains(
        line_points(p0.0, p0.1, p1.0, p1.1),
        cubic_polyline(x0, y0, ax, ay, bx, by, x1, y1, n, 1),
        (x0, y0),
    );
    lemma_cubic_polyline_contains_end(x0, y0, ax, ay, bx, by, x1, y1, n, 0);
}

/// Every tail of the flattened cubic curve still reaches the final sample.
proof fn lemma_cubic_polyline_contains_end(
    x0: int,
    y0: int,
    ax: int,
    ay: int,
    bx: int,
    by: int,
    x1: int,
    y1: int,
    n: int,
    i: int,
)
    requires
        0 <= i < n,
    ensures
        cubic_polyline(x0, y0, ax, ay, bx, by, x1, y1, n, i).contains(
            cubic_point(x0, y0, ax, ay, bx, by, x1, y1, n, n),
        ),
    decreases n - i,
{
    let a = cubic_point(x0, y0, ax, ay, bx, by, x1, y1, n, i);
    let b = cubic_point(x0, y0, ax, ay, bx, by, x1, y1, n, i + 1);
    if i + 1 == n {
        crate::shape::line2d::lemma_line_points_endpoints(a.0, a.1, b.0, b.1);
        lemma_concat_contains(
            line_points(a.0, a.1, b.0, b.1),
            cubic_polyline(x0, y0, ax, ay, bx, by, x1, y1, n, i + 1),
            b,
        );
    } else {
        lemma_cubic_polyline_contains_end(x0, y0, ax, ay, bx, by, x1, y1, n, i + 1);
        lemma_concat_contains(
            line_points(a.0, a.1, b.0, b.1),
            cubic_polyline(x0, y0, ax, ay, bx, by, x1, y1, n, i + 1),
            cubic_point(x0, y0, ax, ay, bx, by, x1, y1, n, n),
        );
    }
}

} // verus!
