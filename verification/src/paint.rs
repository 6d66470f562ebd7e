//! The mathematical model of drawing: a canvas buffer is a `Seq<u8>`, and
//! every drawing routine is described as painting a sequence of points onto
//! it through one bounded pixel write at a time.

use vstd::prelude::*;

use crate::color::Color;

verus! {

/// The byte offset of pixel (x, y) in a row-major RGBA buffer of the given width.
pub open spec fn pix_off(w: int, x: int, y: int) -> int {
    4 * (y * w + x)
}

/// Whether (x, y) lies on a canvas of the given dimensions.
pub open spec fn pix_in_bounds(w: int, h: int, x: int, y: int) -> bool {
    0 <= x < w && 0 <= y < h
}

/// Channel m of a color, in buffer order: red, green, blue, alpha.
pub open spec fn chan(c: Color, m: int) -> u8 {
    if m == 0 {
        c.r
    } else if m == 1 {
        c.g
    } else if m == 2 {
        c.b
    } else {
        c.a
    }
}

/// Whether the four bytes of pixel (x, y) hold the color c.
pub open spec fn pixel_is(buf: Seq<u8>, w: int, x: int, y: int, c: Color) -> bool {
    let o = pix_off(w, x, y);
    &&& buf[o] == c.r
    &&& buf[o + 1] == c.g
    &&& buf[o + 2] == c.b
    &&& buf[o + 3] == c.a
}

/// The buffer after one bounded pixel write: the four bytes of an in-bounds
/// pixel are set to the color, and any out-of-canvas write leaves the buffer
/// untouched.
pub open spec fn paint_one(buf: Seq<u8>, w: int, h: int, p: (int, int), c: Color) -> Seq<u8> {
    let o = pix_off(w, p.0, p.1);
    if pix_in_bounds(w, h, p.0, p.1) && o + 4 <= buf.len() {
        buf.update(o, c.r).update(o + 1, c.g).update(o + 2, c.b).update(o + 3, c.a)
    } else {
        buf
    }
}

/// The buffer after painting every point of the sequence, in order.
pub open spec fn paint(buf: Seq<u8>, w: int, h: int, pts: Seq<(int, int)>, c: Color) -> Seq<u8>
    decreases pts.len(),
{
    if pts.len() == 0 {
        buf
    } else {
        paint(paint_one(buf, w, h, pts[0], c), w, h, pts.drop_first(), c)
    }
}

/// Painting one point never changes the buffer's length.
pub proof fn lemma_paint_one_len(buf: Seq<u8>, w: int, h: int, p: (int, int), c: Color)
    ensures
        paint_one(buf, w, h, p, c).len() == buf.len(),
{
}

/// Painting a sequence and then one more point is painting the extended sequence.
pub proof fn lemma_paint_snoc(buf: Seq<u8>, w: int, h: int, pts: Seq<(int, int)>, p: (int, int), c: Color)
    ensures
        paint(buf, w, h, pts.push(p), c) == paint_one(paint(buf, w, h, pts, c), w, h, p, c),
    decreases pts.len(),
{
    let s = pts.push(p);
    if pts.len() == 0 {
        assert(s.drop_first() =~= Seq::<(int, int)>::empty());
        assert(s[0] == p);
        assert(paint(buf, w, h, s, c) == paint(paint_one(buf, w, h, p, c), w, h, s.drop_first(), c));
        assert(paint(paint_one(buf, w, h, p, c), w, h, s.drop_first(), c) == paint_one(buf, w, h, p, c));
        assert(paint(buf, w, h, pts, c) == buf);
    } else {
        let buf1 = paint_one(buf, w, h, pts[0], c);
        assert(s.drop_first() =~= pts.drop_first().push(p));
        assert(s[0] == pts[0]);
        assert(paint(buf, w, h, s, c) == paint(buf1, w, h, pts.drop_first().push(p), c));
        lemma_paint_snoc(buf1, w, h, pts.drop_first(), p, c);
        assert(paint(buf, w, h, pts, c) == paint(buf1, w, h, pts.drop_first(), c));
    }
}

/// Two distinct in-bounds pixels occupy disjoint byte ranges: their offsets
/// differ by at least one whole pixel.
pub proof fn lemma_pix_off_disjoint(w: int, h: int, x1: int, y1: int, x2: int, y2: int)
    requires
        pix_in_bounds(w, h, x1, y1),
        pix_in_bounds(w, h, x2, y2),
        (x1, y1) != (x2, y2),
    ensures
        pix_off(w, x1, y1) + 4 <= pix_off(w, x2, y2) || pix_off(w, x2, y2) + 4 <= pix_off(w, x1, y1),
{
    assert(y1 * w + x1 != y2 * w + x2 && (y1 * w + x1 < y2 * w + x2 ==> y1 * w + x1 + 1 <= y2 * w + x2)
        && (y2 * w + x2 < y1 * w + x1 ==> y2 * w + x2 + 1 <= y1 * w + x1)) by (nonlinear_arith)
        requires
            0 <= x1 < w,
            0 <= y1 < h,
            0 <= x2 < w,
            0 <= y2 < h,
            (x1, y1) != (x2, y2),
    ;
}

/// The byte range of an in-bounds pixel lies inside the pixel area of the buffer.
pub proof fn lemma_pix_off_in_range(buf: Seq<u8>, w: int, h: int, x: int, y: int)
    requires
        pix_in_bounds(w, h, x, y),
        4 * w * h <= buf.len(),
    ensures
        0 <= pix_off(w, x, y),
        pix_off(w, x, y) + 4 <= 4 * w * h,
{
    assert(0 <= 4 * (y * w + x) && 4 * (y * w + x) + 4 <= 4 * w * h) by (nonlinear_arith)
        requires
            0 <= x < w,
            0 <= y < h,
    ;
}

/// A pixel that already holds the color keeps it under any further write of
/// that same color.
pub proof fn lemma_paint_one_keeps_pixel(
    buf: Seq<u8>,
    w: int,
    h: int,
    x: int,
    y: int,
    p: (int, int),
    c: Color,
)
    requires
        pix_in_bounds(w, h, x, y),
        pix_off(w, x, y) + 4 <= buf.len(),
        pixel_is(buf, w, x, y, c),
    ensures
        pixel_is(paint_one(buf, w, h, p, c), w, x, y, c),
{
    if pix_in_bounds(w, h, p.0, p.1) && pix_off(w, p.0, p.1) + 4 <= buf.len() {
        if p == (x, y) {
        } else {
            lemma_pix_off_disjoint(w, h, x, y, p.0, p.1);
        }
    }
}

/// Painting an in-bounds point makes its pixel hold the color.
pub proof fn lemma_paint_one_sets_pixel(buf: Seq<u8>, w: int, h: int, p: (int, int), c: Color)
    requires
        pix_in_bounds(w, h, p.0, p.1),
        pix_off(w, p.0, p.1) + 4 <= buf.len(),
    ensures
        pixel_is(paint_one(buf, w, h, p, c), w, p.0, p.1, c),
{
}

/// A pixel that already holds the color keeps it while any sequence of points
/// is painted in that color.
pub proof fn lemma_paint_keeps_pixel(
    buf: Seq<u8>,
    w: int,
    h: int,
    x: int,
    y: int,
    pts: Seq<(int, int)>,
    c: Color,
)
    requires
        pix_in_bounds(w, h, x, y),
        pix_off(w, x, y) + 4 <= buf.len(),
        pixel_is(buf, w, x, y, c),
    ensures
        pixel_is(paint(buf, w, h, pts, c), w, x, y, c),
    decreases pts.len(),
{
    if pts.len() > 0 {
        lemma_paint_one_keeps_pixel(buf, w, h, x, y, pts[0], c);
        lemma_paint_one_len(buf, w, h, pts[0], c);
        lemma_paint_keeps_pixel(paint_one(buf, w, h, pts[0], c), w, h, x, y, pts.drop_first(), c);
    }
}

/// Every in-bounds point of a painted sequence ends up holding the color:
/// painting is cumulative, and repainting in the same color cannot undo it.
pub proof fn lemma_paint_sets_pixel(
    buf: Seq<u8>,
    w: int,
    h: int,
    pts: Seq<(int, int)>,
    p: (int, int),
    c: Color,
)
    requires
        pts.contains(p),
        pix_in_bounds(w, h, p.0, p.1),
        pix_off(w, p.0, p.1) + 4 <= buf.len(),
    ensures
        pixel_is(paint(buf, w, h, pts, c), w, p.0, p.1, c),
    decreases pts.len(),
{
    let buf1 = paint_one(buf, w, h, pts[0], c);
    lemma_paint_one_len(buf, w, h, pts[0], c);
    if pts[0] == p {
        lemma_paint_one_sets_pixel(buf, w, h, p, c);
        lemma_paint_keeps_pixel(buf1, w, h, p.0, p.1, pts.drop_first(), c);
    } else {
        let i = choose|i: int| 0 <= i < pts.len() && pts[i] == p;
        assert(pts.drop_first()[i - 1] == p);
        lemma_paint_sets_pixel(buf1, w, h, pts.drop_first(), p, c);
    }
}

/// One painting step, spelled out: the first point is painted, then the rest.
pub proof fn lemma_paint_cons(buf: Seq<u8>, w: int, h: int, pts: Seq<(int, int)>, c: Color)
    requires
        pts.len() > 0,
    ensures
        paint(buf, w, h, pts, c) == paint(paint_one(buf, w, h, pts[0], c), w, h, pts.drop_first(), c),
{
}

/// A member of either part is a member of the concatenation.
pub proof fn lemma_concat_contains<T>(a: Seq<T>, b: Seq<T>, t: T)
    requires
        a.contains(t) || b.contains(t),
    ensures
        (a + b).contains(t),
{
    if a.contains(t) {
        let i = choose|i: int| 0 <= i < a.len() && a[i] == t;
        assert((a + b)[i] == t);
    } else {
        let i = choose|i: int| 0 <= i < b.len() && b[i] == t;
        assert((a + b)[a.len() + i] == t);
    }
}

/// A member of a concatenation is a member of one of its parts.
pub proof fn lemma_contains_split<T>(a: Seq<T>, b: Seq<T>, t: T)
    requires
        (a + b).contains(t),
    ensures
        a.contains(t) || b.contains(t),
{
    let i = choose|i: int| 0 <= i < (a + b).len() && (a + b)[i] == t;
    if i < a.len() {
        assert(a[i] == t);
    } else {
        assert(b[i - a.len()] == t);
    }
}

/// Painting a concatenation is painting the first part and then the second.
pub proof fn lemma_paint_concat(buf: Seq<u8>, w: int, h: int, a: Seq<(int, int)>, b: Seq<(int, int)>, c: Color)
    ensures
        paint(buf, w, h, a + b, c) == paint(paint(buf, w, h, a, c), w, h, b, c),
    decreases a.len(),
{
    if a.len() == 0 {
        assert(a + b =~= b);
    } else {
        assert((a + b).drop_first() =~= a.drop_first() + b);
        assert((a + b)[0] == a[0]);
        assert((a + b).len() > 0);
        lemma_paint_concat(paint_one(buf, w, h, a[0], c), w, h, a.drop_first(), b, c);
    }
}

/// The buffer after the whole pixel area is filled with one color; the bytes
/// beyond the pixel area keep their old values.
pub open spec fn cleared(buf: Seq<u8>, w: int, h: int, c: Color) -> Seq<u8> {
    Seq::new(buf.len(), |k: int| if k < 4 * w * h { chan(c, k % 4) } else { buf[k] })
}

/// Clearing an already cleared buffer changes nothing: filling every pixel
/// with a color is idempotent.
pub proof fn lemma_cleared_idempotent(buf: Seq<u8>, w: int, h: int, c: Color)
    ensures
        cleared(cleared(buf, w, h, c), w, h, c) == cleared(buf, w, h, c),
{
    assert(cleared(cleared(buf, w, h, c), w, h, c) =~= cleared(buf, w, h, c));
}

} // verus!
