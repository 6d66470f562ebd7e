//! The axis-aligned rectangle: stroked as four lines, filled point by point.

use vstd::prelude::*;

use crate::canvas::Canvas;
use crate::color::Color;
use crate::paint::{lemma_concat_contains, lemma_contains_split, lemma_paint_concat, paint,
    pix_in_bounds, pixel_is};
use crate::shape::line2d::{draw_line2d, line_points};

verus! {

/// An axis-aligned rectangle anchored at (x, y), spanning width pixels to
/// the right and height pixels down, with a fill flag.
#[derive(Debug, Clone, Copy, PartialEq, Eq, Structural)]
pub struct Rectangle2D {
    pub x: i32,
    pub y: i32,
    pub height: i32,
    pub width: i32,
    pub is_filled: bool,
}

impl Rectangle2D {
    /// Creates a rectangle anchored at (x, y) with the given extents.
    pub fn new(x: i32, y: i32, width: i32, height: i32, fill: bool) -> (r: Self)
        ensures
            r == (Rectangle2D { x, y, height, width, is_filled: fill }),
    {
        Rectangle2D { x, y, width, height, is_filled: fill }
    }
}

/// The four stroked edges of the rectangle, as the line walks that draw them,
/// in drawing order: top, left, right, bottom.
pub open spec fn rect_stroke_points(x: int, y: int, w: int, h: int) -> Seq<(int, int)> {
    line_points(x, y, x + w, y) + line_points(x, y, x, y + h) + line_points(x + w, y, x + w, y + h)
        + line_points(x, y + h, x + w, y + h)
}

/// The pixels of one filled column: (i, y) through (i, y + h - 1).
pub open spec fn col_points(i: int, y: int, h: int) -> Seq<(int, int)>
    decreases h,
{
    if h <= 0 {
        Seq::empty()
    } else {
        seq![(i, y)] + col_points(i, y + 1, h - 1)
    }
}

/// The pixels of the filled rectangle, column by column from x.
pub open spec fn rect_fill_points(x: int, y: int, w: int, h: int) -> Seq<(int, int)>
    decreases w,
{
    if w <= 0 {
        Seq::empty()
    } else {
        col_points(x, y, h) + rect_fill_points(x + 1, y, w - 1, h)
    }
}

/// Strokes the rectangle's outline: four Bresenham lines along its edges,
/// painted over the old buffer, clipped to the canvas.
pub fn draw_rect2d(x: i32, y: i32, width: i32, height: i32, canvas: &mut Canvas, color: &Color)
    requires
        old(canvas).wf(),
        i32::MIN <= x + width <= i32::MAX,
        i32::MIN <= y + height <= i32::MAX,
    ensures
        final(canvas).wf(),
        final(canvas).spec_width() == old(canvas).spec_width(),
        final(canvas).spec_height() == old(canvas).spec_height(),
        final(canvas).buf() == paint(
            old(canvas).buf(),
            old(canvas).spec_width(),
            old(canvas).spec_height(),
            rect_stroke_points(x as int, y as int, width as int, height as int),
            *color,
        ),
{
    let ghost buf0 = old(canvas).buf();
    let ghost w = old(canvas).spec_width();
    let ghost h = old(canvas).spec_height();
    let ghost l1 = line_points(x as int, y as int, x as int + width as int, y as int);
    let ghost l2 = line_points(x as int, y as int, x as int, y as int + height as int);
    let ghost l3 = line_points(
        x as int + width as int,
        y as int,
        x as int + width as int,
        y as int + height as int,
    );
    let ghost l4 = line_points(
        x as int,
        y as int + height as int,
        x as int + width as int,
        y as int + height as int,
    );
    draw_line2d(x, y, x + width, y, canvas, color);
    draw_line2d(x, y, x, y + height, canvas, color);
    draw_line2d(x + width, y, x + width, y + height, canvas, color);
    draw_line2d(x, y + height, x + width, y + height, canvas, color);
    proof {
        lemma_paint_concat(buf0, w, h, l1, l2, *color);
        lemma_paint_concat(buf0, w, h, l1 + l2, l3, *color);
        lemma_paint_concat(buf0, w, h, l1 + l2 + l3, l4, *color);
        assert(rect_stroke_points(x as int, y as int, width as int, height as int) == l1 + l2 + l3
            + l4);
    }
}

/// Fills the rectangle: every pixel of its area is painted, column by
/// column, clipped to the canvas.
pub fn draw_rect2d_filled(
    x: i32,
    y: i32,
    width: i32,
    height: i32,
    canvas: &mut Canvas,
    color: &Color,
)
    requires
        old(canvas).wf(),
        i32::MIN <= x + width <= i32::MAX,
        i32::MIN <= y + height <= i32::MAX,
    ensures
        final(canvas).wf(),
        final(canvas).spec_width() == old(canvas).spec_width(),
        final(canvas).spec_height() == old(canvas).spec_height(),
        final(canvas).buf() == paint(
            old(canvas).buf(),
            old(canvas).spec_width(),
            old(canvas).spec_height(),
            rect_fill_points(x as int, y as int, width as int, height as int),
            *color,
        ),
{
    let ghost buf0 = old(canvas).buf();
    let ghost w = old(canvas).spec_width();
    let ghost h = old(canvas).spec_height();
    let ghost full = rect_fill_points(x as int, y as int, width as int, height as int);
    let xe = x + width;
    let ye = y + height;
    let mut i = x;
    while i < xe
        invariant
            canvas.wf(),
            canvas.spec_width() == w,
            canvas.spec_height() == h,
            x <= i,
            xe == x + width,
            ye == y + height,
            paint(
                canvas.buf(),
                w,
                h,
                rect_fill_points(i as int, y as int, xe - i, height as int),
                *color,
            ) == paint(buf0, w, h, full, *color),
        decreases xe - i,
    {
        let ghost rest_cols = rect_fill_points(i as int + 1, y as int, xe - i - 1, height as int);
        proof {
            assert(rect_fill_points(i as int, y as int, xe - i, height as int) == col_points(
                i as int,
                y as int,
                height as int,
            ) + rest_cols);
            lemma_paint_concat(
                canvas.buf(),
                w,
                h,
                col_points(i as int, y as int, height as int),
                rest_cols,
                *color,
            );
        }
        let mut j = y;
        while j < ye
            invariant
                canvas.wf(),
                canvas.spec_width() == w,
                canvas.spec_height() == h,
                y <= j,
                ye == y + height,
                paint(canvas.buf(), w, h, col_points(i as int, j as int, ye - j) + rest_cols, *color)
                    == paint(buf0, w, h, full, *color),
            decreases ye - j,
        {
            let ghost cp = col_points(i as int, j as int, ye - j);
            proof {
                assert(cp == seq![(i as int, j as int)] + col_points(i as int, j as int + 1, ye - j - 1));
                assert((cp + rest_cols)[0] == (i as int, j as int));
                assert((cp + rest_cols).len() > 0);
                assert((cp + rest_cols).drop_first() =~= col_points(i as int, j as int + 1, ye - j - 1)
                    + rest_cols);
            }
            canvas.draw_point(i, j, color);
            j = j + 1;
        }
        proof {
            assert(col_points(i as int, j as int, ye - j).len() == 0);
            assert(col_points(i as int, j as int, ye - j) + rest_cols =~= rest_cols);
        }
        i = i + 1;
    }
    proof {
        assert(rect_fill_points(i as int, y as int, xe - i, height as int).len() == 0);
        assert(paint(canvas.buf(), w, h, rect_fill_points(i as int, y as int, xe - i, height as int), *color)
            == canvas.buf());
    }
}

/// A column of the filled rectangle holds exactly the points of its pixel
/// run.
proof fn lemma_col_points_char(i: int, y: int, h: int, q: (int, int))
    ensures
        col_points(i, y, h).contains(q) <==> (q.0 == i && y <= q.1 < y + h),
    decreases h,
{
    if h > 0 {
        lemma_col_points_char(i, y + 1, h - 1, q);
        let head = seq![(i, y)];
        let rest = col_points(i, y + 1, h - 1);
        if col_points(i, y, h).contains(q) {
            lemma_contains_split(head, rest, q);
            if head.contains(q) {
                assert(head[0] == q);
            }
        }
        if q.0 == i && y <= q.1 < y + h {
            if q.1 == y {
                assert(head[0] == q);
                lemma_concat_contains(head, rest, q);
            } else {
                lemma_concat_contains(head, rest, q);
            }
        }
    }
}

/// The filled rectangle holds exactly the points of its pixel area.
pub proof fn lemma_rect_fill_points_char(x: int, y: int, w: int, h: int, q: (int, int))
    ensures
        rect_fill_points(x, y, w, h).contains(q) <==> (x <= q.0 < x + w && y <= q.1 < y + h),
    decreases w,
{
    if w > 0 {
        lemma_rect_fill_points_char(x + 1, y, w - 1, h, q);
        lemma_col_points_char(x, y, h, q);
        let head = col_points(x, y, h);
        let rest = rect_fill_points(x + 1, y, w - 1, h);
        if rect_fill_points(x, y, w, h).contains(q) {
            lemma_contains_split(head, rest, q);
        }
        if x <= q.0 < x + w && y <= q.1 < y + h {
            lemma_concat_contains(head, rest, q);
        }
    }
}

/// Filling a rectangle colors every pixel of the rectangle that lies on the
/// canvas: the fill is solid over the visible part of its area.
pub proof fn lemma_rect_fill_colors_pixels(
    buf: Seq<u8>,
    bw: int,
    bh: int,
    x: int,
    y: int,
    w: int,
    h: int,
    a: int,
    b: int,
    c: Color,
)
    requires
        4 * bw * bh <= buf.len(),
        pix_in_bounds(bw, bh, a, b),
        x <= a < x + w,
        y <= b < y + h,
    ensures
        pixel_is(paint(buf, bw, bh, rect_fill_points(x, y, w, h), c), bw, a, b, c),
{
    lemma_rect_fill_points_char(x, y, w, h, (a, b));
    crate::paint::lemma_pix_off_in_range(buf, bw, bh, a, b);
    crate::paint::lemma_paint_sets_pixel(buf, bw, bh, rect_fill_points(x, y, w, h), (a, b), c);
}

} // verus!
