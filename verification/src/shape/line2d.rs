//! The line rasterizer: Bresenham's algorithm over integer coordinates, the
//! shared primitive every stroked shape and the curve flatteners build on.

use vstd::prelude::*;

use crate::canvas::Canvas;
use crate::color::Color;
use crate::paint::paint;
use vstd::math::abs;

verus! {

/// A straight line segment between two pixel coordinates.
#[derive(Debug, Clone, Copy, PartialEq, Eq, Structural)]
pub struct Line2D {
    pub x1: i32,
    pub y1: i32,
    pub x2: i32,
    pub y2: i32,
}

impl Line2D {
    /// Creates a line segment from (x1, y1) to (x2, y2).
    pub fn new(x1: i32, y1: i32, x2: i32, y2: i32) -> (l: Self)
        ensures
            l == (Line2D { x1, y1, x2, y2 }),
    {
        Line2D { x1, y1, x2, y2 }
    }
}

/// The points visited walking the major axis from (x, y) up to x2 while the
/// accumulated error term steps the minor axis: one point per major-axis
/// column, exactly as Bresenham's algorithm plots them.
pub open spec fn bres_walk(
    x: int,
    y: int,
    x2: int,
    dx: int,
    derror: int,
    error: int,
    ystep: int,
) -> Seq<(int, int)>
    decreases x2 + 1 - x,
{
    if x > x2 {
        Seq::empty()
    } else {
        let e = error + derror;
        let ny = if e > dx {
            y + ystep
        } else {
            y
        };
        let ne = if e > dx {
            e - 2 * dx
        } else {
            e
        };
        seq![(x, y)] + bres_walk(x + 1, ny, x2, dx, derror, ne, ystep)
    }
}

/// The same walk with the two coordinates of every point exchanged, used for
/// steep lines, which are walked along y instead of x.
pub open spec fn transpose_pts(s: Seq<(int, int)>) -> Seq<(int, int)> {
    s.map_values(|p: (int, int)| (p.1, p.0))
}

/// The forward walk from (x1, y1) to (x2, y2), for x1 <= x2 and a major axis
/// of x: the error term starts at zero and grows by twice the y distance.
pub open spec fn walk_fwd(x1: int, y1: int, x2: int, y2: int) -> Seq<(int, int)> {
    bres_walk(
        x1,
        y1,
        x2,
        x2 - x1,
        2 * (abs(y2 - y1) as int),
        0,
        if y2 > y1 {
            1
        } else {
            -1
        },
    )
}

/// The walk between two points with x as major axis, in whichever direction
/// runs from the smaller to the larger x.
pub open spec fn walk_major(x1: int, y1: int, x2: int, y2: int) -> Seq<(int, int)> {
    if x1 > x2 {
        walk_fwd(x2, y2, x1, y1)
    } else {
        walk_fwd(x1, y1, x2, y2)
    }
}

/// Exactly the pixels Bresenham's line from (x1, y1) to (x2, y2) plots, in
/// plotting order: steep lines are transposed so the longer axis is walked.
pub open spec fn line_points(x1: int, y1: int, x2: int, y2: int) -> Seq<(int, int)> {
    if abs(x1 - x2) < abs(y1 - y2) {
        transpose_pts(walk_major(y1, x1, y2, x2))
    } else {
        walk_major(x1, y1, x2, y2)
    }
}

/// Draws the line from (x1, y1) to (x2, y2) with Bresenham's algorithm:
/// afterwards the buffer holds exactly the old contents with the points of
/// `line_points` painted over it, clipped to the canvas.
pub fn draw_line2d(x1: i32, y1: i32, x2: i32, y2: i32, canvas: &mut Canvas, color: &Color)
    requires
        old(canvas).wf(),
    ensures
        final(canvas).wf(),
        final(canvas).spec_width() == old(canvas).spec_width(),
        final(canvas).spec_height() == old(canvas).spec_height(),
        final(canvas).buf() == paint(
            old(canvas).buf(),
            old(canvas).spec_width(),
            old(canvas).spec_height(),
            line_points(x1 as int, y1 as int, x2 as int, y2 as int),
            *color,
        ),
{
    let ghost buf0 = old(canvas).buf();
    let ghost w = old(canvas).spec_width();
    let ghost h = old(canvas).spec_height();
    let ghost full = line_points(x1 as int, y1 as int, x2 as int, y2 as int);

    let mut mx1: i64 = x1 as i64;
    let mut my1: i64 = y1 as i64;
    let mut mx2: i64 = x2 as i64;
    let mut my2: i64 = y2 as i64;
    let mut steep = false;

    let adx: i64 = if mx1 >= mx2 {
        mx1 - mx2
    } else {
        mx2 - mx1
    };
    let ady0: i64 = if my1 >= my2 {
        my1 - my2
    } else {
        my2 - my1
    };
    if adx < ady0 {
        let t1 = mx1;
        mx1 = my1;
        my1 = t1;
        let t2 = mx2;
        mx2 = my2;
        my2 = t2;
        steep = true;
    }
    if mx1 > mx2 {
        let t1 = mx1;
        mx1 = mx2;
        mx2 = t1;
        let t2 = my1;
        my1 = my2;
        my2 = t2;
    }
    let dx: i64 = mx2 - mx1;
    let ady: i64 = if my1 >= my2 {
        my1 - my2
    } else {
        my2 - my1
    };
    let derror: i64 = 2 * ady;
    let ystep: i64 = if my2 > my1 {
        1
    } else {
        -1
    };
    let ghost walk = bres_walk(
        mx1 as int,
        my1 as int,
        mx2 as int,
        dx as int,
        derror as int,
        0,
        ystep as int,
    );
    proof {
        if steep {
            assert(full == transpose_pts(walk));
        } else {
            assert(full == walk);
        }
        assert(full.len() == walk.len());
        assert(walk.skip(0) =~= walk);
        assert(full.take(0) =~= Seq::<(int, int)>::empty());
        assert(2 * ((mx1 as int) - (mx1 as int)) * (ady as int) - 2 * (dx as int) * 0 == 0)
            by (nonlinear_arith);
    }

    let mut error: i64 = 0;
    let mut y: i64 = my1;
    let mut x: i64 = mx1;
    let ghost mut s: int = 0;
    while x <= mx2
        invariant
            canvas.wf(),
            canvas.spec_width() == w,
            canvas.spec_height() == h,
            -0x8000_0000 <= mx1 < 0x8000_0000,
            -0x8000_0000 <= my1 < 0x8000_0000,
            -0x8000_0000 <= mx2 < 0x8000_0000,
            -0x8000_0000 <= my2 < 0x8000_0000,
            mx1 <= mx2,
            dx == mx2 - mx1,
            ady == abs(my2 as int - my1 as int),
            ady <= dx,
            derror == 2 * ady,
            ystep as int == (if my2 > my1 {
                1int
            } else {
                -1int
            }),
            mx1 <= x <= mx2 + 1,
            y == my1 + ystep * s,
            0 <= s <= ady + 1,
            x <= mx2 ==> s <= ady,
            error == 2 * (x - mx1) * ady - 2 * dx * s,
            dx > 0 ==> -dx < error <= dx,
            dx == 0 ==> error == 0 && s == 0,
            walk == bres_walk(
                mx1 as int,
                my1 as int,
                mx2 as int,
                dx as int,
                derror as int,
                0,
                ystep as int,
            ),
            x - mx1 <= walk.len(),
            bres_walk(
                x as int,
                y as int,
                mx2 as int,
                dx as int,
                derror as int,
                error as int,
                ystep as int,
            ) == walk.skip(x - mx1),
            full == (if steep {
                transpose_pts(walk)
            } else {
                walk
            }),
            canvas.buf() == paint(buf0, w, h, full.take(x - mx1), *color),
        decreases mx2 + 1 - x,
    {
        let ghost k = x - mx1;
        let ghost rest = bres_walk(
            x as int,
            y as int,
            mx2 as int,
            dx as int,
            derror as int,
            error as int,
            ystep as int,
        );
        proof {
            assert(rest[0] == (x as int, y as int));
            assert(rest.len() > 0);
            assert(k < walk.len()) by {
                assert(walk.skip(k).len() > 0);
            }
            assert(walk[k] == (x as int, y as int)) by {
                assert(walk.skip(k)[0] == walk[k + 0]);
            }
            // the plotted y never leaves the band between my1 and my2
            assert(ystep * s == (if my2 > my1 {
                s
            } else {
                -s
            })) by (nonlinear_arith)
                requires
                    ystep as int == (if my2 > my1 {
                        1int
                    } else {
                        -1int
                    }),
            ;
            if my2 > my1 {
                assert(ady == my2 - my1);
                assert(my1 <= y <= my2);
            } else {
                assert(ady == my1 - my2);
                assert(my2 <= y <= my1);
            }
        }
        if steep {
            canvas.draw_point(y as i32, x as i32, color);
            proof {
                assert(full[k] == (y as int, x as int));
            }
        } else {
            canvas.draw_point(x as i32, y as i32, color);
            proof {
                assert(full[k] == (x as int, y as int));
            }
        }
        proof {
            assert(full.take(k + 1) =~= full.take(k).push(full[k]));
            crate::paint::lemma_paint_snoc(buf0, w, h, full.take(k), full[k], *color);
        }
        let ghost e_in = error as int;
        let ghost s_in = s;
        error = error + derror;
        if error > dx {
            y = y + ystep;
            error = error - 2 * dx;
            proof {
                s = s + 1;
                assert(error as int == 2 * (k + 1) * ady - 2 * dx * s) by (nonlinear_arith)
                    requires
                        error as int == e_in + 2 * ady - 2 * dx,
                        s == s_in + 1,
                        e_in == 2 * k * ady - 2 * dx * s_in,
                ;
                // the minor axis cannot overshoot while columns remain
                if x + 1 <= mx2 {
                    assert(s <= ady) by (nonlinear_arith)
                        requires
                            error as int == 2 * (k + 1) * ady - 2 * dx * s,
                            -dx < error,
                            k + 1 <= dx,
                            dx > 0,
                            0 <= ady,
                            0 <= s,
                    ;
                }
                assert(s <= ady + 1) by (nonlinear_arith)
                    requires
                        error as int == 2 * (k + 1) * ady - 2 * dx * s,
                        -dx < error,
                        k + 1 <= dx + 1,
                        ady <= dx,
                        dx > 0,
                        0 <= ady,
                        0 <= s,
                ;
            }
        } else {
            proof {
                assert(error as int == 2 * (k + 1) * ady - 2 * dx * s) by (nonlinear_arith)
                    requires
                        error as int == e_in + 2 * ady,
                        s == s_in,
                        e_in == 2 * k * ady - 2 * dx * s_in,
                ;
            }
        }
        proof {
            assert(rest.drop_first() =~= bres_walk(
                x as int + 1,
                y as int,
                mx2 as int,
                dx as int,
                derror as int,
                error as int,
                ystep as int,
            ));
            assert(walk.skip(k).drop_first() =~= walk.skip(k + 1));
        }
        x = x + 1;
    }
    proof {
        assert(bres_walk(
            x as int,
            y as int,
            mx2 as int,
            dx as int,
            derror as int,
            error as int,
            ystep as int,
        ).len() == 0);
        assert(walk.skip(x - mx1).len() == 0);
        assert(walk.len() == x - mx1);
        assert(full.take(x - mx1) =~= full);
    }
}

/// The walk visits one point per major-axis column, ends its last point in
/// column x2, and arrives there with an error budget that still lies in the
/// half-open band of one column: from that band the final minor coordinate
/// is pinned down.
proof fn lemma_bres_walk_last(
    x: int,
    y: int,
    x2: int,
    dx: int,
    derror: int,
    error: int,
    ystep: int,
    ady: int,
)
    requires
        x <= x2,
        derror == 2 * ady,
        0 <= ady <= dx,
        dx > 0,
        -dx < error <= dx,
        ystep == 1 || ystep == -1,
    ensures
        bres_walk(x, y, x2, dx, derror, error, ystep).len() == x2 + 1 - x,
        bres_walk(x, y, x2, dx, derror, error, ystep).last().0 == x2,
        -dx < error + 2 * (x2 - x) * ady - 2 * dx * ((bres_walk(
            x,
            y,
            x2,
            dx,
            derror,
            error,
            ystep,
        ).last().1 - y) * ystep) <= dx,
    decreases x2 - x,
{
    let w = bres_walk(x, y, x2, dx, derror, error, ystep);
    let e = error + derror;
    let ny = if e > dx {
        y + ystep
    } else {
        y
    };
    let ne = if e > dx {
        e - 2 * dx
    } else {
        e
    };
    if x == x2 {
        reveal_with_fuel(bres_walk, 2);
        assert(w =~= seq![(x, y)]);
        assert(w.last() == (x, y));
        assert(error + 2 * (x2 - x) * ady - 2 * dx * ((y - y) * ystep) == error)
            by (nonlinear_arith)
            requires
                x2 == x,
        ;
    } else {
        let wr = bres_walk(x + 1, ny, x2, dx, derror, ne, ystep);
        lemma_bres_walk_last(x + 1, ny, x2, dx, derror, ne, ystep, ady);
        assert(w.last() == wr.last()) by {
            assert(w.len() == 1 + wr.len());
            assert(w[w.len() - 1] == wr[wr.len() - 1]);
        }
        let yl = wr.last().1;
        if e > dx {
            assert(ne + 2 * (x2 - x - 1) * ady - 2 * dx * ((yl - ny) * ystep) == error + 2 * (x2
                - x) * ady - 2 * dx * ((yl - y) * ystep)) by (nonlinear_arith)
                requires
                    ne == error + 2 * ady - 2 * dx,
                    ny == y + ystep,
                    ystep == 1 || ystep == -1,
            ;
        } else {
            assert(ne + 2 * (x2 - x - 1) * ady - 2 * dx * ((yl - ny) * ystep) == error + 2 * (x2
                - x) * ady - 2 * dx * ((yl - y) * ystep)) by (nonlinear_arith)
                requires
                    ne == error + 2 * ady,
                    ny == y,
            ;
        }
    }
}

/// The forward walk between two points whose x distance dominates starts at
/// its first point and ends exactly at its second: the accumulated error
/// terms deliver the minor axis at the far endpoint.
proof fn lemma_walk_fwd_endpoints(x1: int, y1: int, x2: int, y2: int)
    requires
        x1 <= x2,
        abs(y2 - y1) <= x2 - x1,
    ensures
        walk_fwd(x1, y1, x2, y2).len() == x2 + 1 - x1,
        walk_fwd(x1, y1, x2, y2).first() == (x1, y1),
        walk_fwd(x1, y1, x2, y2).last() == (x2, y2),
{
    let dx = x2 - x1;
    let ady = abs(y2 - y1) as int;
    let ystep: int = if y2 > y1 {
        1
    } else {
        -1
    };
    let w = walk_fwd(x1, y1, x2, y2);
    if dx == 0 {
        reveal_with_fuel(bres_walk, 2);
        assert(y1 == y2);
        assert(w =~= seq![(x1, y1)]);
    } else {
        lemma_bres_walk_last(x1, y1, x2, dx, 2 * ady, 0, ystep, ady);
        assert(w.first() == (x1, y1));
        let yl = w.last().1;
        let s = (yl - y1) * ystep;
        assert(-dx < 2 * dx * ady - 2 * dx * s <= dx);
        assert(s == ady) by (nonlinear_arith)
            requires
                -dx < 2 * dx * ady - 2 * dx * s <= dx,
                dx > 0,
        ;
        assert(yl == y2) by (nonlinear_arith)
            requires
                (yl - y1) * ystep == ady,
                ystep == (if y2 > y1 {
                    1int
                } else {
                    -1int
                }),
                ady == abs(y2 - y1),
                ady == (if y2 > y1 {
                    y2 - y1
                } else {
                    y1 - y2
                }),
        ;
    }
}

/// Both endpoints of a line are among the points Bresenham plots, and the
/// plotted sequence is never empty.
pub proof fn lemma_line_points_endpoints(x1: int, y1: int, x2: int, y2: int)
    ensures
        line_points(x1, y1, x2, y2).contains((x1, y1)),
        line_points(x1, y1, x2, y2).contains((x2, y2)),
        line_points(x1, y1, x2, y2).len() > 0,
{
    if abs(x1 - x2) < abs(y1 - y2) {
        let w = walk_major(y1, x1, y2, x2);
        let t = transpose_pts(w);
        if y1 > y2 {
            lemma_walk_fwd_endpoints(y2, x2, y1, x1);
            assert(t[0] == (x2, y2));
            assert(t[t.len() - 1] == (x1, y1));
        } else {
            lemma_walk_fwd_endpoints(y1, x1, y2, x2);
            assert(t[0] == (x1, y1));
            assert(t[t.len() - 1] == (x2, y2));
        }
    } else {
        let w = walk_major(x1, y1, x2, y2);
        if x1 > x2 {
            lemma_walk_fwd_endpoints(x2, y2, x1, y1);
            assert(w[0] == (x2, y2));
            assert(w[w.len() - 1] == (x1, y1));
        } else {
            lemma_walk_fwd_endpoints(x1, y1, x2, y2);
            assert(w[0] == (x1, y1));
            assert(w[w.len() - 1] == (x2, y2));
        }
    }
}

/// Drawing a line colors both of its endpoints: after painting the line's
/// points over any buffer, each endpoint that lies on the canvas holds the
/// line's color.
pub proof fn lemma_line_colors_endpoints(
    buf: Seq<u8>,
    w: int,
    h: int,
    x1: int,
    y1: int,
    x2: int,
    y2: int,
    c: Color,
)
    requires
        4 * w * h <= buf.len(),
    ensures
        crate::paint::pix_in_bounds(w, h, x1, y1) ==> crate::paint::pixel_is(
            paint(buf, w, h, line_points(x1, y1, x2, y2), c),
            w,
            x1,
            y1,
            c,
        ),
        crate::paint::pix_in_bounds(w, h, x2, y2) ==> crate::paint::pixel_is(
            paint(buf, w, h, line_points(x1, y1, x2, y2), c),
            w,
            x2,
            y2,
            c,
        ),
{
    lemma_line_points_endpoints(x1, y1, x2, y2);
    if crate::paint::pix_in_bounds(w, h, x1, y1) {
        crate::paint::lemma_pix_off_in_range(buf, w, h, x1, y1);
        crate::paint::lemma_paint_sets_pixel(buf, w, h, line_points(x1, y1, x2, y2), (x1, y1), c);
    }
    if crate::paint::pix_in_bounds(w, h, x2, y2) {
        crate::paint::lemma_pix_off_in_range(buf, w, h, x2, y2);
        crate::paint::lemma_paint_sets_pixel(buf, w, h, line_points(x1, y1, x2, y2), (x2, y2), c);
    }
}

/// Drawing a line in either direction paints exactly the same pixels, in
/// fact the very same point sequence: the walk is normalized to run along
/// the major axis from its lower coordinate, whatever order the endpoints
/// were given in.
pub proof fn lemma_line_points_symmetric(x1: int, y1: int, x2: int, y2: int)
    ensures
        line_points(x1, y1, x2, y2) == line_points(x2, y2, x1, y1),
{
}

} // verus!
