//! The ellipse and circle rasterizers: integer midpoint algorithms, plotting
//! eight (circle) or four (ellipse) symmetric points per step, with filled
//! variants that replace the point plots by horizontal spans.

use vstd::prelude::*;

use crate::canvas::Canvas;
use crate::color::Color;
use crate::paint::{lemma_concat_contains, lemma_contains_split, lemma_paint_concat,
    lemma_paint_cons, paint};
use crate::shape::line2d::{draw_line2d, line_points};

verus! {

/// An ellipse centered at (xc, yc) with the two half-axes, and a fill flag.
/// Equal radii make it a circle.
#[derive(Debug, Clone, Copy, PartialEq, Eq, Structural)]
pub struct Ellipse2D {
    pub xc: i32,
    pub yc: i32,
    pub width_radius: i32,
    pub height_radius: i32,
    pub is_filled: bool,
}

impl Ellipse2D {
    /// Creates an ellipse centered at (xc, yc) with the given half-axes.
    pub fn new(xc: i32, yc: i32, width_radius: i32, height_radius: i32, fill: bool) -> (e: Self)
        ensures
            e == (Ellipse2D { xc, yc, width_radius, height_radius, is_filled: fill }),
    {
        Ellipse2D { xc, yc, width_radius, height_radius, is_filled: fill }
    }
}

/// The largest center magnitude the ellipse routines accept; keeps every
/// plotted coordinate inside i32.
pub open spec fn center_limit() -> int {
    1_000_000_000
}

/// The largest radius magnitude the ellipse routines accept; keeps the
/// midpoint error terms inside i64.
pub open spec fn radius_limit() -> int {
    10_000
}

/// What the ellipse and circle routines require of their arguments so that
/// their integer arithmetic cannot overflow.
pub open spec fn ellipse_args_ok(xc: int, yc: int, wr: int, hr: int) -> bool {
    &&& -center_limit() <= xc <= center_limit()
    &&& -center_limit() <= yc <= center_limit()
    &&& -radius_limit() <= wr <= radius_limit()
    &&& -radius_limit() <= hr <= radius_limit()
}

/// The eight symmetric points of one circle step, as offsets (x, y) from the
/// center, in plotting order.
pub open spec fn eight(xc: int, yc: int, x: int, y: int) -> Seq<(int, int)> {
    seq![
        (xc + x, yc + y),
        (xc + y, yc + x),
        (xc - y, yc + x),
        (xc - x, yc + y),
        (xc - x, yc - y),
        (xc - y, yc - x),
        (xc + y, yc - x),
        (xc + x, yc - y),
    ]
}

/// The midpoint circle walk from octant position (x, y) with decision value
/// d: eight symmetric points per step until x passes y.
pub open spec fn circle_walk(xc: int, yc: int, x: int, y: int, d: int) -> Seq<(int, int)>
    decreases (if x <= y {
        y + 1 - x
    } else {
        0
    }),
{
    if x > y {
        Seq::empty()
    } else {
        let nx = x + 1;
        let ny = if d < 0 {
            y
        } else {
            y - 1
        };
        let nd = if d < 0 {
            d + 2 * nx + 3
        } else {
            d + 2 * (nx - ny) + 5
        };
        eight(xc, yc, x, y) + circle_walk(xc, yc, nx, ny, nd)
    }
}

/// Exactly the points the midpoint circle algorithm plots for the given
/// center and radius.
pub open spec fn circle_points(xc: int, yc: int, r: int) -> Seq<(int, int)> {
    circle_walk(xc, yc, 0, r, 1 - r)
}

/// The eight points of one step are closed under the eight reflections: if
/// (xc + u, yc + v) is among them, so are all seven mirror images of the
/// offset (u, v).
proof fn lemma_eight_closed(xc: int, yc: int, x: int, y: int, u: int, v: int)
    requires
        eight(xc, yc, x, y).contains((xc + u, yc + v)),
    ensures
        eight(xc, yc, x, y).contains((xc - u, yc + v)),
        eight(xc, yc, x, y).contains((xc + u, yc - v)),
        eight(xc, yc, x, y).contains((xc - u, yc - v)),
        eight(xc, yc, x, y).contains((xc + v, yc + u)),
        eight(xc, yc, x, y).contains((xc - v, yc + u)),
        eight(xc, yc, x, y).contains((xc + v, yc - u)),
        eight(xc, yc, x, y).contains((xc - v, yc - u)),
{
    let g = eight(xc, yc, x, y);
    assert(g[0] == (xc + x, yc + y));
    assert(g[1] == (xc + y, yc + x));
    assert(g[2] == (xc - y, yc + x));
    assert(g[3] == (xc - x, yc + y));
    assert(g[4] == (xc - x, yc - y));
    assert(g[5] == (xc - y, yc - x));
    assert(g[6] == (xc + y, yc - x));
    assert(g[7] == (xc + x, yc - y));
    let i = choose|i: int| 0 <= i < g.len() && g[i] == (xc + u, yc + v);
}

/// Eightfold symmetry of the circle walk: every plotted offset from the
/// center is plotted in all eight reflections.
proof fn lemma_circle_walk_symmetric(xc: int, yc: int, x: int, y: int, d: int, u: int, v: int)
    requires
        circle_walk(xc, yc, x, y, d).contains((xc + u, yc + v)),
    ensures
        circle_walk(xc, yc, x, y, d).contains((xc - u, yc + v)),
        circle_walk(xc, yc, x, y, d).contains((xc + u, yc - v)),
        circle_walk(xc, yc, x, y, d).contains((xc - u, yc - v)),
        circle_walk(xc, yc, x, y, d).contains((xc + v, yc + u)),
        circle_walk(xc, yc, x, y, d).contains((xc - v, yc + u)),
        circle_walk(xc, yc, x, y, d).contains((xc + v, yc - u)),
        circle_walk(xc, yc, x, y, d).contains((xc - v, yc - u)),
    decreases (if x <= y {
        y + 1 - x
    } else {
        0
    }),
{
    let w = circle_walk(xc, yc, x, y, d);
    let g = eight(xc, yc, x, y);
    let nx = x + 1;
    let ny = if d < 0 {
        y
    } else {
        y - 1
    };
    let nd = if d < 0 {
        d + 2 * nx + 3
    } else {
        d + 2 * (nx - ny) + 5
    };
    let rest = circle_walk(xc, yc, nx, ny, nd);
    lemma_contains_split(g, rest, (xc + u, yc + v));
    if g.contains((xc + u, yc + v)) {
        lemma_eight_closed(xc, yc, x, y, u, v);
        lemma_concat_contains(g, rest, (xc - u, yc + v));
        lemma_concat_contains(g, rest, (xc + u, yc - v));
        lemma_concat_contains(g, rest, (xc - u, yc - v));
        lemma_concat_contains(g, rest, (xc + v, yc + u));
        lemma_concat_contains(g, rest, (xc - v, yc + u));
        lemma_concat_contains(g, rest, (xc + v, yc - u));
        lemma_concat_contains(g, rest, (xc - v, yc - u));
    } else {
        lemma_circle_walk_symmetric(xc, yc, nx, ny, nd, u, v);
        lemma_concat_contains(g, rest, (xc - u, yc + v));
        lemma_concat_contains(g, rest, (xc + u, yc - v));
        lemma_concat_contains(g, rest, (xc - u, yc - v));
        lemma_concat_contains(g, rest, (xc + v, yc + u));
        lemma_concat_contains(g, rest, (xc - v, yc + u));
        lemma_concat_contains(g, rest, (xc + v, yc - u));
        lemma_concat_contains(g, rest, (xc - v, yc - u));
    }
}

/// Eightfold circle symmetry: whenever the plotted circle contains the point
/// at offset (u, v) from its center, it contains the points at all seven
/// symmetric reflections of that offset as well.
pub proof fn lemma_circle_points_symmetric(xc: int, yc: int, r: int, u: int, v: int)
    requires
        circle_points(xc, yc, r).contains((xc + u, yc + v)),
    ensures
        circle_points(xc, yc, r).contains((xc - u, yc + v)),
        circle_points(xc, yc, r).contains((xc + u, yc - v)),
        circle_points(xc, yc, r).contains((xc - u, yc - v)),
        circle_points(xc, yc, r).contains((xc + v, yc + u)),
        circle_points(xc, yc, r).contains((xc - v, yc + u)),
        circle_points(xc, yc, r).contains((xc + v, yc - u)),
        circle_points(xc, yc, r).contains((xc - v, yc - u)),
{
    lemma_circle_walk_symmetric(xc, yc, 0, r, 1 - r, u, v);
}

/// The four symmetric points of one ellipse step, as offsets (x, y) from the
/// center, in plotting order.
pub open spec fn four(xc: int, yc: int, x: int, y: int) -> Seq<(int, int)> {
    seq![(xc + x, yc + y), (xc - x, yc + y), (xc + x, yc - y), (xc - x, yc - y)]
}

/// The iteration budget of the ellipse region walk: generous room for every
/// step the two-region midpoint algorithm can take.
pub open spec fn ellipse_fuel(wr: int, hr: int) -> nat {
    (4 * (vstd::math::abs(wr) + vstd::math::abs(hr)) + 8) as nat
}

/// One state of the midpoint ellipse walk, advanced by the decision terms:
/// x steps right while twice the error is at least dx, y steps down while it
/// is at most dy, and the walk stops once x passes zero or the budget runs
/// out.
pub open spec fn ellipse_walk(
    xc: int,
    yc: int,
    wr2: int,
    hr2: int,
    x: int,
    y: int,
    dx: int,
    dy: int,
    err: int,
    fuel: nat,
) -> Seq<(int, int)>
    decreases fuel,
{
    if x > 0 || fuel == 0 {
        Seq::empty()
    } else {
        let e2 = 2 * err;
        let sx = e2 >= dx;
        let sy = e2 <= dy;
        let nx = if sx {
            x + 1
        } else {
            x
        };
        let ndx = if sx {
            dx + 2 * hr2
        } else {
            dx
        };
        let err1 = if sx {
            err + ndx
        } else {
            err
        };
        let ny = if sy {
            y + 1
        } else {
            y
        };
        let ndy = if sy {
            dy + 2 * wr2
        } else {
            dy
        };
        let nerr = if sy {
            err1 + ndy
        } else {
            err1
        };
        four(xc, yc, x, y) + ellipse_walk(xc, yc, wr2, hr2, nx, ny, ndx, ndy, nerr, (fuel - 1) as nat)
    }
}

/// The y value the region walk ends with, from which the vertical cap of the
/// ellipse continues.
pub open spec fn ellipse_end_y(
    xc: int,
    yc: int,
    wr2: int,
    hr2: int,
    x: int,
    y: int,
    dx: int,
    dy: int,
    err: int,
    fuel: nat,
) -> int
    decreases fuel,
{
    if x > 0 || fuel == 0 {
        y
    } else {
        let e2 = 2 * err;
        let sx = e2 >= dx;
        let sy = e2 <= dy;
        let nx = if sx {
            x + 1
        } else {
            x
        };
        let ndx = if sx {
            dx + 2 * hr2
        } else {
            dx
        };
        let err1 = if sx {
            err + ndx
        } else {
            err
        };
        let ny = if sy {
            y + 1
        } else {
            y
        };
        let ndy = if sy {
            dy + 2 * wr2
        } else {
            dy
        };
        let nerr = if sy {
            err1 + ndy
        } else {
            err1
        };
        ellipse_end_y(xc, yc, wr2, hr2, nx, ny, ndx, ndy, nerr, (fuel - 1) as nat)
    }
}

/// The vertical cap of the stroked ellipse: the pairs of points plotted
/// straight above and below the center while y climbs to the height radius.
pub open spec fn cap_points(xc: int, yc: int, y: int, hr: int) -> Seq<(int, int)>
    decreases hr - y,
{
    if y >= hr {
        Seq::empty()
    } else {
        seq![(xc, yc + (y + 1)), (xc, yc - (y + 1))] + cap_points(xc, yc, y + 1, hr)
    }
}

/// The points the two-region midpoint ellipse algorithm plots for distinct
/// radii: the region walk from x = -wr, then the vertical cap.
pub open spec fn ellipse_only_points(xc: int, yc: int, wr: int, hr: int) -> Seq<(int, int)> {
    let wr2 = wr * wr;
    let hr2 = hr * hr;
    let dx0 = (1 + 2 * (-wr)) * hr2;
    let dy0 = wr * wr;
    let err0 = dx0 + dy0;
    let fuel = ellipse_fuel(wr, hr);
    ellipse_walk(xc, yc, wr2, hr2, -wr, 0, dx0, dy0, err0, fuel) + cap_points(
        xc,
        yc,
        ellipse_end_y(xc, yc, wr2, hr2, -wr, 0, dx0, dy0, err0, fuel),
        hr,
    )
}

/// Exactly the points drawing the ellipse plots: the eightfold-symmetric
/// circle walk when the radii agree, the two-region ellipse walk otherwise.
pub open spec fn ellipse2d_points(xc: int, yc: int, wr: int, hr: int) -> Seq<(int, int)> {
    if wr == hr {
        circle_points(xc, yc, wr)
    } else {
        ellipse_only_points(xc, yc, wr, hr)
    }
}

/// Draws the circle with the midpoint algorithm, eight symmetric points per
/// step, painted over the old buffer and clipped to the canvas.
fn draw_circle(xc: i32, yc: i32, radius: i32, canvas: &mut Canvas, color: &Color)
    requires
        old(canvas).wf(),
        ellipse_args_ok(xc as int, yc as int, radius as int, radius as int),
    ensures
        final(canvas).wf(),
        final(canvas).spec_width() == old(canvas).spec_width(),
        final(canvas).spec_height() == old(canvas).spec_height(),
        final(canvas).buf() == paint(
            old(canvas).buf(),
            old(canvas).spec_width(),
            old(canvas).spec_height(),
            circle_points(xc as int, yc as int, radius as int),
            *color,
        ),
{
    let ghost buf0 = old(canvas).buf();
    let ghost w = old(canvas).spec_width();
    let ghost h = old(canvas).spec_height();
    let ghost full = circle_points(xc as int, yc as int, radius as int);
    let cx: i64 = xc as i64;
    let cy: i64 = yc as i64;
    let r: i64 = radius as i64;
    let mut x: i64 = 0;
    let mut y: i64 = r;
    let mut d: i64 = 1 - r;
    while x <= y
        invariant
            canvas.wf(),
            canvas.spec_width() == w,
            canvas.spec_height() == h,
            cx == xc as int,
            cy == yc as int,
            r == radius as int,
            ellipse_args_ok(cx as int, cy as int, r as int, r as int),
            0 <= x,
            y <= r,
            r >= 0 ==> -(r + 1) - x * (2 * r + 9) <= d <= (r + 1) + x * (2 * r + 9),
            paint(canvas.buf(), w, h, circle_walk(cx as int, cy as int, x as int, y as int, d as int), *color)
                == paint(buf0, w, h, full, *color),
        decreases y + 2 - x,
    {
        let ghost g = eight(cx as int, cy as int, x as int, y as int);
        let ghost nx_s: int = x + 1;
        let ghost ny_s: int = if d < 0 {
            y as int
        } else {
            y - 1
        };
        let ghost nd_s: int = if d < 0 {
            d + 2 * nx_s + 3
        } else {
            d + 2 * (nx_s - ny_s) + 5
        };
        let ghost rem = circle_walk(cx as int, cy as int, x as int, y as int, d as int);
        let ghost rest = circle_walk(cx as int, cy as int, nx_s, ny_s, nd_s);
        proof {
            assert(rem == g + rest);
            assert(rem.skip(0) =~= rem);
        }
        let ghost b0 = canvas.buf();
        canvas.draw_point((cx + x) as i32, (cy + y) as i32, color);
        proof {
            assert(rem.skip(0)[0] == rem[0]);
            assert(rem[0] == g[0]);
            lemma_paint_cons(b0, w, h, rem.skip(0), *color);
            assert(rem.skip(0).drop_first() =~= rem.skip(1));
        }
        let ghost b1 = canvas.buf();
        canvas.draw_point((cx + y) as i32, (cy + x) as i32, color);
        proof {
            assert(rem.skip(1)[0] == rem[1]);
            assert(rem[1] == g[1]);
            lemma_paint_cons(b1, w, h, rem.skip(1), *color);
            assert(rem.skip(1).drop_first() =~= rem.skip(2));
        }
        let ghost b2 = canvas.buf();
        canvas.draw_point((cx - y) as i32, (cy + x) as i32, color);
        proof {
            assert(rem.skip(2)[0] == rem[2]);
            assert(rem[2] == g[2]);
            lemma_paint_cons(b2, w, h, rem.skip(2), *color);
            assert(rem.skip(2).drop_first() =~= rem.skip(3));
        }
        let ghost b3 = canvas.buf();
        canvas.draw_point((cx - x) as i32, (cy + y) as i32, color);
        proof {
            assert(rem.skip(3)[0] == rem[3]);
            assert(rem[3] == g[3]);
            lemma_paint_cons(b3, w, h, rem.skip(3), *color);
            assert(rem.skip(3).drop_first() =~= rem.skip(4));
        }
        let ghost b4 = canvas.buf();
        canvas.draw_point((cx - x) as i32, (cy - y) as i32, color);
        proof {
            assert(rem.skip(4)[0] == rem[4]);
            assert(rem[4] == g[4]);
            lemma_paint_cons(b4, w, h, rem.skip(4), *color);
            assert(rem.skip(4).drop_first() =~= rem.skip(5));
        }
        let ghost b5 = canvas.buf();
        canvas.draw_point((cx - y) as i32, (cy - x) as i32, color);
        proof {
            assert(rem.skip(5)[0] == rem[5]);
            assert(rem[5] == g[5]);
            lemma_paint_cons(b5, w, h, rem.skip(5), *color);
            assert(rem.skip(5).drop_first() =~= rem.skip(6));
        }
        let ghost b6 = canvas.buf();
        canvas.draw_point((cx + y) as i32, (cy - x) as i32, color);
        proof {
            assert(rem.skip(6)[0] == rem[6]);
            assert(rem[6] == g[6]);
            lemma_paint_cons(b6, w, h, rem.skip(6), *color);
            assert(rem.skip(6).drop_first() =~= rem.skip(7));
        }
        let ghost b7 = canvas.buf();
        canvas.draw_point((cx + x) as i32, (cy - y) as i32, color);
        proof {
            assert(rem.skip(7)[0] == rem[7]);
            assert(rem[7] == g[7]);
            lemma_paint_cons(b7, w, h, rem.skip(7), *color);
            assert(rem.skip(7).drop_first() =~= rem.skip(8));
            assert(rem.skip(8) =~= rest);
        }
        let ghost xo: int = x as int;
        let ghost dold: int = d as int;
        proof {
            assert(0 <= xo * (2 * r + 9) <= 10_000 * 20_009) by (nonlinear_arith)
                requires
                    0 <= xo <= 10_000,
                    0 <= 2 * r + 9 <= 20_009,
            ;
        }
        x = x + 1;
        if d < 0 {
            d = d + 2 * x + 3;
        } else {
            y = y - 1;
            d = d + 2 * (x - y) + 5;
        }
        proof {
            assert(-(r + 1) - x * (2 * r + 9) <= d <= (r + 1) + x * (2 * r + 9))
                by (nonlinear_arith)
                requires
                    x as int == xo + 1,
                    -(r + 1) - xo * (2 * r + 9) <= dold <= (r + 1) + xo * (2 * r + 9),
                    -(2 * r + 9) <= d - dold <= 2 * r + 9,
                    0 <= xo,
                    0 <= r,
            ;
        }
    }
    proof {
        assert(circle_walk(cx as int, cy as int, x as int, y as int, d as int).len() == 0);
        assert(paint(
            canvas.buf(),
            w,
            h,
            circle_walk(cx as int, cy as int, x as int, y as int, d as int),
            *color,
        ) == canvas.buf());
    }
}

/// Draws the ellipse: the midpoint circle algorithm for equal radii, the
/// two-region midpoint ellipse algorithm otherwise, painting exactly the
/// points of `ellipse2d_points` over the old buffer, clipped to the canvas.
pub fn draw_ellipse2d(
    xc: i32,
    yc: i32,
    width_radius: i32,
    height_radius: i32,
    canvas: &mut Canvas,
    color: &Color,
)
    requires
        old(canvas).wf(),
        ellipse_args_ok(xc as int, yc as int, width_radius as int, height_radius as int),
    ensures
        final(canvas).wf(),
        final(canvas).spec_width() == old(canvas).spec_width(),
        final(canvas).spec_height() == old(canvas).spec_height(),
        final(canvas).buf() == paint(
            old(canvas).buf(),
            old(canvas).spec_width(),
            old(canvas).spec_height(),
            ellipse2d_points(xc as int, yc as int, width_radius as int, height_radius as int),
            *color,
        ),
{
    if width_radius == height_radius {
        draw_circle(xc, yc, width_radius, canvas, color);
        return;
    }
    let ghost buf0 = old(canvas).buf();
    let ghost w = old(canvas).spec_width();
    let ghost h = old(canvas).spec_height();
    let ghost full = ellipse_only_points(
        xc as int,
        yc as int,
        width_radius as int,
        height_radius as int,
    );
    let cx: i64 = xc as i64;
    let cy: i64 = yc as i64;
    let wr: i64 = width_radius as i64;
    let hr: i64 = height_radius as i64;
    let wa: i64 = if wr < 0 {
        -wr
    } else {
        wr
    };
    let ha: i64 = if hr < 0 {
        -hr
    } else {
        hr
    };
    proof {
        assert(0 <= wr * wr <= 100_000_000 && 0 <= hr * hr <= 100_000_000) by (nonlinear_arith)
            requires
                -10_000 <= wr <= 10_000,
                -10_000 <= hr <= 10_000,
        ;
    }
    let wr2: i64 = wr * wr;
    let hr2: i64 = hr * hr;
    let mut x: i64 = -wr;
    let mut y: i64 = 0;
    proof {
        assert(-2_100_000_000_000 <= (1 + 2 * x) * hr2 <= 2_100_000_000_000) by (nonlinear_arith)
            requires
                -20_001 <= 1 + 2 * x <= 20_001,
                0 <= hr2 <= 100_000_000,
        ;
    }
    let mut dx: i64 = (1 + 2 * x) * hr2;
    proof {
        assert(0 <= (x as int) * (x as int) <= 100_000_000) by (nonlinear_arith)
            requires
                -10_000 <= x <= 10_000,
        ;
    }
    let mut dy: i64 = wr2;
    let mut err: i64 = dx + dy;
    let fuel_max: i64 = 4 * (wa + ha) + 8;
    let mut fuel: i64 = fuel_max;
    let ghost ye = ellipse_end_y(
        cx as int,
        cy as int,
        wr2 as int,
        hr2 as int,
        x as int,
        y as int,
        dx as int,
        dy as int,
        err as int,
        fuel as nat,
    );
    let ghost walk0 = ellipse_walk(
        cx as int,
        cy as int,
        wr2 as int,
        hr2 as int,
        x as int,
        y as int,
        dx as int,
        dy as int,
        err as int,
        fuel as nat,
    );
    proof {
        assert(fuel as nat == ellipse_fuel(width_radius as int, height_radius as int));
        assert(full == walk0 + cap_points(cx as int, cy as int, ye, hr as int));
        lemma_paint_concat(
            buf0,
            w,
            h,
            walk0,
            cap_points(cx as int, cy as int, ye, hr as int),
            *color,
        );
    }
    let ghost walk_target = paint(buf0, w, h, walk0, *color);
    while x <= 0 && fuel > 0
        invariant
            canvas.wf(),
            canvas.spec_width() == w,
            canvas.spec_height() == h,
            -1_000_000_000 <= cx <= 1_000_000_000,
            -1_000_000_000 <= cy <= 1_000_000_000,
            -10_000 <= wr <= 10_000,
            -10_000 <= hr <= 10_000,
            0 <= wa <= 10_000,
            0 <= wr2 <= 100_000_000,
            0 <= hr2 <= 100_000_000,
            fuel_max == 4 * (wa + ha) + 8,
            8 <= fuel_max <= 80_008,
            0 <= fuel <= fuel_max,
            -wa <= x <= wa + 1,
            0 <= y <= fuel_max - fuel,
            -3_000_000_000_000 - (fuel_max - fuel) * 200_000_000 <= dx <= 3_000_000_000_000 + (
            fuel_max - fuel) * 200_000_000,
            0 <= dy <= 100_000_000 + (fuel_max - fuel) * 200_000_000,
            -4_000_000_000_000 - (fuel_max - fuel) * 41_000_000_000_000 <= err
                <= 4_000_000_000_000 + (fuel_max - fuel) * 41_000_000_000_000,
            ellipse_end_y(
                cx as int,
                cy as int,
                wr2 as int,
                hr2 as int,
                x as int,
                y as int,
                dx as int,
                dy as int,
                err as int,
                fuel as nat,
            ) == ye,
            paint(
                canvas.buf(),
                w,
                h,
                ellipse_walk(
                    cx as int,
                    cy as int,
                    wr2 as int,
                    hr2 as int,
                    x as int,
                    y as int,
                    dx as int,
                    dy as int,
                    err as int,
                    fuel as nat,
                ),
                *color,
            ) == walk_target,
        decreases fuel,
    {
        let ghost g = four(cx as int, cy as int, x as int, y as int);
        let ghost rem = ellipse_walk(
            cx as int,
            cy as int,
            wr2 as int,
            hr2 as int,
            x as int,
            y as int,
            dx as int,
            dy as int,
            err as int,
            fuel as nat,
        );
        proof {
            assert(rem.skip(0) =~= rem);
        }
        let ghost b0 = canvas.buf();
        canvas.draw_point((cx + x) as i32, (cy + y) as i32, color);
        proof {
            assert(rem.skip(0)[0] == rem[0]);
            assert(rem[0] == g[0]);
            lemma_paint_cons(b0, w, h, rem.skip(0), *color);
            assert(rem.skip(0).drop_first() =~= rem.skip(1));
        }
        let ghost b1 = canvas.buf();
        canvas.draw_point((cx - x) as i32, (cy + y) as i32, color);
        proof {
            assert(rem.skip(1)[0] == rem[1]);
            assert(rem[1] == g[1]);
            lemma_paint_cons(b1, w, h, rem.skip(1), *color);
            assert(rem.skip(1).drop_first() =~= rem.skip(2));
        }
        let ghost b2 = canvas.buf();
        canvas.draw_point((cx + x) as i32, (cy - y) as i32, color);
        proof {
            assert(rem.skip(2)[0] == rem[2]);
            assert(rem[2] == g[2]);
            lemma_paint_cons(b2, w, h, rem.skip(2), *color);
            assert(rem.skip(2).drop_first() =~= rem.skip(3));
        }
        let ghost b3 = canvas.buf();
        canvas.draw_point((cx - x) as i32, (cy - y) as i32, color);
        proof {
            assert(rem.skip(3)[0] == rem[3]);
            assert(rem[3] == g[3]);
            lemma_paint_cons(b3, w, h, rem.skip(3), *color);
            assert(rem.skip(3).drop_first() =~= rem.skip(4));
        }
        let e2: i64 = 2 * err;
        let sx = e2 >= dx;
        let sy = e2 <= dy;
        proof {
            assert(rem.skip(4) =~= ellipse_walk(
                cx as int,
                cy as int,
                wr2 as int,
                hr2 as int,
                if sx {
                    x + 1
                } else {
                    x as int
                },
                if sy {
                    y + 1
                } else {
                    y as int
                },
                if sx {
                    dx + 2 * hr2
                } else {
                    dx as int
                },
                if sy {
                    dy + 2 * wr2
                } else {
                    dy as int
                },
                (if sy {
                    (if sx {
                        err + (dx + 2 * hr2)
                    } else {
                        err as int
                    }) + (dy + 2 * wr2)
                } else {
                    (if sx {
                        err + (dx + 2 * hr2)
                    } else {
                        err as int
                    })
                }),
                (fuel - 1) as nat,
            ));
        }
        if sx {
            x = x + 1;
            dx = dx + 2 * hr2;
            err = err + dx;
        }
        if sy {
            y = y + 1;
            dy = dy + 2 * wr2;
            err = err + dy;
        }
        fuel = fuel - 1;
    }
    proof {
        assert(ellipse_walk(
            cx as int,
            cy as int,
            wr2 as int,
            hr2 as int,
            x as int,
            y as int,
            dx as int,
            dy as int,
            err as int,
            fuel as nat,
        ).len() == 0);
        assert(canvas.buf() == walk_target);
        assert(ye == y as int);
        assert(cap_points(cx as int, cy as int, y as int, hr as int).len() >= 0);
    }
    let ghost cap_full = cap_points(cx as int, cy as int, ye, hr as int);
    let ghost final_target = paint(walk_target, w, h, cap_full, *color);
    while y < hr
        invariant
            canvas.wf(),
            canvas.spec_width() == w,
            canvas.spec_height() == h,
            -1_000_000_000 <= cx <= 1_000_000_000,
            -1_000_000_000 <= cy <= 1_000_000_000,
            -10_000 <= hr <= 10_000,
            -90_000 <= y <= 90_000,
            paint(canvas.buf(), w, h, cap_points(cx as int, cy as int, y as int, hr as int), *color)
                == final_target,
        decreases hr - y,
    {
        let ghost rem = cap_points(cx as int, cy as int, y as int, hr as int);
        proof {
            assert(rem.skip(0) =~= rem);
        }
        y = y + 1;
        let ghost b0 = canvas.buf();
        canvas.draw_point(cx as i32, (cy + y) as i32, color);
        proof {
            assert(rem.skip(0)[0] == rem[0]);
            assert(rem[0] == (cx as int, cy + y));
            lemma_paint_cons(b0, w, h, rem.skip(0), *color);
            assert(rem.skip(0).drop_first() =~= rem.skip(1));
        }
        let ghost b1 = canvas.buf();
        canvas.draw_point(cx as i32, (cy - y) as i32, color);
        proof {
            assert(rem.skip(1)[0] == rem[1]);
            assert(rem[1] == (cx as int, cy - y));
            lemma_paint_cons(b1, w, h, rem.skip(1), *color);
            assert(rem.skip(1).drop_first() =~= rem.skip(2));
            assert(rem.skip(2) =~= cap_points(cx as int, cy as int, y as int, hr as int));
        }
    }
    proof {
        assert(cap_points(cx as int, cy as int, y as int, hr as int).len() == 0);
        assert(canvas.buf() == final_target);
        assert(final_target == paint(buf0, w, h, full, *color));
    }
}

/// The four horizontal spans of one filled circle step: the lines joining
/// each symmetric point pair that shares a row.
pub open spec fn eight_spans(xc: int, yc: int, x: int, y: int) -> Seq<(int, int)> {
    line_points(xc + x, yc + y, xc - x, yc + y) + line_points(xc + y, yc + x, xc - y, yc + x)
        + line_points(xc + y, yc - x, xc - y, yc - x) + line_points(xc + x, yc - y, xc - x, yc - y)
}

/// The filled midpoint circle walk: the same stepping as `circle_walk`, with
/// the point plots replaced by the four spans.
pub open spec fn circle_fill_walk(xc: int, yc: int, x: int, y: int, d: int) -> Seq<(int, int)>
    decreases (if x <= y {
        y + 1 - x
    } else {
        0
    }),
{
    if x > y {
        Seq::empty()
    } else {
        let nx = x + 1;
        let ny = if d < 0 {
            y
        } else {
            y - 1
        };
        let nd = if d < 0 {
            d + 2 * nx + 3
        } else {
            d + 2 * (nx - ny) + 5
        };
        eight_spans(xc, yc, x, y) + circle_fill_walk(xc, yc, nx, ny, nd)
    }
}

/// Exactly the points filling the circle paints.
pub open spec fn circle_fill_points(xc: int, yc: int, r: int) -> Seq<(int, int)> {
    circle_fill_walk(xc, yc, 0, r, 1 - r)
}

/// The two horizontal spans of one filled ellipse step.
pub open spec fn two_spans(xc: int, yc: int, x: int, y: int) -> Seq<(int, int)> {
    line_points(xc + x, yc + y, xc - x, yc + y) + line_points(xc + x, yc - y, xc - x, yc - y)
}

/// The filled ellipse region walk: the same stepping as `ellipse_walk`, with
/// the point plots replaced by the two spans.
pub open spec fn ellipse_fill_walk(
    xc: int,
    yc: int,
    wr2: int,
    hr2: int,
    x: int,
    y: int,
    dx: int,
    dy: int,
    err: int,
    fuel: nat,
) -> Seq<(int, int)>
    decreases fuel,
{
    if x > 0 || fuel == 0 {
        Seq::empty()
    } else {
        let e2 = 2 * err;
        let sx = e2 >= dx;
        let sy = e2 <= dy;
        let nx = if sx {
            x + 1
        } else {
            x
        };
        let ndx = if sx {
            dx + 2 * hr2
        } else {
            dx
        };
        let err1 = if sx {
            err + ndx
        } else {
            err
        };
        let ny = if sy {
            y + 1
        } else {
            y
        };
        let ndy = if sy {
            dy + 2 * wr2
        } else {
            dy
        };
        let nerr = if sy {
            err1 + ndy
        } else {
            err1
        };
        two_spans(xc, yc, x, y) + ellipse_fill_walk(
            xc,
            yc,
            wr2,
            hr2,
            nx,
            ny,
            ndx,
            ndy,
            nerr,
            (fuel - 1) as nat,
        )
    }
}

/// The vertical spans that fill the ellipse's cap, one centered column span
/// per row while y climbs to one below the height radius.
pub open spec fn cap_spans(xc: int, yc: int, y: int, hr: int) -> Seq<(int, int)>
    decreases hr - 1 - y,
{
    if y >= hr - 1 {
        Seq::empty()
    } else {
        line_points(xc, yc - (y + 1), xc, yc + (y + 1)) + cap_spans(xc, yc, y + 1, hr)
    }
}

/// The points filling the ellipse with distinct radii paints: the span walk,
/// then the cap spans.
pub open spec fn ellipse_fill_only_points(xc: int, yc: int, wr: int, hr: int) -> Seq<(int, int)> {
    let wr2 = wr * wr;
    let hr2 = hr * hr;
    let dx0 = (1 + 2 * (-wr)) * hr2;
    let dy0 = wr * wr;
    let err0 = dx0 + dy0;
    let fuel = ellipse_fuel(wr, hr);
    ellipse_fill_walk(xc, yc, wr2, hr2, -wr, 0, dx0, dy0, err0, fuel) + cap_spans(
        xc,
        yc,
        ellipse_end_y(xc, yc, wr2, hr2, -wr, 0, dx0, dy0, err0, fuel),
        hr,
    )
}

/// Exactly the points filling the ellipse paints: the filled circle walk
/// when the radii agree, the filled two-region walk otherwise.
pub open spec fn ellipse2d_fill_points(xc: int, yc: int, wr: int, hr: int) -> Seq<(int, int)> {
    if wr == hr {
        circle_fill_points(xc, yc, wr)
    } else {
        ellipse_fill_only_points(xc, yc, wr, hr)
    }
}

/// Fills the circle: the midpoint walk with a horizontal span drawn between
/// each symmetric point pair, painted over the old buffer and clipped to the
/// canvas.
fn draw_circle_filled(xc: i32, yc: i32, radius: i32, canvas: &mut Canvas, color: &Color)
    requires
        old(canvas).wf(),
        ellipse_args_ok(xc as int, yc as int, radius as int, radius as int),
    ensures
        final(canvas).wf(),
        final(canvas).spec_width() == old(canvas).spec_width(),
        final(canvas).spec_height() == old(canvas).spec_height(),
        final(canvas).buf() == paint(
            old(canvas).buf(),
            old(canvas).spec_width(),
            old(canvas).spec_height(),
            circle_fill_points(xc as int, yc as int, radius as int),
            *color,
        ),
{
    let ghost buf0 = old(canvas).buf();
    let ghost w = old(canvas).spec_width();
    let ghost h = old(canvas).spec_height();
    let ghost full = circle_fill_points(xc as int, yc as int, radius as int);
    let cx: i64 = xc as i64;
    let cy: i64 = yc as i64;
    let r: i64 = radius as i64;
    let mut x: i64 = 0;
    let mut y: i64 = r;
    let mut d: i64 = 1 - r;
    while x <= y
        invariant
            canvas.wf(),
            canvas.spec_width() == w,
            canvas.spec_height() == h,
            cx == xc as int,
            cy == yc as int,
            r == radius as int,
            ellipse_args_ok(cx as int, cy as int, r as int, r as int),
            0 <= x,
            y <= r,
            r >= 0 ==> -(r + 1) - x * (2 * r + 9) <= d <= (r + 1) + x * (2 * r + 9),
            paint(
                canvas.buf(),
                w,
                h,
                circle_fill_walk(cx as int, cy as int, x as int, y as int, d as int),
                *color,
            ) == paint(buf0, w, h, full, *color),
        decreases y + 2 - x,
    {
        let ghost l1 = line_points(cx + x, cy + y, cx - x, cy + y);
        let ghost l2 = line_points(cx + y, cy + x, cx - y, cy + x);
        let ghost l3 = line_points(cx + y, cy - x, cx - y, cy - x);
        let ghost l4 = line_points(cx + x, cy - y, cx - x, cy - y);
        let ghost g = eight_spans(cx as int, cy as int, x as int, y as int);
        let ghost nx_s: int = x + 1;
        let ghost ny_s: int = if d < 0 {
            y as int
        } else {
            y - 1
        };
        let ghost nd_s: int = if d < 0 {
            d + 2 * nx_s + 3
        } else {
            d + 2 * (nx_s - ny_s) + 5
        };
        let ghost rest = circle_fill_walk(cx as int, cy as int, nx_s, ny_s, nd_s);
        let ghost b0 = canvas.buf();
        proof {
            assert(circle_fill_walk(cx as int, cy as int, x as int, y as int, d as int) == g
                + rest);
            lemma_paint_concat(b0, w, h, g, rest, *color);
            lemma_paint_concat(b0, w, h, l1, l2, *color);
            lemma_paint_concat(b0, w, h, l1 + l2, l3, *color);
            lemma_paint_concat(b0, w, h, l1 + l2 + l3, l4, *color);
        }
        draw_line2d((cx + x) as i32, (cy + y) as i32, (cx - x) as i32, (cy + y) as i32, canvas, color);
        draw_line2d((cx + y) as i32, (cy + x) as i32, (cx - y) as i32, (cy + x) as i32, canvas, color);
        draw_line2d((cx + y) as i32, (cy - x) as i32, (cx - y) as i32, (cy - x) as i32, canvas, color);
        draw_line2d((cx + x) as i32, (cy - y) as i32, (cx - x) as i32, (cy - y) as i32, canvas, color);
        proof {
            assert(canvas.buf() == paint(b0, w, h, g, *color));
        }
        let ghost xo: int = x as int;
        let ghost dold: int = d as int;
        proof {
            assert(0 <= xo * (2 * r + 9) <= 10_000 * 20_009) by (nonlinear_arith)
                requires
                    0 <= xo <= 10_000,
                    0 <= 2 * r + 9 <= 20_009,
            ;
        }
        x = x + 1;
        if d < 0 {
            d = d + 2 * x + 3;
        } else {
            y = y - 1;
            d = d + 2 * (x - y) + 5;
        }
        proof {
            assert(-(r + 1) - x * (2 * r + 9) <= d <= (r + 1) + x * (2 * r + 9))
                by (nonlinear_arith)
                requires
                    x as int == xo + 1,
                    -(r + 1) - xo * (2 * r + 9) <= dold <= (r + 1) + xo * (2 * r + 9),
                    -(2 * r + 9) <= d - dold <= 2 * r + 9,
                    0 <= xo,
                    0 <= r,
            ;
        }
    }
    proof {
        assert(circle_fill_walk(cx as int, cy as int, x as int, y as int, d as int).len() == 0);
        assert(paint(
            canvas.buf(),
            w,
            h,
            circle_fill_walk(cx as int, cy as int, x as int, y as int, d as int),
            *color,
        ) == canvas.buf());
    }
}

/// Fills the ellipse: the midpoint circle walk with spans for equal radii,
/// the two-region walk with spans otherwise, painting exactly the points of
/// `ellipse2d_fill_points` over the old buffer, clipped to the canvas.
pub fn draw_ellipse2d_filled(
    xc: i32,
    yc: i32,
    width_radius: i32,
    height_radius: i32,
    canvas: &mut Canvas,
    color: &Color,
)
    requires
        old(canvas).wf(),
        ellipse_args_ok(xc as int, yc as int, width_radius as int, height_radius as int),
    ensures
        final(canvas).wf(),
        final(canvas).spec_width() == old(canvas).spec_width(),
        final(canvas).spec_height() == old(canvas).spec_height(),
        final(canvas).buf() == paint(
            old(canvas).buf(),
            old(canvas).spec_width(),
            old(canvas).spec_height(),
            ellipse2d_fill_points(xc as int, yc as int, width_radius as int, height_radius as int),
            *color,
        ),
{
    if width_radius == height_radius {
        draw_circle_filled(xc, yc, width_radius, canvas, color);
        return;
    }
    let ghost buf0 = old(canvas).buf();
    let ghost w = old(canvas).spec_width();
    let ghost h = old(canvas).spec_height();
    let ghost full = ellipse_fill_only_points(
        xc as int,
        yc as int,
        width_radius as int,
        height_radius as int,
    );
    let cx: i64 = xc as i64;
    let cy: i64 = yc as i64;
    let wr: i64 = width_radius as i64;
    let hr: i64 = height_radius as i64;
    let wa: i64 = if wr < 0 {
        -wr
    } else {
        wr
    };
    let ha: i64 = if hr < 0 {
        -hr
    } else {
        hr
    };
    proof {
        assert(0 <= wr * wr <= 100_000_000 && 0 <= hr * hr <= 100_000_000) by (nonlinear_arith)
            requires
                -10_000 <= wr <= 10_000,
                -10_000 <= hr <= 10_000,
        ;
    }
    let wr2: i64 = wr * wr;
    let hr2: i64 = hr * hr;
    let mut x: i64 = -wr;
    let mut y: i64 = 0;
    proof {
        assert(-2_100_000_000_000 <= (1 + 2 * x) * hr2 <= 2_100_000_000_000) by (nonlinear_arith)
            requires
                -20_001 <= 1 + 2 * x <= 20_001,
                0 <= hr2 <= 100_000_000,
        ;
    }
    let mut dx: i64 = (1 + 2 * x) * hr2;
    let mut dy: i64 = wr2;
    let mut err: i64 = dx + dy;
    let fuel_max: i64 = 4 * (wa + ha) + 8;
    let mut fuel: i64 = fuel_max;
    let ghost ye = ellipse_end_y(
        cx as int,
        cy as int,
        wr2 as int,
        hr2 as int,
        x as int,
        y as int,
        dx as int,
        dy as int,
        err as int,
        fuel as nat,
    );
    let ghost walk0 = ellipse_fill_walk(
        cx as int,
        cy as int,
        wr2 as int,
        hr2 as int,
        x as int,
        y as int,
        dx as int,
        dy as int,
        err as int,
        fuel as nat,
    );
    proof {
        assert(fuel as nat == ellipse_fuel(width_radius as int, height_radius as int));
        assert(full == walk0 + cap_spans(cx as int, cy as int, ye, hr as int));
        lemma_paint_concat(buf0, w, h, walk0, cap_spans(cx as int, cy as int, ye, hr as int), *color);
    }
    let ghost walk_target = paint(buf0, w, h, walk0, *color);
    while x <= 0 && fuel > 0
        invariant
            canvas.wf(),
            canvas.spec_width() == w,
            canvas.spec_height() == h,
            -1_000_000_000 <= cx <= 1_000_000_000,
            -1_000_000_000 <= cy <= 1_000_000_000,
            -10_000 <= wr <= 10_000,
            -10_000 <= hr <= 10_000,
            0 <= wa <= 10_000,
            0 <= wr2 <= 100_000_000,
            0 <= hr2 <= 100_000_000,
            fuel_max == 4 * (wa + ha) + 8,
            8 <= fuel_max <= 80_008,
            0 <= fuel <= fuel_max,
            -wa <= x <= wa + 1,
            0 <= y <= fuel_max - fuel,
            -3_000_000_000_000 - (fuel_max - fuel) * 200_000_000 <= dx <= 3_000_000_000_000 + (
            fuel_max - fuel) * 200_000_000,
            0 <= dy <= 100_000_000 + (fuel_max - fuel) * 200_000_000,
            -4_000_000_000_000 - (fuel_max - fuel) * 41_000_000_000_000 <= err
                <= 4_000_000_000_000 + (fuel_max - fuel) * 41_000_000_000_000,
            ellipse_end_y(
                cx as int,
                cy as int,
                wr2 as int,
                hr2 as int,
                x as int,
                y as int,
                dx as int,
                dy as int,
                err as int,
                fuel as nat,
            ) == ye,
            paint(
                canvas.buf(),
                w,
                h,
                ellipse_fill_walk(
                    cx as int,
                    cy as int,
                    wr2 as int,
                    hr2 as int,
                    x as int,
                    y as int,
                    dx as int,
                    dy as int,
                    err as int,
                    fuel as nat,
                ),
                *color,
            ) == walk_target,
        decreases fuel,
    {
        let ghost l1 = line_points(cx + x, cy + y, cx - x, cy + y);
        let ghost l2 = line_points(cx + x, cy - y, cx - x, cy - y);
        let ghost g = two_spans(cx as int, cy as int, x as int, y as int);
        let e2: i64 = 2 * err;
        let sx = e2 >= dx;
        let sy = e2 <= dy;
        let ghost rest = ellipse_fill_walk(
            cx as int,
            cy as int,
            wr2 as int,
            hr2 as int,
            if sx {
                x + 1
            } else {
                x as int
            },
            if sy {
                y + 1
            } else {
                y as int
            },
            if sx {
                dx + 2 * hr2
            } else {
                dx as int
            },
            if sy {
                dy + 2 * wr2
            } else {
                dy as int
            },
            (if sy {
                (if sx {
                    err + (dx + 2 * hr2)
                } else {
                    err as int
                }) + (dy + 2 * wr2)
            } else {
                (if sx {
                    err + (dx + 2 * hr2)
                } else {
                    err as int
                })
            }),
            (fuel - 1) as nat,
        );
        let ghost b0 = canvas.buf();
        proof {
            assert(ellipse_fill_walk(
                cx as int,
                cy as int,
                wr2 as int,
                hr2 as int,
                x as int,
                y as int,
                dx as int,
                dy as int,
                err as int,
                fuel as nat,
            ) == g + rest);
            lemma_paint_concat(b0, w, h, g, rest, *color);
            lemma_paint_concat(b0, w, h, l1, l2, *color);
        }
        draw_line2d((cx + x) as i32, (cy + y) as i32, (cx - x) as i32, (cy + y) as i32, canvas, color);
        draw_line2d((cx + x) as i32, (cy - y) as i32, (cx - x) as i32, (cy - y) as i32, canvas, color);
        proof {
            assert(canvas.buf() == paint(b0, w, h, g, *color));
        }
        if sx {
            x = x + 1;
            dx = dx + 2 * hr2;
            err = err + dx;
        }
        if sy {
            y = y + 1;
            dy = dy + 2 * wr2;
            err = err + dy;
        }
        fuel = fuel - 1;
    }
    proof {
        assert(ellipse_fill_walk(
            cx as int,
            cy as int,
            wr2 as int,
            hr2 as int,
            x as int,
            y as int,
            dx as int,
            dy as int,
            err as int,
            fuel as nat,
        ).len() == 0);
        assert(canvas.buf() == walk_target);
        assert(ye == y as int);
    }
    let ghost cap_full = cap_spans(cx as int, cy as int, ye, hr as int);
    let ghost final_target = paint(walk_target, w, h, cap_full, *color);
    while y < hr - 1
        invariant
            canvas.wf(),
            canvas.spec_width() == w,
            canvas.spec_height() == h,
            -1_000_000_000 <= cx <= 1_000_000_000,
            -1_000_000_000 <= cy <= 1_000_000_000,
            -10_000 <= hr <= 10_000,
            -90_000 <= y <= 90_000,
            paint(canvas.buf(), w, h, cap_spans(cx as int, cy as int, y as int, hr as int), *color)
                == final_target,
        decreases hr - y,
    {
        let ghost rem = cap_spans(cx as int, cy as int, y as int, hr as int);
        let ghost lv = line_points(cx as int, cy - (y + 1), cx as int, cy + (y + 1));
        let ghost rest = cap_spans(cx as int, cy as int, y + 1, hr as int);
        let ghost b0 = canvas.buf();
        proof {
            assert(rem == lv + rest);
            lemma_paint_concat(b0, w, h, lv, rest, *color);
        }
        y = y + 1;
        draw_line2d(cx as i32, (cy - y) as i32, cx as i32, (cy + y) as i32, canvas, color);
        proof {
            assert(canvas.buf() == paint(b0, w, h, lv, *color));
        }
    }
    proof {
        assert(cap_spans(cx as int, cy as int, y as int, hr as int).len() == 0);
        assert(canvas.buf() == final_target);
        assert(final_target == paint(buf0, w, h, full, *color));
    }
}

} // verus!
