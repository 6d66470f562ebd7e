//! The shapes this library can rasterize, and the closed shape type the
//! canvas dispatches on.

use vstd::prelude::*;

pub mod bezier2d;
pub mod ellipse2d;
pub mod line2d;
pub mod polygon2d;
pub mod rectangle2d;

pub use bezier2d::{draw_cubic_bezier2d, draw_quadratic_bezier2d, CubicBezier2D, QuadraticBezier2D};
pub use ellipse2d::{draw_ellipse2d, draw_ellipse2d_filled, Ellipse2D};
pub use line2d::{draw_line2d, Line2D};
pub use polygon2d::{create_convex_hull, draw_polygon2d, draw_polygon2d_filled, Polygon2D};
pub use rectangle2d::{draw_rect2d, draw_rect2d_filled, Rectangle2D};

use crate::canvas::Canvas;
use crate::color::Color;
use crate::paint::paint;

verus! {

/// Any shape this library can rasterize: a closed union over the six shape
/// kinds, each holding only its defining geometry.
pub enum Shape<'a> {
    Line(Line2D),
    Rectangle(Rectangle2D),
    Ellipse(Ellipse2D),
    Polygon(Polygon2D<'a>),
    QuadraticBezier(QuadraticBezier2D),
    CubicBezier(CubicBezier2D),
}

impl<'a> Shape<'a> {
    /// Whether the shape reports itself as filled: only rectangles and
    /// ellipses carry a fill flag, every other shape is stroked.
    pub open spec fn spec_is_filled(&self) -> bool {
        match self {
            Shape::Rectangle(s) => s.is_filled,
            Shape::Ellipse(s) => s.is_filled,
            _ => false,
        }
    }

    /// What drawing this shape asks of its arguments, so that the integer
    /// arithmetic of the rasterizers cannot overflow.
    pub open spec fn spec_args_ok(&self) -> bool {
        match self {
            Shape::Rectangle(s) => {
                &&& i32::MIN <= s.x + s.width <= i32::MAX
                &&& i32::MIN <= s.y + s.height <= i32::MAX
            },
            Shape::Ellipse(s) => ellipse2d::ellipse_args_ok(
                s.xc as int,
                s.yc as int,
                s.width_radius as int,
                s.height_radius as int,
            ),
            _ => true,
        }
    }

    /// Exactly the points stroking this shape plots.
    pub open spec fn stroke_points(&self) -> Seq<(int, int)> {
        match self {
            Shape::Line(s) => line2d::line_points(
                s.x1 as int,
                s.y1 as int,
                s.x2 as int,
                s.y2 as int,
            ),
            Shape::Rectangle(s) => rectangle2d::rect_stroke_points(
                s.x as int,
                s.y as int,
                s.width as int,
                s.height as int,
            ),
            Shape::Ellipse(s) => ellipse2d::ellipse2d_points(
                s.xc as int,
                s.yc as int,
                s.width_radius as int,
                s.height_radius as int,
            ),
            Shape::Polygon(s) => polygon2d::polygon_stroke_points(s.xi@, s.yi@),
            Shape::QuadraticBezier(s) => bezier2d::quad_bezier_points(
                s.start.0 as int,
                s.start.1 as int,
                s.control.0 as int,
                s.control.1 as int,
                s.end.0 as int,
                s.end.1 as int,
            ),
            Shape::CubicBezier(s) => bezier2d::cubic_bezier_points(
                s.start.0 as int,
                s.start.1 as int,
                s.control_a.0 as int,
                s.control_a.1 as int,
                s.control_b.0 as int,
                s.control_b.1 as int,
                s.end.0 as int,
                s.end.1 as int,
            ),
        }
    }

    /// Exactly the points filling this shape plots. A line or a curve fills
    /// as it strokes, and polygon filling is a reserved interface that
    /// plots nothing.
    pub open spec fn fill_points(&self) -> Seq<(int, int)> {
        match self {
            Shape::Rectangle(s) => rectangle2d::rect_fill_points(
                s.x as int,
                s.y as int,
                s.width as int,
                s.height as int,
            ),
            Shape::Ellipse(s) => ellipse2d::ellipse2d_fill_points(
                s.xc as int,
                s.yc as int,
                s.width_radius as int,
                s.height_radius as int,
            ),
            Shape::Polygon(_) => Seq::empty(),
            _ => self.stroke_points(),
        }
    }

    /// The points a `draw` call on the canvas plots for this shape: the
    /// fill where the shape reports itself filled, the stroke otherwise.
    pub open spec fn draw_points(&self) -> Seq<(int, int)> {
        if self.spec_is_filled() {
            self.fill_points()
        } else {
            self.stroke_points()
        }
    }

    /// Whether the shape asks to be filled rather than stroked.
    pub fn is_filled(&self) -> (r: bool)
        ensures
            r == self.spec_is_filled(),
    {
        match self {
            Shape::Rectangle(s) => s.is_filled,
            Shape::Ellipse(s) => s.is_filled,
            _ => false,
        }
    }

    /// Strokes the shape's outline onto the canvas, clipped to its bounds.
    pub fn draw(&self, canvas: &mut Canvas, color: &Color)
        requires
            old(canvas).wf(),
            self.spec_args_ok(),
        ensures
            final(canvas).wf(),
            final(canvas).spec_width() == old(canvas).spec_width(),
            final(canvas).spec_height() == old(canvas).spec_height(),
            final(canvas).buf() == paint(
                old(canvas).buf(),
                old(canvas).spec_width(),
                old(canvas).spec_height(),
                self.stroke_points(),
                *color,
            ),
    {
        match self {
            Shape::Line(s) => draw_line2d(s.x1, s.y1, s.x2, s.y2, canvas, color),
            Shape::Rectangle(s) => draw_rect2d(s.x, s.y, s.width, s.height, canvas, color),
            Shape::Ellipse(s) => draw_ellipse2d(
                s.xc,
                s.yc,
                s.width_radius,
                s.height_radius,
                canvas,
                color,
            ),
            Shape::Polygon(s) => draw_polygon2d(s.xi, s.yi, canvas, color),
            Shape::QuadraticBezier(s) => draw_quadratic_bezier2d(
                s.start,
                s.end,
                s.control,
                canvas,
                color,
            ),
            Shape::CubicBezier(s) => draw_cubic_bezier2d(
                s.start,
                s.end,
                s.control_a,
                s.control_b,
                canvas,
                color,
            ),
        }
    }

    /// Fills the shape onto the canvas, clipped to its bounds.
    pub fn draw_filled(&self, canvas: &mut Canvas, color: &Color)
        requires
            old(canvas).wf(),
            self.spec_args_ok(),
        ensures
            final(canvas).wf(),
            final(canvas).spec_width() == old(canvas).spec_width(),
            final(canvas).spec_height() == old(canvas).spec_height(),
            final(canvas).buf() == paint(
                old(canvas).buf(),
                old(canvas).spec_width(),
                old(canvas).spec_height(),
                self.fill_points(),
                *color,
            ),
    {
        match self {
            Shape::Line(s) => draw_line2d(s.x1, s.y1, s.x2, s.y2, canvas, color),
            Shape::Rectangle(s) => draw_rect2d_filled(s.x, s.y, s.width, s.height, canvas, color),
            Shape::Ellipse(s) => draw_ellipse2d_filled(
                s.xc,
                s.yc,
                s.width_radius,
                s.height_radius,
                canvas,
                color,
            ),
            Shape::Polygon(s) => draw_polygon2d_filled(s.xi, s.yi, canvas, color),
            Shape::QuadraticBezier(s) => draw_quadratic_bezier2d(
                s.start,
                s.end,
                s.control,
                canvas,
                color,
            ),
            Shape::CubicBezier(s) => draw_cubic_bezier2d(
                s.start,
                s.end,
                s.control_a,
                s.control_b,
                canvas,
                color,
            ),
        }
    }
}

} // verus!
