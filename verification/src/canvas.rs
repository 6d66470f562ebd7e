//! The canvas: dimensions plus an owned packed RGBA pixel buffer, with a
//! bounds-checked pixel write as the single chokepoint for every drawing
//! routine.

use vstd::prelude::*;

use crate::color::Color;
use crate::errors::{unsupported_error, Error};
use crate::paint::{chan, cleared, paint_one, pix_in_bounds, pix_off};

verus! {

/// Container for drawing the shapes: a width, a height, and the packed RGBA
/// buffer the pixels live in, four bytes per pixel, row-major, top-left origin.
pub struct Canvas {
    width: usize,
    height: usize,
    buffer: Vec<u8>,
}

impl Canvas {
    /// The canvas width in pixels.
    pub closed spec fn spec_width(&self) -> int {
        self.width as int
    }

    /// The canvas height in pixels.
    pub closed spec fn spec_height(&self) -> int {
        self.height as int
    }

    /// The bytes of the pixel buffer.
    pub closed spec fn buf(&self) -> Seq<u8> {
        self.buffer@
    }

    /// Well-formedness: the pixel area fits in a machine word and the buffer
    /// has room for every pixel of the canvas.
    pub open spec fn wf(&self) -> bool {
        &&& 4 * self.spec_width() * self.spec_height() <= usize::MAX
        &&& 4 * self.spec_width() * self.spec_height() <= self.buf().len()
    }

    /// Creates a canvas over the supplied buffer. Fails, handing no canvas
    /// back, exactly when the buffer cannot hold `4 * width * height` bytes.
    pub fn new(width: usize, height: usize, buffer: Vec<u8>) -> (r: Result<Canvas, Error>)
        ensures
            match r {
                Ok(c) => {
                    &&& 4 * width * height <= buffer@.len()
                    &&& c.wf()
                    &&& c.spec_width() == width
                    &&& c.spec_height() == height
                    &&& c.buf() == buffer@
                },
                Err(e) => {
                    &&& buffer@.len() < 4 * width * height
                    &&& e matches Error::Unsupported(_)
                },
            },
    {
        let l = buffer.len();
        let enough = match width.checked_mul(height) {
            Some(p) => match p.checked_mul(4) {
                Some(need) => need <= l,
                None => false,
            },
            None => false,
        };
        if !enough {
            proof {
                assert(buffer@.len() < 4 * width * height) by (nonlinear_arith)
                    requires
                        !(width * height <= usize::MAX && width * height * 4 <= usize::MAX
                            && width * height * 4 <= buffer@.len()),
                        buffer@.len() <= usize::MAX,
                        0 <= width,
                        0 <= height,
                ;
            }
            return unsupported_error("buffer is too small for the canvas dimensions");
        }
        proof {
            assert(4 * (width as int) * (height as int) == width * height * 4) by (nonlinear_arith);
        }
        Ok(Canvas { width, height, buffer })
    }

    /// Draws the shape in the given color: dispatches to the shape's fill
    /// where it reports itself filled, to its stroke otherwise, and paints
    /// exactly the shape's points over the buffer, clipped to the canvas.
    pub fn draw(&mut self, shape: &crate::shape::Shape, color: &Color)
        requires
            old(self).wf(),
            shape.spec_args_ok(),
        ensures
            final(self).wf(),
            final(self).spec_width() == old(self).spec_width(),
            final(self).spec_height() == old(self).spec_height(),
            final(self).buf() == crate::paint::paint(
                old(self).buf(),
                old(self).spec_width(),
                old(self).spec_height(),
                shape.draw_points(),
                *color,
            ),
    {
        if shape.is_filled() {
            shape.draw_filled(self, color)
        } else {
            shape.draw(self, color)
        }
    }

    /// Reads the pixel buffer, for handing the finished frame to a consumer.
    pub fn buffer(&self) -> (r: &Vec<u8>)
        ensures
            r@ == self.buf(),
    {
        &self.buffer
    }

    /// Writes the color to pixel (x, y) if it lies on the canvas; any write
    /// outside the canvas bounds is silently clipped and the buffer is left
    /// exactly as it was.
    pub fn draw_point(&mut self, x: i32, y: i32, color: &Color)
        requires
            old(self).wf(),
        ensures
            final(self).wf(),
            final(self).spec_width() == old(self).spec_width(),
            final(self).spec_height() == old(self).spec_height(),
            final(self).buf() == paint_one(
                old(self).buf(),
                old(self).spec_width(),
                old(self).spec_height(),
                (x as int, y as int),
                *color,
            ),
    {
        if x < 0 || y < 0 {
            return;
        }
        self.draw_point_internal(x as usize, y as usize, color)
    }

    /// The bounds-checked write itself, on unsigned coordinates.
    fn draw_point_internal(&mut self, x: usize, y: usize, color: &Color)
        requires
            old(self).wf(),
        ensures
            final(self).wf(),
            final(self).spec_width() == old(self).spec_width(),
            final(self).spec_height() == old(self).spec_height(),
            final(self).buf() == paint_one(
                old(self).buf(),
                old(self).spec_width(),
                old(self).spec_height(),
                (x as int, y as int),
                *color,
            ),
    {
        if x >= self.width || y >= self.height {
            return;
        }
        proof {
            assert(y * self.spec_width() + x + 1 <= self.spec_width() * self.spec_height()
                && 0 <= y * self.spec_width()) by (nonlinear_arith)
                requires
                    0 <= x < self.spec_width(),
                    0 <= y < self.spec_height(),
            ;
            assert(4 * (y * self.spec_width() + x) + 4 <= 4 * self.spec_width()
                * self.spec_height()) by (nonlinear_arith)
                requires
                    y * self.spec_width() + x + 1 <= self.spec_width() * self.spec_height(),
            ;
        }
        let si = (x + y * self.width) * 4;
        assert(si == pix_off(self.spec_width(), x as int, y as int));
        self.buffer[si] = color.r;
        self.buffer[si + 1] = color.g;
        self.buffer[si + 2] = color.b;
        self.buffer[si + 3] = color.a;
    }

    /// Reads the four bytes of pixel (x, y), which must lie on the canvas.
    pub fn get_color(&self, x: i32, y: i32) -> (r: [u8; 4])
        requires
            self.wf(),
            0 <= x < self.spec_width(),
            0 <= y < self.spec_height(),
        ensures
            r@ == seq![
                self.buf()[pix_off(self.spec_width(), x as int, y as int)],
                self.buf()[pix_off(self.spec_width(), x as int, y as int) + 1],
                self.buf()[pix_off(self.spec_width(), x as int, y as int) + 2],
                self.buf()[pix_off(self.spec_width(), x as int, y as int) + 3],
            ],
    {
        proof {
            crate::paint::lemma_pix_off_in_range(
                self.buf(),
                self.spec_width(),
                self.spec_height(),
                x as int,
                y as int,
            );
            assert(0 <= (y as int) * self.spec_width()) by (nonlinear_arith)
                requires
                    0 <= y as int,
                    0 <= self.spec_width(),
            ;
        }
        let si = (x as usize + (y as usize) * self.width) * 4;
        let r = [self.buffer[si], self.buffer[si + 1], self.buffer[si + 2], self.buffer[si + 3]];
        assert(r@ =~= seq![
            self.buf()[pix_off(self.spec_width(), x as int, y as int)],
            self.buf()[pix_off(self.spec_width(), x as int, y as int) + 1],
            self.buf()[pix_off(self.spec_width(), x as int, y as int) + 2],
            self.buf()[pix_off(self.spec_width(), x as int, y as int) + 3],
        ]);
        r
    }

    /// Fills every pixel of the canvas with the color; bytes beyond the
    /// pixel area are left as they were.
    pub fn clear(&mut self, color: &Color)
        requires
            old(self).wf(),
        ensures
            final(self).wf(),
            final(self).spec_width() == old(self).spec_width(),
            final(self).spec_height() == old(self).spec_height(),
            final(self).buf() == cleared(
                old(self).buf(),
                old(self).spec_width(),
                old(self).spec_height(),
                *color,
            ),
    {
        let ghost buf0 = old(self).buf();
        let ghost w0 = old(self).spec_width();
        let ghost h0 = old(self).spec_height();
        let w = self.width;
        let h = self.height;
        proof {
            assert((w as int) * (h as int) * 4 == 4 * (w as int) * (h as int) && 0 <= (w as int) * (
            h as int)) by (nonlinear_arith);
        }
        let total: usize = w * h;
        let mut p: usize = 0;
        while p < total
            invariant
                total == w0 * h0,
                4 * total <= usize::MAX,
                4 * total <= buf0.len(),
                0 <= p <= total,
                self.spec_width() == w0,
                self.spec_height() == h0,
                self.buf().len() == buf0.len(),
                forall|k: int|
                    0 <= k < self.buf().len() ==> self.buf()[k] == (if k < 4 * p {
                        chan(*color, k % 4)
                    } else {
                        buf0[k]
                    }),
            decreases total - p,
        {
            let si = 4 * p;
            self.buffer[si] = color.r;
            self.buffer[si + 1] = color.g;
            self.buffer[si + 2] = color.b;
            self.buffer[si + 3] = color.a;
            proof {
                vstd::arithmetic::div_mod::lemma_mod_multiples_vanish(p as int, 0, 4);
                vstd::arithmetic::div_mod::lemma_mod_multiples_vanish(p as int, 1, 4);
                vstd::arithmetic::div_mod::lemma_mod_multiples_vanish(p as int, 2, 4);
                vstd::arithmetic::div_mod::lemma_mod_multiples_vanish(p as int, 3, 4);
                vstd::arithmetic::div_mod::lemma_small_mod(0, 4);
                vstd::arithmetic::div_mod::lemma_small_mod(1, 4);
                vstd::arithmetic::div_mod::lemma_small_mod(2, 4);
                vstd::arithmetic::div_mod::lemma_small_mod(3, 4);
            }
            p = p + 1;
        }
        proof {
            assert(self.buf() =~= cleared(buf0, w0, h0, *color));
        }
    }
}

} // verus!

