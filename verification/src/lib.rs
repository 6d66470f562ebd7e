//! A small 2D rasterizer: shapes are converted into bounded pixel writes on a
//! caller-supplied packed RGBA buffer, with every drawing routine verified
//! against a sequence-level model of the buffer.

mod canvas;
pub mod color;
pub mod errors;
pub mod paint;
pub mod shape;

pub use canvas::Canvas;
pub use color::Color;
pub use errors::Error;
