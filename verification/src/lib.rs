//! A Mandelbrot set generator with a verified core.
//!
//! The crate renders raster images of the Mandelbrot set: a viewport of the
//! complex plane is mapped onto a pixel grid, escape-time iteration is run
//! per pixel, and a coloring strategy turns the per-pixel results into RGBA
//! values.
//!
//! All plane arithmetic is carried out on [`fixed::Fixed`], a binary
//! fixed-point scalar with exactly specified rounding and saturation, so the
//! whole pipeline — complex arithmetic, escape-time iteration, coloring, and
//! HSB conversion — has contracts over plain integers.

pub mod color_scale;
pub mod complex_number;
pub mod fixed;
pub mod mandelbrot;
pub mod pixel;
