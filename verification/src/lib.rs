//! Floyd–Steinberg error diffusion over a grid of RGBA pixels.
//!
//! The image is held in a [`pixels::Pixels`] buffer, which turns coordinates
//! into offsets under an edge policy. [`palette`] reduces one pixel to a fixed
//! palette, and [`dither`] walks the buffer and spreads each pixel's
//! quantisation error over its neighbours.

pub mod dither;
pub mod effects;
pub mod error;
pub mod palette;
pub mod pixel;
pub mod pixels;

pub use dither::{dither_one_pixel, draw};
