//! In-memory RGBA image core: fixed-point working pixels, color-space
//! conversion stages through a linear-light hub, and bilinear resampling.
use vstd::prelude::*;

pub mod color;
pub mod gamut;
pub mod image;
pub mod pixel;
pub mod resample;

pub use color::{conversion_plan, ColorSpace, Step};
pub use gamut::{Gamut, Matrix3, FRAC};
pub use image::{Image, ImageError, ResXY};
pub use pixel::{Pixel, LEVEL_STEP, ONE};

verus! {

} // verus!
