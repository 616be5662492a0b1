//! Image transform pipeline for a small image server: aspect-preserving
//! resize with symmetric cropping, nearest-color quantization against fixed
//! palette pairs with decoupled match and display colors, Floyd-Steinberg
//! error-diffusion dithering, and an orchestrator that passes untouched
//! requests through byte for byte and otherwise re-encodes through an
//! external raster codec.

use vstd::prelude::*;

pub mod dither;
pub mod palette;
pub mod pipeline;
pub mod raster;
pub mod resize;
pub mod select;

verus! {

/// Process-wide configuration shared by every request handler: the root the
/// served images live under, and the index payload returned for the bare path.
pub struct WebContext {
    pub path: String,
    pub index: String,
}

} // verus!
