use vstd::prelude::*;

verus! {

/// A width x height grid of 3-channel RGB pixels, row major, three bytes per
/// pixel, red first.
pub struct RasterImage {
    pub width: u32,
    pub height: u32,
    pub pixels: Vec<u8>,
}

impl RasterImage {
    /// The buffer holds exactly three bytes for every pixel of the grid.
    pub open spec fn wf(self) -> bool {
        self.pixels@.len() == 3 * self.width * self.height
    }
}

/// Index of the red byte of pixel (x, y) in a row-major buffer of width w.
pub open spec fn pix(w: int, x: int, y: int) -> int {
    3 * (y * w + x)
}

/// The RGB triple of pixel (x, y) in a row-major buffer p of width w.
pub open spec fn pixel_at(p: Seq<u8>, w: int, x: int, y: int) -> (u8, u8, u8) {
    (p[pix(w, x, y)], p[pix(w, x, y) + 1], p[pix(w, x, y) + 2])
}

} // verus!
