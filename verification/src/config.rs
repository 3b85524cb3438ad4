//! Rendering parameters shared by the renderer and its callers.

use vstd::prelude::*;

verus! {

/// Size and sampling parameters for one rendered image.
#[derive(Debug, Clone, Copy)]
pub struct Config {
    pub width: usize,
    pub height: usize,
    pub samples_per_pixel: u32,
    pub max_depth: u32,
}

impl Config {
    /// A configuration the renderer can act on: at least one pixel in each
    /// direction, a flat pixel buffer that fits in memory, at least one sample
    /// per pixel, and a finite positive bounce budget (the sole bound on
    /// per-pixel work).
    pub open spec fn valid(self) -> bool {
        &&& 0 < self.width
        &&& 0 < self.height
        &&& self.width * self.height <= usize::MAX
        &&& 0 < self.samples_per_pixel
        &&& 0 < self.max_depth
    }

    /// Number of pixels in the flat row-major image buffer.
    pub fn pixel_count(&self) -> (n: usize)
        requires
            self.valid(),
        ensures
            n == self.width * self.height,
    {
        self.width * self.height
    }
}

} // verus!
