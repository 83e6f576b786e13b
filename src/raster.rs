use vstd::prelude::*;

use crate::pixel::Pixel;

verus! {

/// A raster image: `width` × `height` pixels stored row by row
/// (all of row 0, then all of row 1, ...).
#[derive(Debug)]
pub struct Image {
    pub width: u32,
    pub height: u32,
    pub pixels: Vec<Pixel>,
}

impl Image {
    /// The pixel grid holds exactly one pixel per coordinate.
    pub open spec fn wf(&self) -> bool {
        self.pixels@.len() == self.width as int * self.height as int
    }

    /// Builds an image from row-major pixels; `None` when their number is not
    /// `width * height`.
    pub fn new(width: u32, height: u32, pixels: Vec<Pixel>) -> (r: Option<Image>)
        ensures
            r is Some <==> pixels@.len() == width as int * height as int,
            r matches Some(img) ==> img.width == width && img.height == height
                && img.pixels@ == pixels@ && img.wf(),
    {
        assert(width as u64 * height as u64 <= u64::MAX) by (nonlinear_arith);
        let cells: u64 = width as u64 * height as u64;
        if pixels.len() as u64 == cells {
            Some(Image { width, height, pixels })
        } else {
            None
        }
    }
}

} // verus!
