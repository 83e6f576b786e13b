use vstd::prelude::*;

verus! {

/// One RGBA color, each channel an 8-bit value.
#[derive(Clone, Copy, Debug, PartialEq, Eq, Structural)]
pub struct Pixel {
    pub r: u8,
    pub g: u8,
    pub b: u8,
    pub a: u8,
}

/// The fully transparent color `(0, 0, 0, 0)`, which always has identifier 0.
pub open spec fn clear() -> Pixel {
    Pixel { r: 0, g: 0, b: 0, a: 0 }
}

impl Pixel {
    pub fn new(r: u8, g: u8, b: u8, a: u8) -> (p: Pixel)
        ensures
            p == (Pixel { r, g, b, a }),
    {
        Pixel { r, g, b, a }
    }

    /// The fully transparent color.
    pub fn transparent() -> (p: Pixel)
        ensures
            p == clear(),
    {
        Pixel { r: 0, g: 0, b: 0, a: 0 }
    }
}

} // verus!
