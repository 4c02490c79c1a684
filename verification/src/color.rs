use vstd::prelude::*;

verus! {

/// An RGB pixel value with 8 bits per channel.
#[derive(Clone, Copy, Debug, PartialEq, Eq, Structural)]
pub struct Color {
    pub r: u8,
    pub g: u8,
    pub b: u8,
}

/// The gray shade painted for an object of luminosity `l`.
pub open spec fn spec_gray(l: u8) -> Color {
    Color { r: l, g: l, b: l }
}

/// The background value every capture starts from.
pub open spec fn spec_black() -> Color {
    Color { r: 0, g: 0, b: 0 }
}

impl Color {
    pub fn new(r: u8, g: u8, b: u8) -> (c: Color)
        ensures
            c == (Color { r, g, b }),
    {
        Color { r, g, b }
    }

    pub fn black() -> (c: Color)
        ensures
            c == spec_black(),
    {
        Color { r: 0, g: 0, b: 0 }
    }

    pub fn white() -> (c: Color)
        ensures
            c == (Color { r: 255u8, g: 255u8, b: 255u8 }),
    {
        Color { r: 255, g: 255, b: 255 }
    }

    pub fn gray(l: u8) -> (c: Color)
        ensures
            c == spec_gray(l),
    {
        Color { r: l, g: l, b: l }
    }
}

} // verus!
