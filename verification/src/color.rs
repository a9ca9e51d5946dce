//! Colours and coloured pixels.

use vstd::prelude::*;

verus! {

/// A colour with red, green, blue and alpha channels.
#[derive(Debug, PartialEq, Eq, Structural, Clone, Copy)]
pub struct Color {
    pub r: u8,
    pub g: u8,
    pub b: u8,
    pub a: u8,
}

impl Color {
    /// The fully opaque colour with the given red, green and blue channels.
    pub open spec fn opaque(r: u8, g: u8, b: u8) -> Color {
        Color { r, g, b, a: 255 }
    }

    /// Opaque white, the colour of every line that is built from two points.
    pub open spec fn white() -> Color {
        Color { r: 255, g: 255, b: 255, a: 255 }
    }

    /// Builds the fully opaque colour with the given channels.
    pub fn rgb(r: u8, g: u8, b: u8) -> (c: Color)
        ensures
            c == Color::opaque(r, g, b),
    {
        Color { r, g, b, a: 255 }
    }
}

/// One write to a canvas: a position and the colour put there.
#[derive(Debug, PartialEq, Eq, Structural, Clone, Copy)]
pub struct Pixel {
    pub x: i32,
    pub y: i32,
    pub color: Color,
}

} // verus!
