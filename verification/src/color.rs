//! RGB color values for the frame buffer.

use vstd::prelude::*;

verus! {

/// An immutable color with three 8-bit components. Equality is exact
/// structural equality on all three components. The all-zero value doubles
/// as the "default" sentinel: handed to a drawing call it means "leave the
/// stored color of that channel unchanged".
#[derive(Clone, Copy, PartialEq, Eq, Structural, Debug)]
pub struct Color {
    pub r: u8,
    pub g: u8,
    pub b: u8,
}

/// The sentinel value: as an argument to a drawing call it never overwrites
/// the stored color for its channel.
pub open spec fn default_color() -> Color {
    Color { r: 0, g: 0, b: 0 }
}

impl Color {
    pub fn new(r: u8, g: u8, b: u8) -> (c: Color)
        ensures
            c == (Color { r, g, b }),
    {
        Color { r, g, b }
    }

    pub fn white() -> (c: Color)
        ensures
            c == (Color { r: 255, g: 255, b: 255 }),
    {
        Color { r: 255, g: 255, b: 255 }
    }

    pub fn black() -> (c: Color)
        ensures
            c == (Color { r: 0, g: 0, b: 0 }),
    {
        Color { r: 0, g: 0, b: 0 }
    }

    pub fn red() -> (c: Color)
        ensures
            c == (Color { r: 255, g: 0, b: 0 }),
    {
        Color { r: 255, g: 0, b: 0 }
    }

    pub fn green() -> (c: Color)
        ensures
            c == (Color { r: 0, g: 255, b: 0 }),
    {
        Color { r: 0, g: 255, b: 0 }
    }

    pub fn blue() -> (c: Color)
        ensures
            c == (Color { r: 0, g: 0, b: 255 }),
    {
        Color { r: 0, g: 0, b: 255 }
    }

    pub fn cyan() -> (c: Color)
        ensures
            c == (Color { r: 0, g: 255, b: 255 }),
    {
        Color { r: 0, g: 255, b: 255 }
    }

    pub fn magenta() -> (c: Color)
        ensures
            c == (Color { r: 255, g: 0, b: 255 }),
    {
        Color { r: 255, g: 0, b: 255 }
    }

    pub fn yellow() -> (c: Color)
        ensures
            c == (Color { r: 255, g: 255, b: 0 }),
    {
        Color { r: 255, g: 255, b: 0 }
    }

    pub fn orange() -> (c: Color)
        ensures
            c == (Color { r: 255, g: 127, b: 0 }),
    {
        Color { r: 255, g: 127, b: 0 }
    }

    pub fn purple() -> (c: Color)
        ensures
            c == (Color { r: 127, g: 0, b: 255 }),
    {
        Color { r: 127, g: 0, b: 255 }
    }
}

impl Default for Color {
    /// The "leave unchanged" sentinel color.
    fn default() -> (c: Color)
        ensures
            c == default_color(),
    {
        Color { r: 0, g: 0, b: 0 }
    }
}

/// Two colors are equal exactly when all three components match; a single
/// differing component breaks equality.
pub proof fn lemma_color_eq(a: Color, b: Color)
    ensures
        (a == b) <==> (a.r == b.r && a.g == b.g && a.b == b.b),
{
}

} // verus!
