//! Building colors.
use vstd::prelude::*;

use crate::overlay::geometry::Rgba;

verus! {

/// A color builder.
pub struct Color;

impl Color {
    /// A color from its red, green, blue and alpha channels.
    pub fn from_rgba(r: u8, g: u8, b: u8, a: u8) -> (c: Rgba)
        ensures
            c == (Rgba { r, g, b, a }),
    {
        Rgba { r, g, b, a }
    }
}

} // verus!
