//! Colours as four 8-bit channels.

use vstd::prelude::*;
use vstd::std_specs::convert::FromSpecImpl;

verus! {

/// A colour with red, green, blue and alpha channels, each from 0 to 255.
#[derive(Clone, Copy, Debug, PartialEq, Eq, Hash, Structural)]
pub struct Color {
    pub r: u8,
    pub g: u8,
    pub b: u8,
    pub a: u8,
}

impl Color {
    /// The colour with the four channels given.
    pub fn from_rgba(r: u8, g: u8, b: u8, a: u8) -> (color: Self)
        ensures
            color == (Color { r, g, b, a }),
    {
        Color { r, g, b, a }
    }

    /// The opaque colour with the three channels given.
    pub fn from_rgb(r: u8, g: u8, b: u8) -> (color: Self)
        ensures
            color == (Color { r, g, b, a: 255 }),
    {
        Color { r, g, b, a: 255 }
    }
}

impl From<[u8; 4]> for Color {
    fn from(channels: [u8; 4]) -> (color: Self) {
        Color { r: channels[0], g: channels[1], b: channels[2], a: channels[3] }
    }
}

impl FromSpecImpl<[u8; 4]> for Color {
    open spec fn obeys_from_spec() -> bool {
        true
    }

    open spec fn from_spec(channels: [u8; 4]) -> Self {
        Color { r: channels[0], g: channels[1], b: channels[2], a: channels[3] }
    }
}

} // verus!
