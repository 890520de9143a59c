//! What a caller draws: coloured points at signed coordinates.

use vstd::prelude::*;

verus! {

/// A colour with eight bits each of red, green and blue.
#[derive(Clone, Copy, Debug, PartialEq, Eq)]
pub struct Rgb {
    pub r: u8,
    pub g: u8,
    pub b: u8,
}

/// One coloured point. Its coordinates may lie anywhere, also off the display.
#[derive(Clone, Copy, Debug, PartialEq, Eq)]
pub struct Pixel {
    pub x: i32,
    pub y: i32,
    pub color: Rgb,
}

} // verus!
