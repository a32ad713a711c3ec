//! Pixel-space and character-space coordinates, sizes, colors and fonts.

use vstd::prelude::*;

verus! {

/// Largest pixel extent, per axis, that a display surface may have.
pub const MAX_SURFACE_DIM: u32 = 32768;

/// Largest extent, per axis, of one monospace glyph cell.
pub const MAX_CELL_DIM: u32 = 1024;

/// Largest magnitude of a text origin coordinate.
pub const MAX_ORIGIN: i32 = 262144;

/// An immutable pixel coordinate pair.
#[derive(Clone, Copy, PartialEq, Eq, Structural, Debug)]
pub struct PixelPoint {
    pub x: i32,
    pub y: i32,
}

impl PixelPoint {
    pub fn new(x: i32, y: i32) -> (p: PixelPoint)
        ensures
            p.x == x,
            p.y == y,
    {
        PixelPoint { x, y }
    }

    pub fn zero() -> (p: PixelPoint)
        ensures
            p.x == 0,
            p.y == 0,
    {
        PixelPoint { x: 0, y: 0 }
    }
}

/// An immutable pixel extent pair.
#[derive(Clone, Copy, PartialEq, Eq, Structural, Debug)]
pub struct PixelSize {
    pub width: u32,
    pub height: u32,
}

impl PixelSize {
    pub fn new(width: u32, height: u32) -> (s: PixelSize)
        ensures
            s.width == width,
            s.height == height,
    {
        PixelSize { width, height }
    }
}

/// A bounding box measured in character cells.
#[derive(Clone, Copy, PartialEq, Eq, Structural, Debug)]
pub struct CharacterBoxSize {
    pub width: u32,
    pub height: u32,
}

/// The fixed pixel footprint of one monospace glyph cell.
#[derive(Clone, Copy, PartialEq, Eq, Structural, Debug)]
pub struct FontMetrics {
    pub width: u32,
    pub height: u32,
}

impl FontMetrics {
    /// Both cell extents are positive and small enough for all position
    /// arithmetic in the crate to stay in range.
    pub open spec fn wf(&self) -> bool {
        &&& 1 <= self.width <= MAX_CELL_DIM
        &&& 1 <= self.height <= MAX_CELL_DIM
    }
}

/// An abstract pixel color; the device gives its palette meaning.
#[derive(Clone, Copy, PartialEq, Eq, Structural, Debug)]
pub struct Color {
    pub value: u32,
}

impl Color {
    pub fn new(value: u32) -> (c: Color)
        ensures
            c.value == value,
    {
        Color { value }
    }
}

/// Vertical anchoring of a drawn text run relative to its position.
#[derive(Clone, Copy, PartialEq, Eq, Structural, Debug)]
pub enum Baseline {
    /// The position is the top-left corner of the first glyph cell.
    Top,
    /// The position is the bottom-left corner of the first glyph cell.
    Bottom,
}

} // verus!
