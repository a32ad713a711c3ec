//! Text style descriptors: glyph style plus an optional character box.

use crate::geometry::{
    Baseline, CharacterBoxSize, Color, FontMetrics, PixelPoint, PixelSize, MAX_ORIGIN,
    MAX_SURFACE_DIM,
};
use vstd::prelude::*;

verus! {

/// The glyph-level part of a text style: the cell metrics and the paired
/// foreground and background colors each glyph cell is painted with.
#[derive(Clone, Copy, PartialEq, Eq, Structural, Debug)]
pub struct CharacterStyle {
    pub font: FontMetrics,
    pub text_color: Color,
    pub background_color: Color,
}

/// Where and how a writer renders text: an origin point, an optional
/// character-space bounding box, a character style and a baseline.
/// Rendering is always left-aligned. A descriptor is immutable after
/// construction; changing the box means building a new descriptor.
#[derive(Clone, Copy, PartialEq, Eq, Structural, Debug)]
pub struct DisplayTextStyle {
    /// Location of the text on the screen.
    pub position: PixelPoint,
    /// Optional box size for character wrapping; absent means unbounded.
    pub char_box_size: Option<CharacterBoxSize>,
    pub character_style: CharacterStyle,
    pub baseline: Baseline,
}

impl DisplayTextStyle {
    /// The descriptor's values stay inside the ranges that keep every pixel
    /// position computed from it within machine bounds.
    pub open spec fn wf(&self) -> bool {
        &&& -MAX_ORIGIN <= self.position.x <= MAX_ORIGIN
        &&& -MAX_ORIGIN <= self.position.y <= MAX_ORIGIN
        &&& self.character_style.font.wf()
        &&& match self.char_box_size {
            Some(cb) => cb.width <= MAX_SURFACE_DIM && cb.height <= MAX_SURFACE_DIM,
            None => true,
        }
    }

    /// Builds a descriptor, floor-dividing an optional pixel box by the glyph
    /// cell size to obtain the character box; an absent pixel box leaves the
    /// character box unbounded.
    pub fn new(
        position: PixelPoint,
        box_size: Option<PixelSize>,
        character_style: CharacterStyle,
        baseline: Baseline,
    ) -> (s: DisplayTextStyle)
        requires
            -MAX_ORIGIN <= position.x <= MAX_ORIGIN,
            -MAX_ORIGIN <= position.y <= MAX_ORIGIN,
            character_style.font.wf(),
            box_size matches Some(b) ==> b.width <= MAX_SURFACE_DIM && b.height
                <= MAX_SURFACE_DIM,
        ensures
            s.wf(),
            s.position == position,
            s.character_style == character_style,
            s.baseline == baseline,
            match box_size {
                None => s.char_box_size is None,
                Some(b) => s.char_box_size == Some(
                    CharacterBoxSize {
                        width: b.width / character_style.font.width,
                        height: b.height / character_style.font.height,
                    },
                ),
            },
    {
        let char_box_size: Option<CharacterBoxSize> = match box_size {
            None => None,
            Some(b) => Some(
                CharacterBoxSize {
                    width: b.width / character_style.font.width,
                    height: b.height / character_style.font.height,
                },
            ),
        };
        DisplayTextStyle { position, char_box_size, character_style, baseline }
    }
}

} // verus!
