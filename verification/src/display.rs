//! The display capability: the contract every pixel output device meets.

use crate::geometry::{Color, FontMetrics, PixelPoint, PixelSize, MAX_ORIGIN};
use crate::render::{render, surface_wf, uniform_surface, DeviceModel, Surface};
use crate::style::{CharacterStyle, DisplayTextStyle};
use vstd::prelude::*;

verus! {

/// A device failure during a pixel write, clear or flush. It is surfaced to
/// the immediate caller and never retried; a failed draw leaves the surface
/// partially updated.
#[derive(Clone, Copy, PartialEq, Eq, Structural, Debug)]
pub enum DrawError {
    /// The device reported that it could not carry out the operation.
    Device,
}

/// A pixel-addressable output device with a fixed monospace font and paired
/// background/text and panic colors.
///
/// The device is modelled by a fixed [`DeviceModel`] and a mutable pixel
/// [`Surface`]; drawing and clearing change the surface alone, as
/// [`render`] and [`uniform_surface`] say. A draw or clear that fails may
/// leave any surface of the device's extent behind.
pub trait Display: Sized {
    /// The fixed part of the device: extent, glyph cells, palette.
    spec fn model(&self) -> DeviceModel;

    /// The current pixel contents.
    spec fn surface(&self) -> Surface;

    /// The device's own validity; it must at least make the model and the
    /// surface agree, as [`Display::lemma_wf`] states.
    spec fn wf(&self) -> bool;

    /// A well-formed device has a well-formed model and a surface of the
    /// model's extent.
    proof fn lemma_wf(&self)
        requires
            self.wf(),
        ensures
            self.model().wf(),
            surface_wf(self.model(), self.surface()),
    ;

    /// The pixel extent of the device.
    fn size(&self) -> (s: PixelSize)
        requires
            self.wf(),
        ensures
            s.width == self.model().width,
            s.height == self.model().height,
    ;

    /// The pixel footprint of one glyph cell.
    fn font(&self) -> (f: FontMetrics)
        requires
            self.wf(),
        ensures
            f.width == self.model().cell_width,
            f.height == self.model().cell_height,
    ;

    /// The color a cleared screen shows.
    fn background_color(&self) -> (c: Color)
        requires
            self.wf(),
        ensures
            c == self.model().background_color,
    ;

    /// The color glyphs are drawn in on a normal screen.
    fn text_color(&self) -> (c: Color)
        requires
            self.wf(),
        ensures
            c == self.model().text_color,
    ;

    /// The glyph-cell background color of the panic screen.
    fn panic_background_color(&self) -> (c: Color)
        requires
            self.wf(),
        ensures
            c == self.model().panic_background_color,
    ;

    /// The color glyphs are drawn in on the panic screen.
    fn panic_text_color(&self) -> (c: Color)
        requires
            self.wf(),
        ensures
            c == self.model().panic_text_color,
    ;

    /// Sets every pixel to one color.
    fn clear(&mut self, color: Color) -> (r: Result<(), DrawError>)
        requires
            old(self).wf(),
        ensures
            final(self).wf(),
            final(self).model() == old(self).model(),
            r is Ok ==> final(self).surface() == uniform_surface(old(self).model(), color),
    ;

    /// Stamps a run of glyphs with its top-left corner at pixel `(x, y)`,
    /// painting each cell pixel with the text or background color as the
    /// device's glyph shapes say; pixels outside the surface are dropped.
    fn draw_text(&mut self, text: &[char], x: i32, y: i32, fg: Color, bg: Color) -> (r: Result<
        (),
        DrawError,
    >)
        requires
            old(self).wf(),
        ensures
            final(self).wf(),
            final(self).model() == old(self).model(),
            r is Ok ==> final(self).surface() == render(
                old(self).model(),
                old(self).surface(),
                text@,
                x as int,
                y as int,
                fg,
                bg,
            ),
    ;

    /// Commits buffered pixel state to the hardware; completes before any
    /// further text is queued and leaves the surface unchanged.
    fn flush(&mut self) -> (r: Result<(), DrawError>)
        requires
            old(self).wf(),
        ensures
            final(self).wf(),
            final(self).model() == old(self).model(),
            final(self).surface() == old(self).surface(),
    ;
}

/// The character style a normal screen on this display uses: the device's
/// font with its text color over its background color.
pub fn character_style<D: Display>(display: &D) -> (cs: CharacterStyle)
    requires
        display.wf(),
    ensures
        cs.font.width == display.model().cell_width,
        cs.font.height == display.model().cell_height,
        cs.text_color == display.model().text_color,
        cs.background_color == display.model().background_color,
{
    CharacterStyle {
        font: display.font(),
        text_color: display.text_color(),
        background_color: display.background_color(),
    }
}

/// A full-screen, top-anchored style at the given position, wrapping within
/// the whole surface of this display.
pub fn display_text_style<D: Display>(display: &D, position: PixelPoint) -> (st: DisplayTextStyle)
    requires
        display.wf(),
        -MAX_ORIGIN <= position.x <= MAX_ORIGIN,
        -MAX_ORIGIN <= position.y <= MAX_ORIGIN,
    ensures
        st.wf(),
        st.position == position,
        st.baseline == crate::geometry::Baseline::Top,
        st.character_style == (CharacterStyle {
            font: FontMetrics {
                width: display.model().cell_width,
                height: display.model().cell_height,
            },
            text_color: display.model().text_color,
            background_color: display.model().background_color,
        }),
        st.char_box_size == Some(
            crate::geometry::CharacterBoxSize {
                width: display.model().width / display.model().cell_width,
                height: display.model().height / display.model().cell_height,
            },
        ),
{
    proof {
        display.lemma_wf();
    }
    let size = display.size();
    DisplayTextStyle::new(
        position,
        Some(size),
        character_style(display),
        crate::geometry::Baseline::Top,
    )
}

} // verus!
