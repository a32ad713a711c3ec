//! The screen sequencer: one display, one input, one page at a time.

use crate::display::{display_text_style, Display, DrawError};
use crate::geometry::PixelPoint;
use crate::input::Input;
use crate::render::{apply_ops, render, uniform_surface};
use crate::writer::{chars_of, write_model, CharacterCursor, DisplayWriter};
use vstd::prelude::*;

verus! {

/// The prompt drawn along the bottom edge before a button wait.
pub open spec fn button_prompt() -> Seq<char> {
    "Press a button to continue..."@
}

/// The page manager: owns the display and the input exclusively, clears and
/// redraws one page at a time, and blocks for a button between pages. The
/// current page's writer lives inside it; text goes through [`ScreensGen::write`].
pub struct ScreensGen<D: Display, I: Input> {
    display: D,
    input: I,
    writer: DisplayWriter,
}

impl<D: Display, I: Input> ScreensGen<D, I> {
    pub closed spec fn spec_display(&self) -> D {
        self.display
    }

    pub closed spec fn spec_input(&self) -> I {
        self.input
    }

    pub closed spec fn spec_writer(&self) -> DisplayWriter {
        self.writer
    }

    pub open spec fn wf(&self) -> bool {
        &&& self.spec_display().wf()
        &&& self.spec_writer().wf()
    }

    /// The writer state a fresh screen starts from: the full-screen style at
    /// the origin, cursor at `(0, 0)`.
    pub open spec fn fresh_writer(&self) -> bool {
        &&& self.spec_writer().spec_cursor() == (CharacterCursor { col: 0, row: 0 })
        &&& self.spec_writer().spec_style().position == (PixelPoint { x: 0, y: 0 })
        &&& self.spec_writer().spec_style().char_box_size == Some(
            crate::geometry::CharacterBoxSize {
                width: self.spec_display().model().width
                    / self.spec_display().model().cell_width,
                height: self.spec_display().model().height
                    / self.spec_display().model().cell_height,
            },
        )
        &&& self.spec_writer().spec_style().character_style.text_color
            == self.spec_display().model().text_color
        &&& self.spec_writer().spec_style().character_style.background_color
            == self.spec_display().model().background_color
        &&& self.spec_writer().spec_style().character_style.font.width
            == self.spec_display().model().cell_width
        &&& self.spec_writer().spec_style().character_style.font.height
            == self.spec_display().model().cell_height
        &&& self.spec_writer().spec_style().baseline == crate::geometry::Baseline::Top
    }

    pub fn new(display: D, input: I) -> (s: ScreensGen<D, I>)
        requires
            display.wf(),
        ensures
            s.wf(),
            s.spec_display() == display,
            s.spec_input() == input,
            s.fresh_writer(),
    {
        let style = display_text_style(&display, PixelPoint::zero());
        let writer = DisplayWriter::new(style);
        ScreensGen { display, input, writer }
    }

    /// Clears the entire display to the background color and hands out a
    /// fresh full-screen page: the cursor is back at `(0, 0)` and every
    /// pixel shows the background color, whatever the display held before.
    /// Fails only if the clear fails.
    pub fn new_screen(&mut self) -> (r: Result<(), DrawError>)
        requires
            old(self).wf(),
        ensures
            final(self).wf(),
            final(self).spec_display().model() == old(self).spec_display().model(),
            final(self).spec_input() == old(self).spec_input(),
            r is Ok ==> ({
                &&& final(self).fresh_writer()
                &&& final(self).spec_display().surface() == uniform_surface(
                    old(self).spec_display().model(),
                    old(self).spec_display().model().background_color,
                )
            }),
    {
        let bg = self.display.background_color();
        let cleared = self.display.clear(bg);
        match cleared {
            Err(e) => Err(e),
            Ok(u) => {
                let style = display_text_style(&self.display, PixelPoint::zero());
                self.writer = DisplayWriter::new(style);
                Ok(())
            },
        }
    }

    /// Writes text on the current page through the page's writer; see
    /// [`DisplayWriter::write_str`] for the exact rendering contract. A
    /// write that records no draw call never consults the device and cannot
    /// fail, and the cursor's row never moves back up.
    pub fn write(&mut self, s: &str) -> (r: Result<(), DrawError>)
        requires
            old(self).wf(),
        ensures
            final(self).wf(),
            final(self).spec_display().model() == old(self).spec_display().model(),
            final(self).spec_input() == old(self).spec_input(),
            final(self).spec_writer().spec_style() == old(self).spec_writer().spec_style(),
            final(self).spec_writer().spec_cursor().row >= old(
                self,
            ).spec_writer().spec_cursor().row,
            write_model(
                old(self).spec_writer().spec_style().char_box_size,
                old(self).spec_writer().spec_cursor(),
                s@,
            ).ops.len() == 0 ==> r is Ok,
            r is Ok ==> ({
                let st = write_model(
                    old(self).spec_writer().spec_style().char_box_size,
                    old(self).spec_writer().spec_cursor(),
                    s@,
                );
                &&& final(self).spec_writer().spec_cursor() == (CharacterCursor {
                    col: st.col,
                    row: st.row,
                })
                &&& final(self).spec_display().surface() == apply_ops(
                    old(self).spec_display().model(),
                    old(self).spec_display().surface(),
                    old(self).spec_writer().spec_style(),
                    st.ops,
                )
            }),
    {
        self.writer.write_str(&mut self.display, s)
    }

    /// The page's current cursor.
    pub fn position(&self) -> (c: CharacterCursor)
        ensures
            c == self.spec_writer().spec_cursor(),
    {
        self.writer.position()
    }

    /// Commits the current page to the hardware.
    pub fn flush(&mut self) -> (r: Result<(), DrawError>)
        requires
            old(self).wf(),
        ensures
            final(self).wf(),
            final(self).spec_display().model() == old(self).spec_display().model(),
            final(self).spec_display().surface() == old(self).spec_display().surface(),
            final(self).spec_input() == old(self).spec_input(),
            final(self).spec_writer() == old(self).spec_writer(),
    {
        self.display.flush()
    }

    /// Draws the fixed prompt bottom-aligned at the left edge, commits the
    /// page, blocks until a button press, then starts a fresh screen: on
    /// success the display is cleared to background and the cursor reset,
    /// exactly as after [`ScreensGen::new_screen`].
    pub fn wait_for_button(&mut self) -> (r: Result<(), DrawError>)
        requires
            old(self).wf(),
            old(self).spec_input().press_ahead(),
        ensures
            final(self).wf(),
            final(self).spec_display().model() == old(self).spec_display().model(),
            r is Ok ==> ({
                &&& final(self).fresh_writer()
                &&& final(self).spec_display().surface() == uniform_surface(
                    old(self).spec_display().model(),
                    old(self).spec_display().model().background_color,
                )
            }),
    {
        let drawn = self.button_message();
        match drawn {
            Err(e) => Err(e),
            Ok(u) => {
                let flushed = self.display.flush();
                match flushed {
                    Err(e) => Err(e),
                    Ok(v) => {
                        self.input.wait_for_button();
                        self.new_screen()
                    },
                }
            },
        }
    }

    /// Draws the prompt along the bottom edge: its glyph cells sit flush
    /// with the display's bottom row of pixels.
    fn button_message(&mut self) -> (r: Result<(), DrawError>)
        requires
            old(self).wf(),
        ensures
            final(self).wf(),
            final(self).spec_display().model() == old(self).spec_display().model(),
            final(self).spec_input() == old(self).spec_input(),
            final(self).spec_writer() == old(self).spec_writer(),
            r is Ok ==> final(self).spec_display().surface() == render(
                old(self).spec_display().model(),
                old(self).spec_display().surface(),
                button_prompt(),
                0,
                old(self).spec_display().model().height
                    - old(self).spec_display().model().cell_height,
                old(self).spec_display().model().text_color,
                old(self).spec_display().model().background_color,
            ),
    {
        proof {
            self.display.lemma_wf();
        }
        let size = self.display.size();
        let font = self.display.font();
        let fg = self.display.text_color();
        let bg = self.display.background_color();
        let y: i32 = size.height as i32 - font.height as i32;
        let prompt = chars_of("Press a button to continue...");
        self.display.draw_text(prompt.as_slice(), 0, y, fg, bg)
    }
}

impl<D: Display, I: Input> ScreensGen<D, I> {
    /// Releases the display and the input.
    pub fn free(self) -> (parts: (D, I))
        ensures
            parts.0 == self.spec_display(),
            parts.1 == self.spec_input(),
    {
        (self.display, self.input)
    }
}

} // verus!
