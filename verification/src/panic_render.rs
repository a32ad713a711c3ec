//! The panic-safe renderer: the one-shot failure-path screen.

use crate::display::{Display, DrawError};
use crate::geometry::{Baseline, CharacterBoxSize, PixelPoint, PixelSize};
use crate::render::apply_ops;
use crate::style::{CharacterStyle, DisplayTextStyle};
use crate::writer::{write_model, CharacterCursor, DisplayWriter};
use vstd::prelude::*;

verus! {

/// The deliberate, single-use, last-resort override the failure handler
/// obtains the display hardware through: normal exclusive ownership may be
/// unreachable or inconsistent at crash time, so the handler seizes the
/// device from this cell instead. Seizing succeeds exactly once; the cell is
/// not ordinary shared state and nothing hands the device back.
pub struct DisplayTakeover<D: Display> {
    device: Option<D>,
}

impl<D: Display> DisplayTakeover<D> {
    pub closed spec fn spec_device(&self) -> Option<D> {
        self.device
    }

    /// Whether the one permitted seizure has already happened.
    pub open spec fn spent(&self) -> bool {
        self.spec_device() is None
    }

    pub fn new(device: D) -> (t: DisplayTakeover<D>)
        ensures
            t.spec_device() == Some(device),
            !t.spent(),
    {
        DisplayTakeover { device: Some(device) }
    }

    /// Seizes the display, bypassing normal ownership: the first call hands
    /// the device out and spends the cell for the remainder of the process;
    /// every later call yields nothing.
    pub fn seize(&mut self) -> (r: Option<D>)
        ensures
            r == old(self).spec_device(),
            final(self).spent(),
    {
        self.device.take()
    }
}

/// The style the failure path renders with: full screen, top-left origin,
/// left-aligned, top baseline, and the panic color pair, so that the crash
/// text stands inverted against whatever the screen held.
pub fn panic_text_style<D: Display>(display: &D) -> (st: DisplayTextStyle)
    requires
        display.wf(),
    ensures
        st.wf(),
        st.position == (PixelPoint { x: 0, y: 0 }),
        st.baseline == Baseline::Top,
        st.character_style == (CharacterStyle {
            font: crate::geometry::FontMetrics {
                width: display.model().cell_width,
                height: display.model().cell_height,
            },
            text_color: display.model().panic_text_color,
            background_color: display.model().panic_background_color,
        }),
        st.char_box_size == Some(
            CharacterBoxSize {
                width: display.model().width / display.model().cell_width,
                height: display.model().height / display.model().cell_height,
            },
        ),
{
    proof {
        display.lemma_wf();
    }
    let size = display.size();
    let font = display.font();
    let character_style = CharacterStyle {
        font,
        text_color: display.panic_text_color(),
        background_color: display.panic_background_color(),
    };
    DisplayTextStyle::new(PixelPoint::zero(), Some(size), character_style, Baseline::Top)
}

/// Renders the failure description once, over whatever the screen holds:
/// builds the inverted full-screen style, writes the message from `(0, 0)`
/// through the ordinary writer, and flushes. Device errors cannot be
/// recovered from here, so the flush is attempted even after a failed
/// write and the first error is merely reported; the caller of the failure
/// path ignores it. On success the surface shows exactly the written
/// message, clipped to the screen's character box.
pub fn panic_display<D: Display>(display: &mut D, message: &str) -> (r: Result<(), DrawError>)
    requires
        old(display).wf(),
    ensures
        final(display).wf(),
        final(display).model() == old(display).model(),
        r is Ok ==> ({
            let st = write_model(
                Some(
                    CharacterBoxSize {
                        width: old(display).model().width / old(display).model().cell_width,
                        height: old(display).model().height / old(display).model().cell_height,
                    },
                ),
                CharacterCursor { col: 0, row: 0 },
                message@,
            );
            final(display).surface() == apply_ops(
                old(display).model(),
                old(display).surface(),
                DisplayTextStyle {
                    position: PixelPoint { x: 0, y: 0 },
                    char_box_size: Some(
                        CharacterBoxSize {
                            width: old(display).model().width / old(display).model().cell_width,
                            height: old(display).model().height
                                / old(display).model().cell_height,
                        },
                    ),
                    character_style: CharacterStyle {
                        font: crate::geometry::FontMetrics {
                            width: old(display).model().cell_width,
                            height: old(display).model().cell_height,
                        },
                        text_color: old(display).model().panic_text_color,
                        background_color: old(display).model().panic_background_color,
                    },
                    baseline: Baseline::Top,
                },
                st.ops,
            )
        }),
{
    let style = panic_text_style(display);
    let mut writer = DisplayWriter::new(style);
    let wrote = writer.write_str(display, message);
    let flushed = writer.flush(display);
    match wrote {
        Err(e) => Err(e),
        Ok(u) => flushed,
    }
}

} // verus!
