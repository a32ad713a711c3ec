//! Tests of the wrapping text writer on the text-mode reference display.

use text_console::display::Display;
use text_console::display::{character_style, display_text_style};
use text_console::geometry::{Baseline, PixelPoint, PixelSize};
use text_console::style::DisplayTextStyle;
use text_console::text_display::TextModeDisplay;
use text_console::writer::{CharacterCursor, DisplayWriter};

/// The cell codes a row is expected to show: the text's code points, then
/// background (zero) cells up to the row's width.
fn row(text: &str, width: usize) -> Vec<u32> {
    let mut v: Vec<u32> = text.chars().map(|c| c as u32).collect();
    assert!(v.len() <= width);
    v.resize(width, 0);
    v
}

fn fresh_writer(d: &TextModeDisplay) -> DisplayWriter {
    DisplayWriter::new(display_text_style(d, PixelPoint::zero()))
}

#[test]
fn wrap_soft_then_hard_newline() {
    // box = 10 x 3 characters
    let mut d = TextModeDisplay::new(10, 3, None);
    let mut w = fresh_writer(&d);
    w.write_str(&mut d, "Hello World!\nBye").unwrap();
    // soft newline at column 10, hard newline after "d!", no truncation
    assert_eq!(d.row_codes(0), row("Hello Worl", 10));
    assert_eq!(d.row_codes(1), row("d!", 10));
    assert_eq!(d.row_codes(2), row("Bye", 10));
    assert_eq!(w.position(), CharacterCursor { col: 3, row: 2 });
}

#[test]
fn height_one_drops_everything_after_break() {
    // box height = 1: the hard newline moves past the bottom, "CD" is dropped
    let mut d = TextModeDisplay::new(10, 1, None);
    let mut w = fresh_writer(&d);
    w.write_str(&mut d, "AB\nCD").unwrap();
    assert_eq!(d.row_codes(0), row("AB", 10));
    assert_eq!(w.position(), CharacterCursor { col: 0, row: 1 });
}

#[test]
fn wrap_row_count_uneven() {
    // 10 characters in width 4: ceil(10/4) = 3 rows of 4, 4, 2
    let mut d = TextModeDisplay::new(4, 8, None);
    let mut w = fresh_writer(&d);
    w.write_str(&mut d, "abcdefghij").unwrap();
    assert_eq!(d.row_codes(0), row("abcd", 4));
    assert_eq!(d.row_codes(1), row("efgh", 4));
    assert_eq!(d.row_codes(2), row("ij", 4));
    assert_eq!(d.row_codes(3), row("", 4));
    assert_eq!(w.position(), CharacterCursor { col: 2, row: 2 });
}

#[test]
fn wrap_row_count_even_division() {
    // 8 characters in width 4: 2 rows, the last exactly full, cursor wrapped
    let mut d = TextModeDisplay::new(4, 8, None);
    let mut w = fresh_writer(&d);
    w.write_str(&mut d, "abcdefgh").unwrap();
    assert_eq!(d.row_codes(0), row("abcd", 4));
    assert_eq!(d.row_codes(1), row("efgh", 4));
    assert_eq!(d.row_codes(2), row("", 4));
    assert_eq!(w.position(), CharacterCursor { col: 0, row: 2 });
}

#[test]
fn trailing_newline_advances_once_more() {
    // two breaks inside + the trailing one: row advances = 3 with no box
    let mut d = TextModeDisplay::new(16, 8, None);
    let style = DisplayTextStyle::new(
        PixelPoint::zero(),
        None,
        character_style(&d),
        Baseline::Top,
    );
    let mut w = DisplayWriter::new(style);
    w.write_str(&mut d, "a\nb\nc\n").unwrap();
    assert_eq!(w.position(), CharacterCursor { col: 0, row: 3 });
}

#[test]
fn empty_write_changes_nothing() {
    let mut d = TextModeDisplay::new(8, 2, None);
    let mut w = fresh_writer(&d);
    w.write_str(&mut d, "").unwrap();
    assert_eq!(w.position(), CharacterCursor { col: 0, row: 0 });
    assert_eq!(d.row_codes(0), row("", 8));
    assert_eq!(d.row_codes(1), row("", 8));
}

#[test]
fn carriage_return_before_line_feed_is_stripped() {
    let mut d = TextModeDisplay::new(8, 4, None);
    let mut w = fresh_writer(&d);
    w.write_str(&mut d, "AB\r\nCD").unwrap();
    assert_eq!(d.row_codes(0), row("AB", 8));
    assert_eq!(d.row_codes(1), row("CD", 8));
    assert_eq!(w.position(), CharacterCursor { col: 2, row: 1 });
}

#[test]
fn lone_carriage_return_is_an_ordinary_character() {
    let mut d = TextModeDisplay::new(8, 4, None);
    let mut w = fresh_writer(&d);
    w.write_str(&mut d, "A\rB").unwrap();
    let mut expected = vec!['A' as u32, '\r' as u32, 'B' as u32];
    expected.resize(8, 0);
    assert_eq!(d.row_codes(0), expected);
}

#[test]
fn multi_byte_characters_count_as_one_column() {
    let mut d = TextModeDisplay::new(4, 4, None);
    let mut w = fresh_writer(&d);
    w.write_str(&mut d, "\u{e9}t\u{e9}").unwrap();
    assert_eq!(
        d.row_codes(0),
        vec![0xe9, 't' as u32, 0xe9, 0]
    );
    assert_eq!(w.position(), CharacterCursor { col: 3, row: 0 });
}

#[test]
fn empty_lines_keep_advancing_rows_past_the_bottom() {
    // empty lines draw nothing, so the cursor may pass the bottom while
    // nothing more becomes visible
    let mut d = TextModeDisplay::new(8, 1, None);
    let mut w = fresh_writer(&d);
    w.write_str(&mut d, "A\n\n\n").unwrap();
    assert_eq!(d.row_codes(0), row("A", 8));
    assert_eq!(w.position(), CharacterCursor { col: 0, row: 3 });
}

#[test]
fn truncated_writer_stays_silent() {
    // once the cursor passed the bottom, later writes draw nothing at all
    let mut d = TextModeDisplay::new(4, 1, None);
    let mut w = fresh_writer(&d);
    w.write_str(&mut d, "AB\nCD").unwrap();
    assert_eq!(d.row_codes(0), row("AB", 4));
    w.write_str(&mut d, "XYZW").unwrap();
    assert_eq!(d.row_codes(0), row("AB", 4));
}

#[test]
fn write_surfaces_device_error_and_keeps_drawn_pixels() {
    // the device fails from the second operation on; the first row's draw
    // survives, the error is surfaced
    let mut d = TextModeDisplay::new(4, 4, Some(1));
    let mut w = fresh_writer(&d);
    let r = w.write_str(&mut d, "abcdefgh");
    assert!(r.is_err());
    assert_eq!(d.row_codes(0), row("abcd", 4));
    assert_eq!(d.row_codes(1), row("", 4));
}

#[test]
fn style_box_is_floor_divided() {
    let style = DisplayTextStyle::new(
        PixelPoint::new(3, 5),
        Some(PixelSize::new(25, 13)),
        character_style(&TextModeDisplay::new(1, 1, None)),
        Baseline::Top,
    );
    // the text-mode display's glyph cell is 8 x 1
    let cb = style.char_box_size.unwrap();
    assert_eq!(cb.width, 3);
    assert_eq!(cb.height, 13);
}

#[test]
fn unbounded_box_from_absent_pixel_box() {
    let style = DisplayTextStyle::new(
        PixelPoint::zero(),
        None,
        character_style(&TextModeDisplay::new(1, 1, None)),
        Baseline::Top,
    );
    assert!(style.char_box_size.is_none());
}

#[test]
fn zero_width_box_draws_nothing_and_descends() {
    // a display narrower than one glyph cell gives a zero-width box: rows
    // advance until the bottom, nothing becomes visible
    let mut d = TextModeDisplay::new(0, 2, None);
    let mut w = fresh_writer(&d);
    w.write_str(&mut d, "AB").unwrap();
    assert_eq!(w.position(), CharacterCursor { col: 0, row: 2 });
}

#[test]
fn negative_origin_clips_on_the_left() {
    let mut d = TextModeDisplay::new(4, 1, None);
    // one full cell left of the surface: 'A' falls off, 'B' lands on cell 0
    let style = DisplayTextStyle::new(
        PixelPoint::new(-8, 0),
        None,
        character_style(&d),
        Baseline::Top,
    );
    let mut w = DisplayWriter::new(style);
    w.write_str(&mut d, "AB").unwrap();
    assert_eq!(d.row_codes(0), row("B", 4));
}

#[test]
fn drawless_write_never_consults_a_failing_device() {
    // every device operation would fail, but writes that record no draw
    // call never reach the device and succeed
    let mut d = TextModeDisplay::new(4, 1, Some(0));
    let mut w = fresh_writer(&d);
    w.write_str(&mut d, "").unwrap();
    w.write_str(&mut d, "\n\n").unwrap();
    assert_eq!(w.position(), CharacterCursor { col: 0, row: 2 });
    // the cursor now sits below the box: even real text draws nothing
    w.write_str(&mut d, "XYZ").unwrap();
    assert_eq!(w.position(), CharacterCursor { col: 0, row: 2 });
}
