//! Tests of the display backed by the embedded-graphics four-by-six font.

use embedded_graphics::mock_display::MockDisplay;
use embedded_graphics::mono_font::ascii::FONT_4X6;
use embedded_graphics::mono_font::MonoTextStyle;
use embedded_graphics::pixelcolor::BinaryColor;
use embedded_graphics::prelude::{Drawable, Point};
use embedded_graphics::text::{Baseline, Text, TextStyleBuilder};
use text_console::display::{display_text_style, Display};
use text_console::geometry::PixelPoint;
use text_console::mono_display::MonoFontDisplay;
use text_console::writer::DisplayWriter;

/// The glyph pattern the library's display shows for one character drawn at
/// the top-left cell.
fn drawn_cell(c: char) -> Vec<Vec<bool>> {
    let mut d = MonoFontDisplay::new(4, 1);
    let mut w = DisplayWriter::new(display_text_style(&d, PixelPoint::zero()));
    let mut s = String::new();
    s.push(c);
    w.write_str(&mut d, &s).unwrap();
    (0..6u32).map(|y| (0..4u32).map(|x| d.pixel(x, y).value == 1).collect()).collect()
}

/// The same glyph rendered by embedded-graphics directly.
fn reference_cell(c: char) -> Vec<Vec<bool>> {
    let mut d = MockDisplay::<BinaryColor>::new();
    d.set_allow_out_of_bounds_drawing(true);
    d.set_allow_overdraw(true);
    let style = MonoTextStyle::new(&FONT_4X6, BinaryColor::On);
    let ts = TextStyleBuilder::new().baseline(Baseline::Top).build();
    let mut buf = [0u8; 4];
    Text::with_text_style(c.encode_utf8(&mut buf), Point::zero(), style, ts).draw(&mut d).unwrap();
    (0..6i32)
        .map(|y| {
            (0..4i32)
                .map(|x| d.get_pixel(Point::new(x, y)) == Some(BinaryColor::On))
                .collect()
        })
        .collect()
}

#[test]
fn glyphs_match_the_font() {
    for c in ['A', 'g', '!', '0', ' '] {
        assert_eq!(drawn_cell(c), reference_cell(c), "glyph {:?}", c);
    }
}

#[test]
fn drawn_text_is_not_blank() {
    // a drawn letter must light pixels; a blank must not
    let a = drawn_cell('A');
    assert!(a.iter().flatten().any(|&p| p));
    let blank = drawn_cell(' ');
    assert!(blank.iter().flatten().all(|&p| !p));
    // and two different letters give two different patterns
    assert_ne!(drawn_cell('A'), drawn_cell('B'));
}

#[test]
fn wrapping_places_cells_on_the_grid() {
    let mut d = MonoFontDisplay::new(2, 2);
    let mut w = DisplayWriter::new(display_text_style(&d, PixelPoint::zero()));
    w.write_str(&mut d, "ABCD").unwrap();
    // cell (1, 1) holds 'D': compare against the reference glyph
    let reference = reference_cell('D');
    for y in 0..6u32 {
        for x in 0..4u32 {
            assert_eq!(
                d.pixel(4 + x, 6 + y).value == 1,
                reference[y as usize][x as usize],
            );
        }
    }
}
