//! Tests of the screen sequencer, the button waits and the panic renderer.

use text_console::display::{Display, DrawError};
use text_console::input::{
    ArmState, Button, ButtonId, Buttons, EdgeWaiter, Input, ScriptPin,
};
use text_console::panic_render::panic_display;
use text_console::text_display::TextModeDisplay;
use text_console::writer::CharacterCursor;

type TestScreens = text_console::screens::ScreensGen<
    TextModeDisplay,
    Buttons<ScriptPin, ScriptPin, ScriptPin>,
>;

fn buttons(a: Vec<bool>, b: Vec<bool>, c: Vec<bool>) -> Buttons<ScriptPin, ScriptPin, ScriptPin> {
    Buttons::new(
        Button::new(ScriptPin::new(a)),
        Button::new(ScriptPin::new(b)),
        Button::new(ScriptPin::new(c)),
    )
}

fn row(text: &str, width: usize) -> Vec<u32> {
    let mut v: Vec<u32> = text.chars().map(|c| c as u32).collect();
    v.resize(width, 0);
    v
}

#[test]
fn new_screen_resets_cursor_and_clears() {
    let d = TextModeDisplay::new(8, 3, None);
    let bs = buttons(vec![false, true], vec![false, false], vec![false, false]);
    let mut s = TestScreens::new(d, bs);
    s.write("some left-over content\nmore").unwrap();
    s.new_screen().unwrap();
    assert_eq!(s.position(), CharacterCursor { col: 0, row: 0 });
    let (d, _) = s.free();
    for r in 0..3 {
        assert_eq!(d.row_codes(r), row("", 8));
    }
}

#[test]
fn wait_for_button_blocks_until_press_then_clears() {
    let d = TextModeDisplay::new(32, 3, None);
    // round 0: a press is still held over from before; round 1: all
    // released; round 2: button b presses
    let bs = buttons(
        vec![true, false, false],
        vec![false, false, true],
        vec![false, false, false],
    );
    let mut s = TestScreens::new(d, bs);
    s.write("page one").unwrap();
    s.wait_for_button().unwrap();
    assert_eq!(s.position(), CharacterCursor { col: 0, row: 0 });
    let (d, bs) = s.free();
    for r in 0..3 {
        assert_eq!(d.row_codes(r), row("", 32));
    }
    // every line was sampled exactly three times: the wait did not return
    // before the press of round 2
    let (a, b, c) = bs.free();
    assert_eq!(a.free().position(), 3);
    assert_eq!(b.free().position(), 3);
    assert_eq!(c.free().position(), 3);
}

#[test]
fn single_button_waits_for_release_then_press() {
    let pin = ScriptPin::new(vec![true, true, false, false, true]);
    let mut b = Button::new(pin);
    b.wait_for_button();
    assert_eq!(b.free().position(), 5);
}

#[test]
fn immediate_release_then_press_returns_after_two_rounds() {
    let bs = buttons(vec![false, true], vec![false, false], vec![false, false]);
    let mut bs = bs;
    bs.wait_for_button();
    let (a, b, c) = bs.free();
    assert_eq!(a.free().position(), 2);
    assert_eq!(b.free().position(), 2);
    assert_eq!(c.free().position(), 2);
}

#[test]
fn edge_wait_resolution_disarms_all_sources() {
    let mut w = EdgeWaiter::arm_all();
    assert!(w.is_pending(ButtonId::A));
    assert!(w.is_pending(ButtonId::B));
    assert!(w.is_pending(ButtonId::C));
    let won = w.resolve(ButtonId::B);
    assert_eq!(won, ButtonId::B);
    // immediately after the wait resolves, nothing reads pending
    assert!(!w.is_pending(ButtonId::A));
    assert!(!w.is_pending(ButtonId::B));
    assert!(!w.is_pending(ButtonId::C));
}

#[test]
fn arm_states_compare() {
    assert_eq!(ArmState::Armed, ArmState::Armed);
    assert_ne!(ArmState::Armed, ArmState::Disarmed);
}

#[test]
fn failed_clear_is_surfaced_by_new_screen() {
    let d = TextModeDisplay::new(8, 2, Some(0));
    let bs = buttons(vec![false, true], vec![false, false], vec![false, false]);
    let mut s = TestScreens::new(d, bs);
    assert_eq!(s.new_screen(), Err(DrawError::Device));
}

#[test]
fn failed_flush_is_surfaced_by_wait_for_button() {
    // operation 0 (the prompt draw) succeeds, operation 1 (the flush) fails
    let d = TextModeDisplay::new(32, 2, Some(1));
    let bs = buttons(vec![false, true], vec![false, false], vec![false, false]);
    let mut s = TestScreens::new(d, bs);
    assert_eq!(s.wait_for_button(), Err(DrawError::Device));
}

#[test]
fn panic_screen_renders_inverted_over_existing_content() {
    let mut d = TextModeDisplay::new(8, 2, None);
    panic_display(&mut d, "Hi").unwrap();
    // panic text color is 0 over glyph-cell background 1: each written cell
    // shows the bitwise complement of its character's low eight bits, read
    // against the normal text color
    assert_eq!(d.char_code_at(0, 0), 0xff ^ ('H' as u32));
    assert_eq!(d.char_code_at(1, 0), 0xff ^ ('i' as u32));
    // cells the message never reached keep the background
    assert_eq!(d.char_code_at(2, 0), 0);
    assert_eq!(d.char_code_at(0, 1), 0);
}

#[test]
fn panic_render_reports_device_failure_but_never_panics() {
    let mut d = TextModeDisplay::new(8, 2, Some(0));
    assert_eq!(panic_display(&mut d, "boom"), Err(DrawError::Device));
}

#[test]
fn display_takeover_hands_the_device_out_exactly_once() {
    let d = TextModeDisplay::new(8, 2, None);
    let mut hatch = text_console::panic_render::DisplayTakeover::new(d);
    let first = hatch.seize();
    assert!(first.is_some());
    let mut seized = first.unwrap();
    panic_display(&mut seized, "late failure").unwrap();
    assert_eq!(seized.char_code_at(0, 0), 0xff ^ ('l' as u32));
    // the override is spent: nothing can obtain the display a second time
    assert!(hatch.seize().is_none());
}
