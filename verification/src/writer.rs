//! The incremental text writer: wrapping, line breaks and box clipping.

use crate::display::{Display, DrawError};
use crate::geometry::{Baseline, CharacterBoxSize};
use crate::render::{apply_ops, column_px, lemma_apply_ops_push, row_py, DrawOp};
use crate::style::DisplayTextStyle;
use vstd::prelude::*;
use vstd::string::StrSliceExecFns;

verus! {

/// The writer's current position in character space, zero-based.
#[derive(Clone, Copy, PartialEq, Eq, Structural, Debug)]
pub struct CharacterCursor {
    pub col: usize,
    pub row: usize,
}

// ---------------------------------------------------------------------------
// Line splitting
// ---------------------------------------------------------------------------
/// Index of the first line feed, or the length if there is none.
pub open spec fn find_newline(s: Seq<char>) -> int
    decreases s.len(),
{
    if s.len() == 0 {
        0
    } else if s[0] == '\n' {
        0
    } else {
        1 + find_newline(s.drop_first())
    }
}

pub proof fn lemma_find_newline(s: Seq<char>)
    ensures
        0 <= find_newline(s) <= s.len(),
        find_newline(s) < s.len() ==> s[find_newline(s)] == '\n',
        forall|i: int| 0 <= i < find_newline(s) ==> s[i] != '\n',
    decreases s.len(),
{
    if s.len() > 0 && s[0] != '\n' {
        lemma_find_newline(s.drop_first());
        assert forall|i: int| 0 <= i < find_newline(s) implies s[i] != '\n' by {
            if i > 0 {
                assert(s.drop_first()[i - 1] == s[i]);
            }
        }
    }
}

/// `find_newline` is the only index with its characterization.
pub proof fn lemma_find_newline_is(s: Seq<char>, x: int)
    requires
        0 <= x <= s.len(),
        forall|i: int| 0 <= i < x ==> s[i] != '\n',
        x < s.len() ==> s[x] == '\n',
    ensures
        find_newline(s) == x,
    decreases s.len(),
{
    if s.len() > 0 && s[0] != '\n' {
        assert(x != 0);
        assert forall|i: int| 0 <= i < x - 1 implies s.drop_first()[i] != '\n' by {
            assert(s.drop_first()[i] == s[i + 1]);
        }
        lemma_find_newline_is(s.drop_first(), x - 1);
    }
}

/// A line's content: the segment before its line feed, with one carriage
/// return directly before the line feed stripped.
pub open spec fn strip_trailing_cr(line: Seq<char>) -> Seq<char> {
    if line.len() > 0 && line[line.len() - 1] == '\r' {
        line.drop_last()
    } else {
        line
    }
}

/// The input split into lines: segments separated by line feeds (a carriage
/// return directly before a line feed belongs to the separator), with no
/// empty segment after a trailing line feed.
pub open spec fn split_lines(s: Seq<char>) -> Seq<Seq<char>>
    decreases s.len(),
    via split_lines_decreases
{
    if s.len() == 0 {
        Seq::empty()
    } else {
        let e = find_newline(s);
        if e == s.len() {
            seq![s]
        } else {
            seq![strip_trailing_cr(s.take(e))] + split_lines(s.skip(e + 1))
        }
    }
}

#[via_fn]
proof fn split_lines_decreases(s: Seq<char>) {
    lemma_find_newline(s);
}

/// The number of line feeds in the input.
pub open spec fn count_newlines(s: Seq<char>) -> int
    decreases s.len(),
{
    if s.len() == 0 {
        0
    } else {
        (if s[0] == '\n' {
            1int
        } else {
            0int
        }) + count_newlines(s.drop_first())
    }
}

/// Whether the input's final character is a line feed.
pub open spec fn ends_with_newline(s: Seq<char>) -> bool {
    s.len() > 0 && s[s.len() - 1] == '\n'
}

// ---------------------------------------------------------------------------
// The write model
// ---------------------------------------------------------------------------
/// The state a write pass carries: the cursor, the draw calls made so far,
/// and whether the pass has run off the bottom of the box and abandoned the
/// rest of its input.
pub ghost struct WriteState {
    pub col: usize,
    pub row: usize,
    pub ops: Seq<DrawOp>,
    pub stopped: bool,
}

/// A row advance that stays put once the row counter is exhausted.
pub open spec fn sat_inc_row(row: usize) -> usize {
    if row == usize::MAX {
        row
    } else {
        (row + 1) as usize
    }
}

/// A column advance that stays put once the column counter is exhausted.
pub open spec fn sat_add_col(col: usize, k: int) -> usize {
    if col + k > usize::MAX {
        usize::MAX
    } else {
        (col + k) as usize
    }
}

/// A newline: back to column zero, one row down.
pub open spec fn apply_newline(st: WriteState) -> WriteState {
    WriteState { col: 0, row: sat_inc_row(st.row), ops: st.ops, stopped: st.stopped }
}

pub open spec fn rows_left(bx: Option<CharacterBoxSize>, st: WriteState) -> int {
    match bx {
        Some(cb) => if st.row < cb.height {
            cb.height - st.row
        } else {
            0
        },
        None => 0,
    }
}

/// One line rendered from the current cursor: repeatedly slice what still
/// fits on the current row, record the draw, advance the cursor, and wrap
/// with a soft newline when the row fills; with a bounded box, reaching the
/// bottom abandons everything that remains.
pub open spec fn write_line(
    bx: Option<CharacterBoxSize>,
    st: WriteState,
    line: Seq<char>,
) -> WriteState
    decreases rows_left(bx, st), line.len(),
{
    if st.stopped || line.len() == 0 {
        st
    } else {
        match bx {
            None => WriteState {
                col: sat_add_col(st.col, line.len() as int),
                row: st.row,
                ops: st.ops.push(DrawOp { col: st.col, row: st.row, text: line }),
                stopped: false,
            },
            Some(cb) => {
                if st.row >= cb.height {
                    WriteState { col: st.col, row: st.row, ops: st.ops, stopped: true }
                } else {
                    let rem = if st.col < cb.width {
                        cb.width - st.col
                    } else {
                        0
                    };
                    let k = if rem <= line.len() {
                        rem
                    } else {
                        line.len() as int
                    };
                    let st1 = WriteState {
                        col: st.col,
                        row: st.row,
                        ops: st.ops.push(DrawOp { col: st.col, row: st.row, text: line.take(k) }),
                        stopped: false,
                    };
                    let st2 = if st.col + k >= cb.width {
                        apply_newline(st1)
                    } else {
                        WriteState {
                            col: (st.col + k) as usize,
                            row: st1.row,
                            ops: st1.ops,
                            stopped: false,
                        }
                    };
                    write_line(bx, st2, line.skip(k))
                }
            },
        }
    }
}

/// A sequence of lines rendered in order, with a hard newline before every
/// line but the first; a stopped pass renders nothing further.
pub open spec fn write_seq(
    bx: Option<CharacterBoxSize>,
    st: WriteState,
    lines: Seq<Seq<char>>,
    first: bool,
) -> WriteState
    decreases lines.len(),
{
    if st.stopped || lines.len() == 0 {
        st
    } else {
        let stn = if first {
            st
        } else {
            apply_newline(st)
        };
        write_seq(bx, write_line(bx, stn, lines[0]), lines.drop_first(), false)
    }
}

/// What one `write` call does, from a cursor and an input: render the split
/// lines, then perform the one extra newline a trailing line feed calls for
/// (line splitting yields no segment after it).
pub open spec fn write_model(
    bx: Option<CharacterBoxSize>,
    cursor: CharacterCursor,
    s: Seq<char>,
) -> WriteState {
    let st0 = WriteState {
        col: cursor.col,
        row: cursor.row,
        ops: Seq::empty(),
        stopped: false,
    };
    let st1 = write_seq(bx, st0, split_lines(s), true);
    if ends_with_newline(s) {
        apply_newline(st1)
    } else {
        st1
    }
}

// ---------------------------------------------------------------------------
// Facts about the model
// ---------------------------------------------------------------------------
/// The column invariant a writer maintains: inside a bounded box the column
/// never passes the width, and reaches it only when the box has no width.
pub open spec fn col_within(bx: Option<CharacterBoxSize>, col: usize) -> bool {
    match bx {
        Some(cb) => col <= cb.width && (cb.width > 0 ==> col < cb.width),
        None => true,
    }
}

/// A pass only appends draw calls: the recorded list never shrinks.
pub proof fn lemma_write_line_ops_len(
    bx: Option<CharacterBoxSize>,
    st: WriteState,
    line: Seq<char>,
)
    ensures
        write_line(bx, st, line).ops.len() >= st.ops.len(),
    decreases rows_left(bx, st), line.len(),
{
    if !(st.stopped || line.len() == 0) {
        match bx {
            None => {},
            Some(cb) => {
                if st.row < cb.height {
                    let rem = if st.col < cb.width {
                        cb.width - st.col
                    } else {
                        0
                    };
                    let k = if rem <= line.len() {
                        rem
                    } else {
                        line.len() as int
                    };
                    let st1 = WriteState {
                        col: st.col,
                        row: st.row,
                        ops: st.ops.push(DrawOp { col: st.col, row: st.row, text: line.take(k) }),
                        stopped: false,
                    };
                    let st2 = if st.col + k >= cb.width {
                        apply_newline(st1)
                    } else {
                        WriteState {
                            col: (st.col + k) as usize,
                            row: st1.row,
                            ops: st1.ops,
                            stopped: false,
                        }
                    };
                    lemma_write_line_ops_len(bx, st2, line.skip(k));
                }
            },
        }
    }
}

pub proof fn lemma_write_seq_ops_len(
    bx: Option<CharacterBoxSize>,
    st: WriteState,
    lines: Seq<Seq<char>>,
    first: bool,
)
    ensures
        write_seq(bx, st, lines, first).ops.len() >= st.ops.len(),
    decreases lines.len(),
{
    if !(st.stopped || lines.len() == 0) {
        let stn = if first {
            st
        } else {
            apply_newline(st)
        };
        lemma_write_line_ops_len(bx, stn, lines[0]);
        lemma_write_seq_ops_len(bx, write_line(bx, stn, lines[0]), lines.drop_first(), false);
    }
}

/// A line that still has characters, from a live cursor inside the box,
/// records at least one draw call.
pub proof fn lemma_write_line_draws(
    bx: Option<CharacterBoxSize>,
    st: WriteState,
    line: Seq<char>,
)
    requires
        !st.stopped,
        line.len() > 0,
        bx matches Some(cb) ==> st.row < cb.height,
    ensures
        write_line(bx, st, line).ops.len() > st.ops.len(),
{
    match bx {
        None => {},
        Some(cb) => {
            let rem = if st.col < cb.width {
                cb.width - st.col
            } else {
                0
            };
            let k = if rem <= line.len() {
                rem
            } else {
                line.len() as int
            };
            let st1 = WriteState {
                col: st.col,
                row: st.row,
                ops: st.ops.push(DrawOp { col: st.col, row: st.row, text: line.take(k) }),
                stopped: false,
            };
            let st2 = if st.col + k >= cb.width {
                apply_newline(st1)
            } else {
                WriteState {
                    col: (st.col + k) as usize,
                    row: st1.row,
                    ops: st1.ops,
                    stopped: false,
                }
            };
            lemma_write_line_ops_len(bx, st2, line.skip(k));
        },
    }
}

// ---------------------------------------------------------------------------
// Executable helpers
// ---------------------------------------------------------------------------
/// The characters of a string, in order.
pub(crate) fn chars_of(s: &str) -> (v: Vec<char>)
    ensures
        v@ == s@,
{
    let n = s.unicode_len();
    let mut v: Vec<char> = Vec::new();
    let mut i: usize = 0;
    while i < n
        invariant
            n == s@.len(),
            i <= n,
            v@.len() == i,
            forall|j: int| 0 <= j < i ==> v@[j] == s@[j],
        decreases n - i,
    {
        let c = s.get_char(i);
        v.push(c);
        i = i + 1;
    }
    proof {
        assert(v@ =~= s@);
    }
    v
}

/// The lines of `spans` as segments of `s`.
pub open spec fn spans_lines(s: Seq<char>, spans: Seq<(usize, usize)>) -> Seq<Seq<char>> {
    Seq::new(spans.len(), |i: int| s.subrange(spans[i].0 as int, spans[i].1 as int))
}

/// The index spans of the input's lines, matching [`split_lines`].
fn line_spans(cs: &Vec<char>) -> (spans: Vec<(usize, usize)>)
    ensures
        spans_lines(cs@, spans@) == split_lines(cs@),
        forall|i: int|
            0 <= i < spans@.len() ==> (#[trigger] spans@[i]).0 <= spans@[i].1 <= cs@.len(),
{
    let n = cs.len();
    let mut spans: Vec<(usize, usize)> = Vec::new();
    let mut start: usize = 0;
    let mut done: bool = false;
    let ghost total = split_lines(cs@);
    proof {
        assert(cs@.skip(0) =~= cs@);
        assert(spans_lines(cs@, spans@) =~= Seq::<Seq<char>>::empty());
        assert(spans_lines(cs@, spans@) + split_lines(cs@) =~= split_lines(cs@));
    }
    while !done && start < n
        invariant
            n == cs@.len(),
            start <= n,
            forall|i: int|
                0 <= i < spans@.len() ==> (#[trigger] spans@[i]).0 <= spans@[i].1 <= cs@.len(),
            total == spans_lines(cs@, spans@) + (if done {
                Seq::<Seq<char>>::empty()
            } else {
                split_lines(cs@.skip(start as int))
            }),
        decreases n - start + (if done {
            0int
        } else {
            1int
        }),
    {
        let ghost suffix = cs@.skip(start as int);
        let mut e: usize = start;
        while e < n && cs[e] != '\n'
            invariant
                n == cs@.len(),
                start <= e <= n,
                forall|i: int| start <= i < e ==> cs@[i] != '\n',
            decreases n - e,
        {
            e = e + 1;
        }
        proof {
            assert forall|i: int| 0 <= i < e - start implies suffix[i] != '\n' by {
                assert(suffix[i] == cs@[start + i]);
            }
            if e < n {
                assert(suffix[e - start] == cs@[e as int]);
            }
            lemma_find_newline_is(suffix, e - start);
        }
        if e == n {
            spans.push((start, n));
            done = true;
            proof {
                assert(suffix =~= cs@.subrange(start as int, n as int));
                assert(split_lines(suffix) == seq![suffix]);
                assert(spans_lines(cs@, spans@) =~= spans_lines(cs@, spans@.drop_last()).push(
                    suffix,
                ));
                assert(spans_lines(cs@, spans@.drop_last()) + split_lines(suffix)
                    =~= spans_lines(cs@, spans@));
            }
        } else {
            let content_end: usize = if e > start && cs[e - 1] == '\r' {
                e - 1
            } else {
                e
            };
            spans.push((start, content_end));
            proof {
                let head = strip_trailing_cr(suffix.take(e - start));
                assert(suffix.take(e - start) =~= cs@.subrange(start as int, e as int));
                if e > start && cs@[e - 1] == '\r' {
                    assert(head =~= cs@.subrange(start as int, e - 1));
                } else {
                    assert(head =~= cs@.subrange(start as int, e as int));
                }
                assert(cs@.subrange(start as int, content_end as int) == head);
                assert(suffix.skip(e - start + 1) =~= cs@.skip(e + 1));
                assert(split_lines(suffix) == seq![head] + split_lines(cs@.skip(e + 1)));
                assert(spans_lines(cs@, spans@) =~= spans_lines(cs@, spans@.drop_last()).push(
                    head,
                ));
                assert(spans_lines(cs@, spans@.drop_last()) + (seq![head] + split_lines(
                    cs@.skip(e + 1),
                )) =~= spans_lines(cs@, spans@) + split_lines(cs@.skip(e + 1)));
            }
            start = e + 1;
        }
    }
    proof {
        if !done {
            assert(cs@.skip(start as int) =~= Seq::<char>::empty());
            assert(split_lines(cs@.skip(start as int)) =~= Seq::<Seq<char>>::empty());
        }
        assert(total =~= spans_lines(cs@, spans@));
    }
    spans
}

// ---------------------------------------------------------------------------
// The writer
// ---------------------------------------------------------------------------
/// A character-space position at or past this limit lies, under every
/// well-formed style, entirely right of or below every supported surface;
/// the writer records such a draw but skips the device call.
pub const OFFSCREEN_LIMIT: usize = 1048576;

/// The stateful incremental renderer: one immutable descriptor and one
/// cursor. The display is handed to each call, so a writer owns no device.
pub struct DisplayWriter {
    style: DisplayTextStyle,
    cursor: CharacterCursor,
}

impl DisplayWriter {
    pub closed spec fn spec_style(&self) -> DisplayTextStyle {
        self.style
    }

    pub closed spec fn spec_cursor(&self) -> CharacterCursor {
        self.cursor
    }

    /// The descriptor is well formed and the cursor respects its box.
    pub open spec fn wf(&self) -> bool {
        &&& self.spec_style().wf()
        &&& col_within(self.spec_style().char_box_size, self.spec_cursor().col)
    }

    /// A fresh writer for a descriptor, with the cursor at the origin.
    pub fn new(style: DisplayTextStyle) -> (w: DisplayWriter)
        requires
            style.wf(),
        ensures
            w.wf(),
            w.spec_style() == style,
            w.spec_cursor() == (CharacterCursor { col: 0, row: 0 }),
    {
        DisplayWriter { style, cursor: CharacterCursor { col: 0, row: 0 } }
    }

    /// The current cursor.
    pub fn position(&self) -> (c: CharacterCursor)
        ensures
            c == self.spec_cursor(),
    {
        self.cursor
    }

    /// The writer's descriptor.
    pub fn text_style(&self) -> (st: DisplayTextStyle)
        ensures
            st == self.spec_style(),
    {
        self.style
    }

    /// Delegates unchanged to the display's flush.
    pub fn flush<D: Display>(&mut self, display: &mut D) -> (r: Result<(), DrawError>)
        requires
            old(display).wf(),
        ensures
            *final(self) == *old(self),
            final(display).wf(),
            final(display).model() == old(display).model(),
            final(display).surface() == old(display).surface(),
    {
        display.flush()
    }

    /// Writes text at the cursor: input lines are rendered in order with a
    /// hard newline before each line after the first, each line is sliced at
    /// character boundaries to what still fits on the current row and wrapped
    /// with a soft newline when the row fills, and a trailing line feed adds
    /// one extra newline. Inside a bounded box, reaching the bottom silently
    /// abandons all remaining output for this call. On success the cursor and
    /// the display surface are exactly what [`write_model`] says; a write
    /// that records no draw call (an empty input, line breaks alone, or a
    /// cursor already past the bottom) never consults the device and cannot
    /// fail. A device failure is surfaced at once, with drawn pixels left in
    /// place and the progress the cursor had made kept; the row never moves
    /// back up. One draw is an exception to consulting the device: a run
    /// whose character position lies at or beyond [`OFFSCREEN_LIMIT`] cannot
    /// touch any supported surface, so the writer records it in the model
    /// but does not hand it to the device.
    #[verifier::loop_isolation(false)]
    #[verifier::rlimit(100)]
    pub fn write_str<D: Display>(&mut self, display: &mut D, s: &str) -> (r: Result<
        (),
        DrawError,
    >)
        requires
            old(self).wf(),
            old(display).wf(),
        ensures
            final(self).wf(),
            final(display).wf(),
            final(display).model() == old(display).model(),
            final(self).spec_style() == old(self).spec_style(),
            final(self).spec_cursor().row >= old(self).spec_cursor().row,
            write_model(old(self).spec_style().char_box_size, old(self).spec_cursor(), s@)
                .ops.len() == 0 ==> r is Ok,
            r is Ok ==> ({
                let st = write_model(
                    old(self).spec_style().char_box_size,
                    old(self).spec_cursor(),
                    s@,
                );
                &&& final(self).spec_cursor() == (CharacterCursor { col: st.col, row: st.row })
                &&& final(display).surface() == apply_ops(
                    old(display).model(),
                    old(display).surface(),
                    old(self).spec_style(),
                    st.ops,
                )
            }),
    {
        let ghost style0 = self.style;
        let ghost bx = self.style.char_box_size;
        let ghost cur0 = self.cursor;
        let ghost m0 = display.model();
        let ghost surf0 = display.surface();
        let ghost target = write_model(bx, cur0, s@);

        let cs = chars_of(s);
        let spans = line_spans(&cs);
        let ghost lines = split_lines(cs@);
        let ghost st0 = WriteState {
            col: cur0.col,
            row: cur0.row,
            ops: Seq::empty(),
            stopped: false,
        };
        let ghost target_pre = write_seq(bx, st0, lines, true);

        let fg = self.style.character_style.text_color;
        let bg = self.style.character_style.background_color;

        let mut col: usize = self.cursor.col;
        let mut row: usize = self.cursor.row;
        let ghost mut st = st0;
        let mut stopped: bool = false;
        let nspans = spans.len();
        let mut li: usize = 0;

        proof {
            assert(lines.skip(0) =~= lines);
        }
        while li < nspans && !stopped
            invariant
                self.style == style0,
                self.cursor == cur0,
                style0.wf(),
                bx == style0.char_box_size,
                fg == style0.character_style.text_color,
                bg == style0.character_style.background_color,
                display.wf(),
                display.model() == m0,
                display.surface() == apply_ops(m0, surf0, style0, st.ops),
                nspans == spans@.len(),
                lines == split_lines(cs@),
                spans_lines(cs@, spans@) == lines,
                forall|i: int|
                    0 <= i < spans@.len() ==> (#[trigger] spans@[i]).0 <= spans@[i].1
                        <= cs@.len(),
                li <= nspans,
                lines.len() == nspans,
                st.col == col,
                st.row == row,
                st.stopped == stopped,
                row >= cur0.row,
                col_within(bx, col),
                target_pre == write_seq(bx, st, lines.skip(li as int), li == 0),
            decreases nspans - li,
        {
            proof {
                assert(lines.skip(li as int)[0] == lines[li as int]);
                assert(lines.skip(li as int).drop_first() =~= lines.skip(li as int + 1));
            }
            let ghost st_entry = st;
            if li > 0 {
                col = 0;
                row = if row == usize::MAX {
                    row
                } else {
                    row + 1
                };
                proof {
                    st = apply_newline(st);
                }
            }
            proof {
                assert(target_pre == write_seq(
                    bx,
                    write_line(bx, st, lines[li as int]),
                    lines.skip(li as int + 1),
                    false,
                ));
            }
            let span = spans[li];
            let a = span.0;
            let b = span.1;
            proof {
                assert(spans_lines(cs@, spans@)[li as int] == cs@.subrange(a as int, b as int));
            }
            let mut pos: usize = a;
            while pos < b && !stopped
                invariant
                    a <= pos <= b,
                    b <= cs@.len(),
                    self.style == style0,
                    self.cursor == cur0,
                    style0.wf(),
                    bx == style0.char_box_size,
                    fg == style0.character_style.text_color,
                    bg == style0.character_style.background_color,
                    display.wf(),
                    display.model() == m0,
                    display.surface() == apply_ops(m0, surf0, style0, st.ops),
                    st.col == col,
                    st.row == row,
                    st.stopped == stopped,
                    row >= cur0.row,
                    col_within(bx, col),
                    li < nspans,
                    target_pre == write_seq(
                        bx,
                        write_line(bx, st, cs@.subrange(pos as int, b as int)),
                        lines.skip(li as int + 1),
                        false,
                    ),
                decreases (if stopped {
                    0int
                } else {
                    1int
                }), rows_left(bx, st), b - pos,
            {
                let ghost rem = cs@.subrange(pos as int, b as int);
                let ghost st_in = st;
                let clipped: bool = match self.style.char_box_size {
                    Some(cb) => row >= cb.height as usize,
                    None => false,
                };
                if clipped {
                    stopped = true;
                    proof {
                        st = WriteState { col: st.col, row: st.row, ops: st.ops, stopped: true };
                        assert(write_line(bx, st_in, rem) == st);
                    }
                } else {
                let avail: usize = b - pos;
                let kw: (usize, bool) = match self.style.char_box_size {
                    Some(cb) => {
                        let widthus: usize = cb.width as usize;
                        let rem_w: usize = if col < widthus {
                            widthus - col
                        } else {
                            0
                        };
                        let kk: usize = if rem_w <= avail {
                            rem_w
                        } else {
                            avail
                        };
                        (kk, col + kk >= widthus)
                    },
                    None => (avail, false),
                };
                let k = kw.0;
                let wrap = kw.1;
                let ghost op = DrawOp { col: col, row: row, text: rem.take(k as int) };
                let slice: &[char] = vstd::slice::slice_subrange(cs.as_slice(), pos, pos + k);
                proof {
                    assert(slice@ =~= rem.take(k as int));
                }
                if col < OFFSCREEN_LIMIT && row < OFFSCREEN_LIMIT {
                    let cw: u32 = self.style.character_style.font.width;
                    let chh: u32 = self.style.character_style.font.height;
                    proof {
                        assert(0 <= (col as int) * (cw as int) < 0x40000000int)
                            by (nonlinear_arith)
                            requires
                                col < 0x100000,
                                1 <= cw <= 0x400,
                        ;
                        assert(0 <= (row as int) * (chh as int) < 0x40000000int)
                            by (nonlinear_arith)
                            requires
                                row < 0x100000,
                                1 <= chh <= 0x400,
                        ;
                    }
                    let px64: i64 = self.style.position.x as i64 + (col as i64) * (cw as i64);
                    let adj: i64 = match self.style.baseline {
                        Baseline::Top => 0,
                        Baseline::Bottom => chh as i64 - 1,
                    };
                    let py64: i64 = self.style.position.y as i64 + (row as i64) * (chh as i64)
                        - adj;
                    proof {
                        assert(px64 == column_px(style0, col));
                        assert(py64 == row_py(style0, row));
                        assert(-0x80000000 <= px64 < 0x80000000);
                        assert(-0x80000000 <= py64 < 0x80000000);
                    }
                    let px: i32 = px64 as i32;
                    let py: i32 = py64 as i32;
                    let res = display.draw_text(slice, px, py, fg, bg);
                    match res {
                        Ok(u) => {
                            proof {
                                lemma_apply_ops_push(m0, surf0, style0, st.ops, op);
                            }
                        },
                        Err(e) => {
                            proof {
                                // the draw that failed is one the model
                                // records, so the model's list is not empty
                                lemma_write_line_draws(bx, st, rem);
                                lemma_write_seq_ops_len(
                                    bx,
                                    write_line(bx, st, rem),
                                    lines.skip(li as int + 1),
                                    false,
                                );
                                assert(target.ops == target_pre.ops);
                                assert(target.ops.len() > 0);
                            }
                            self.cursor = CharacterCursor { col, row };
                            return Err(e);
                        },
                    }
                } else {
                    proof {
                        display.lemma_wf();
                        let cw = style0.character_style.font.width;
                        let chh = style0.character_style.font.height;
                        if col >= OFFSCREEN_LIMIT {
                            assert((col as int) * (cw as int) >= col as int) by (nonlinear_arith)
                                requires
                                    cw >= 1,
                                    col >= 0,
                            ;
                            assert(column_px(style0, op.col) >= 0x10000);
                        } else {
                            assert((row as int) * (chh as int) >= row as int) by (nonlinear_arith)
                                requires
                                    chh >= 1,
                                    row >= 0,
                            ;
                            assert(row_py(style0, op.row) >= 0x10000);
                        }
                        crate::render::lemma_render_offscreen(
                            m0,
                            display.surface(),
                            op.text,
                            column_px(style0, op.col),
                            row_py(style0, op.row),
                            fg,
                            bg,
                        );
                        lemma_apply_ops_push(m0, surf0, style0, st.ops, op);
                    }
                }
                if wrap {
                    col = 0;
                    row = if row == usize::MAX {
                        row
                    } else {
                        row + 1
                    };
                } else {
                    col = if k > usize::MAX - col {
                        usize::MAX
                    } else {
                        col + k
                    };
                }
                pos = pos + k;
                proof {
                    st = WriteState { col: col, row: row, ops: st_in.ops.push(op), stopped: false };
                    assert(rem.skip(k as int) =~= cs@.subrange(pos as int, b as int));
                    if bx is None {
                        assert(rem.take(k as int) =~= rem);
                        assert(rem.skip(k as int) =~= Seq::<char>::empty());
                    }
                    assert(write_line(bx, st_in, rem) == write_line(bx, st, rem.skip(k as int)));
                }
                }
            }
            proof {
                if !stopped {
                    assert(cs@.subrange(pos as int, b as int) =~= Seq::<char>::empty());
                    assert(write_line(bx, st, cs@.subrange(pos as int, b as int)) == st);
                }
            }
            li = li + 1;
        }
        proof {
            if !stopped {
                assert(lines.skip(li as int) =~= Seq::<Seq<char>>::empty());
            }
            assert(target_pre == st);
        }
        if cs.len() > 0 && cs[cs.len() - 1] == '\n' {
            col = 0;
            row = if row == usize::MAX {
                row
            } else {
                row + 1
            };
            proof {
                st = apply_newline(st);
            }
        }
        proof {
            assert(st.col == col && st.row == row);
            assert(st.ops == target.ops && st.col == target.col && st.row == target.row);
        }
        self.cursor = CharacterCursor { col, row };
        Ok(())
    }
}

} // verus!
