//! Laws of the write model: what wrapping, explicit breaks and truncation
//! guarantee, stated over [`crate::writer::write_model`].

use crate::geometry::CharacterBoxSize;
use crate::render::{apply_ops, DeviceModel, DrawOp, Surface};
use crate::style::DisplayTextStyle;
use crate::writer::{
    apply_newline, count_newlines, ends_with_newline, find_newline, lemma_find_newline,
    lemma_find_newline_is, sat_inc_row, split_lines, write_line, write_model, write_seq,
    CharacterCursor, WriteState,
};
use vstd::arithmetic::div_mod::{
    lemma_fundamental_div_mod, lemma_fundamental_div_mod_converse,
};
use vstd::prelude::*;

verus! {

/// The number of width-`b` rows that `a` characters fill, the last row
/// possibly partially.
pub open spec fn ceil_div(a: int, b: int) -> int {
    (a + b - 1) / b
}

proof fn lemma_ceil_div_zero(w: int)
    requires
        w >= 1,
    ensures
        ceil_div(0, w) == 0,
{
    assert(w - 1 == 0 * w + (w - 1)) by (nonlinear_arith);
    lemma_fundamental_div_mod_converse(w - 1, w, 0, w - 1);
}

proof fn lemma_ceil_div_small(len: int, w: int)
    requires
        w >= 1,
        1 <= len <= w,
    ensures
        ceil_div(len, w) == 1,
{
    assert(len + w - 1 == 1 * w + (len - 1)) by (nonlinear_arith);
    lemma_fundamental_div_mod_converse(len + w - 1, w, 1, len - 1);
}

proof fn lemma_ceil_div_step(len: int, w: int)
    requires
        w >= 1,
        len >= w,
    ensures
        ceil_div(len - w, w) == ceil_div(len, w) - 1,
{
    lemma_fundamental_div_mod(len, w);
    let q = len / w;
    let rr = len % w;
    if rr == 0 {
        assert(len + w - 1 == q * w + (w - 1)) by (nonlinear_arith)
            requires
                len == w * q,
        ;
        assert(len - w + w - 1 == (q - 1) * w + (w - 1)) by (nonlinear_arith)
            requires
                len == w * q,
        ;
        lemma_fundamental_div_mod_converse(len + w - 1, w, q, w - 1);
        lemma_fundamental_div_mod_converse(len - w + w - 1, w, q - 1, w - 1);
    } else {
        assert(len + w - 1 == (q + 1) * w + (rr - 1)) by (nonlinear_arith)
            requires
                len == w * q + rr,
        ;
        assert(len - w + w - 1 == q * w + (rr - 1)) by (nonlinear_arith)
            requires
                len == w * q + rr,
        ;
        lemma_fundamental_div_mod_converse(len + w - 1, w, q + 1, rr - 1);
        lemma_fundamental_div_mod_converse(len - w + w - 1, w, q, rr - 1);
    }
}

proof fn lemma_ceil_div_pos(len: int, w: int)
    requires
        w >= 1,
        len >= 1,
    ensures
        ceil_div(len, w) >= 1,
{
    lemma_fundamental_div_mod(len + w - 1, w);
    let q = (len + w - 1) / w;
    if q <= 0 {
        assert(len + w - 1 == w * q + (len + w - 1) % w);
        assert(w * q <= 0) by (nonlinear_arith)
            requires
                w >= 1,
                q <= 0,
        ;
    }
}

proof fn lemma_ceil_div_last(len: int, w: int)
    requires
        w >= 1,
        len >= 1,
    ensures
        (ceil_div(len, w) - 1) * w < len <= ceil_div(len, w) * w,
        len - (ceil_div(len, w) - 1) * w == (if len % w == 0 {
            w
        } else {
            len % w
        }),
{
    lemma_fundamental_div_mod(len, w);
    assert(0 <= len % w < w) by (nonlinear_arith)
        requires
            w >= 1,
            len >= 0,
    ;
    let q = len / w;
    let rr = len % w;
    if rr == 0 {
        assert(len + w - 1 == q * w + (w - 1)) by (nonlinear_arith)
            requires
                len == w * q,
        ;
        lemma_fundamental_div_mod_converse(len + w - 1, w, q, w - 1);
        assert(ceil_div(len, w) == q);
        assert((q - 1) * w == q * w - w) by (nonlinear_arith);
        assert(q * w == w * q) by (nonlinear_arith);
    } else {
        assert(len + w - 1 == (q + 1) * w + (rr - 1)) by (nonlinear_arith)
            requires
                len == w * q + rr,
        ;
        lemma_fundamental_div_mod_converse(len + w - 1, w, q + 1, rr - 1);
        assert(ceil_div(len, w) == q + 1);
        assert((q + 1) * w == w * q + w) by (nonlinear_arith);
        assert(q * w == w * q) by (nonlinear_arith);
    }
}

// ---------------------------------------------------------------------------
// Wrapping a single line-break-free input (soft newlines only)
// ---------------------------------------------------------------------------
/// The draw calls that wrapping a line-break-free input from column zero of
/// row `r` makes: one full-width run per row until the input runs out.
pub open spec fn chunk_ops(cb: CharacterBoxSize, s: Seq<char>, r: usize) -> Seq<DrawOp>
    decreases s.len(),
    when cb.width >= 1
{
    if s.len() == 0 {
        Seq::empty()
    } else {
        let k: int = if cb.width <= s.len() {
            cb.width as int
        } else {
            s.len() as int
        };
        seq![DrawOp { col: 0, row: r, text: s.take(k) }] + chunk_ops(
            cb,
            s.skip(k),
            sat_inc_row(r),
        )
    }
}

proof fn lemma_write_line_chunks(cb: CharacterBoxSize, ops0: Seq<DrawOp>, r: usize, s: Seq<char>)
    requires
        cb.width >= 1,
        r + ceil_div(s.len() as int, cb.width as int) <= cb.height,
    ensures
        write_line(Some(cb), WriteState { col: 0, row: r, ops: ops0, stopped: false }, s).ops
            == ops0 + chunk_ops(cb, s, r),
        !write_line(Some(cb), WriteState { col: 0, row: r, ops: ops0, stopped: false }, s).stopped,
    decreases s.len(),
{
    let w = cb.width as int;
    let st = WriteState { col: 0, row: r, ops: ops0, stopped: false };
    let res = write_line(Some(cb), st, s);
    if s.len() == 0 {
        assert(ops0 + chunk_ops(cb, s, r) =~= ops0);
    } else {
        lemma_ceil_div_pos(s.len() as int, w);
        assert(r < cb.height);
        let k: int = if w <= s.len() {
            w
        } else {
            s.len() as int
        };
        let op = DrawOp { col: 0, row: r, text: s.take(k) };
        let st1 = WriteState { col: 0, row: r, ops: ops0.push(op), stopped: false };
        if w <= s.len() {
            // the row fills exactly: soft newline, continue on the next row
            let st2 = apply_newline(st1);
            assert(res == write_line(Some(cb), st2, s.skip(k)));
            lemma_ceil_div_step(s.len() as int, w);
            if s.len() == w {
                lemma_ceil_div_zero(w);
            }
            let r2 = sat_inc_row(r);
            assert(r2 == r + 1);
            lemma_write_line_chunks(cb, ops0.push(op), r2, s.skip(k));
            assert(ops0 + chunk_ops(cb, s, r) =~= ops0.push(op) + chunk_ops(cb, s.skip(k), r2));
        } else {
            // the tail fits on this row with room to spare
            let st2 = WriteState { col: k as usize, row: r, ops: ops0.push(op), stopped: false };
            assert(res == write_line(Some(cb), st2, s.skip(k)));
            assert(s.skip(k).len() == 0);
            assert(write_line(Some(cb), st2, s.skip(k)) == st2);
            lemma_ceil_div_small(s.len() as int, w);
            assert(s.take(k) =~= s);
            assert(chunk_ops(cb, s.skip(k), sat_inc_row(r)) =~= Seq::<DrawOp>::empty());
            assert(ops0 + chunk_ops(cb, s, r) =~= ops0.push(op));
        }
    }
}

proof fn lemma_chunk_ops_shape(cb: CharacterBoxSize, s: Seq<char>, r: usize)
    requires
        cb.width >= 1,
        r + ceil_div(s.len() as int, cb.width as int) <= usize::MAX,
    ensures
        chunk_ops(cb, s, r).len() == ceil_div(s.len() as int, cb.width as int),
        forall|i: int|
            0 <= i < chunk_ops(cb, s, r).len() ==> #[trigger] chunk_ops(cb, s, r)[i]
                == (DrawOp {
                col: 0,
                row: (r + i) as usize,
                text: s.subrange(
                    i * cb.width,
                    if (i + 1) * cb.width <= s.len() {
                        (i + 1) * cb.width
                    } else {
                        s.len() as int
                    },
                ),
            }),
    decreases s.len(),
{
    let w = cb.width as int;
    let cs = chunk_ops(cb, s, r);
    if s.len() == 0 {
        lemma_ceil_div_zero(w);
    } else {
        lemma_ceil_div_pos(s.len() as int, w);
        let k: int = if w <= s.len() {
            w
        } else {
            s.len() as int
        };
        if w <= s.len() {
            lemma_ceil_div_step(s.len() as int, w);
        } else {
            lemma_ceil_div_small(s.len() as int, w);
            lemma_ceil_div_zero(w);
        }
        let r2 = sat_inc_row(r);
        assert(r2 == r + 1);
        lemma_chunk_ops_shape(cb, s.skip(k), r2);
        let tail = chunk_ops(cb, s.skip(k), r2);
        let sk = s.skip(k);
        if sk.len() > 0 {
            lemma_ceil_div_last(sk.len() as int, w);
        }
        assert forall|i: int| 0 <= i < cs.len() implies #[trigger] cs[i] == (DrawOp {
            col: 0,
            row: (r + i) as usize,
            text: s.subrange(
                i * w,
                if (i + 1) * w <= s.len() {
                    (i + 1) * w
                } else {
                    s.len() as int
                },
            ),
        }) by {
            if i == 0 {
                assert(s.take(k) =~= s.subrange(
                    0,
                    if w <= s.len() {
                        w
                    } else {
                        s.len() as int
                    },
                ));
                assert(0 * w == 0) by (nonlinear_arith);
                assert(1 * w == w) by (nonlinear_arith);
            } else {
                assert(cs[i] == tail[i - 1]);
                let lo2 = (i - 1) * w;
                let hi2 = if i * w <= sk.len() {
                    i * w
                } else {
                    sk.len() as int
                };
                assert((i - 1) * w + w == i * w) by (nonlinear_arith);
                assert(i * w + w == (i + 1) * w) by (nonlinear_arith);
                assert(i * w >= w) by (nonlinear_arith)
                    requires
                        i >= 1,
                        w >= 1,
                ;
                assert((i - 1) * w <= (tail.len() - 1) * w) by (nonlinear_arith)
                    requires
                        i - 1 <= tail.len() - 1,
                        w >= 1,
                ;
                assert(0 <= lo2 < sk.len());
                assert(lo2 <= hi2 <= sk.len());
                assert(sk.subrange(lo2, hi2) =~= s.subrange(k + lo2, k + hi2));
            }
        }
    }
}

/// For a line-break-free input written from a fresh cursor into a box of
/// positive width `W` whose height holds all of it, the write makes exactly
/// `ceil(len / W)` draw calls: call `i` draws the characters
/// `[i*W, min((i+1)*W, len))` at column 0 of row `i`. Hence every row holds
/// at most `W` characters, and the last row holds `len mod W` of them, or
/// `W` exactly when `W` divides `len`.
pub proof fn lemma_wrap_rows(cb: CharacterBoxSize, s: Seq<char>)
    requires
        cb.width >= 1,
        forall|i: int| 0 <= i < s.len() ==> s[i] != '\n',
        ceil_div(s.len() as int, cb.width as int) <= cb.height,
    ensures
        ({
            let st = write_model(Some(cb), CharacterCursor { col: 0, row: 0 }, s);
            let w = cb.width as int;
            let n = ceil_div(s.len() as int, w);
            &&& st.ops.len() == n
            &&& forall|i: int|
                0 <= i < n ==> #[trigger] st.ops[i] == (DrawOp {
                    col: 0,
                    row: i as usize,
                    text: s.subrange(
                        i * w,
                        if (i + 1) * w <= s.len() {
                            (i + 1) * w
                        } else {
                            s.len() as int
                        },
                    ),
                })
            &&& forall|i: int| 0 <= i < n ==> #[trigger] st.ops[i].text.len() <= w
            &&& n > 0 ==> st.ops[n - 1].text.len() == (if s.len() as int % w == 0 {
                w
            } else {
                s.len() as int % w
            })
        }),
{
    let w = cb.width as int;
    let n = ceil_div(s.len() as int, w);
    let st0 = WriteState { col: 0, row: 0, ops: Seq::empty(), stopped: false };
    let st = write_model(Some(cb), CharacterCursor { col: 0, row: 0 }, s);
    if s.len() == 0 {
        lemma_ceil_div_zero(w);
        assert(split_lines(s).len() == 0);
        assert(!ends_with_newline(s));
        assert(st.ops =~= Seq::<DrawOp>::empty());
    } else {
        lemma_find_newline_is(s, s.len() as int);
        assert(split_lines(s) == seq![s]);
        assert(!ends_with_newline(s));
        let lines = split_lines(s);
        assert(lines.drop_first() =~= Seq::<Seq<char>>::empty());
        assert(lines[0] == s);
        lemma_write_line_chunks(cb, Seq::empty(), 0, s);
        let stl = write_line(Some(cb), st0, s);
        assert(write_seq(Some(cb), stl, lines.drop_first(), false) == stl);
        assert(st.ops == Seq::empty() + chunk_ops(cb, s, 0));
        assert(st.ops =~= chunk_ops(cb, s, 0));
        lemma_chunk_ops_shape(cb, s, 0);
        lemma_ceil_div_last(s.len() as int, w);
        assert forall|i: int| 0 <= i < n implies #[trigger] st.ops[i].text.len() <= w by {
            assert(st.ops[i] == chunk_ops(cb, s, 0)[i]);
            assert(i * w + w == (i + 1) * w) by (nonlinear_arith);
            assert(i * w <= (n - 1) * w) by (nonlinear_arith)
                requires
                    i <= n - 1,
                    w >= 1,
            ;
        }
        assert(st.ops[n - 1].text.len() == s.len() - (n - 1) * w);
    }
}

// ---------------------------------------------------------------------------
// Explicit line breaks (hard newlines only)
// ---------------------------------------------------------------------------
proof fn lemma_count_skip_clean(s: Seq<char>, i: int)
    requires
        0 <= i <= s.len(),
        forall|j: int| 0 <= j < i ==> s[j] != '\n',
    ensures
        count_newlines(s) == count_newlines(s.skip(i)),
    decreases i,
{
    if i > 0 {
        assert(s.len() > 0 && s[0] != '\n');
        assert(count_newlines(s) == count_newlines(s.drop_first()));
        assert(s.drop_first() =~= s.skip(1));
        assert forall|j: int| 0 <= j < i - 1 implies s.skip(1)[j] != '\n' by {
            assert(s.skip(1)[j] == s[j + 1]);
        }
        lemma_count_skip_clean(s.skip(1), i - 1);
        assert(s.skip(1).skip(i - 1) =~= s.skip(i));
    } else {
        assert(s.skip(0) =~= s);
    }
}

proof fn lemma_count_split_len(s: Seq<char>)
    requires
        s.len() > 0,
    ensures
        split_lines(s).len() == count_newlines(s) + (if ends_with_newline(s) {
            0int
        } else {
            1int
        }),
    decreases s.len(),
{
    lemma_find_newline(s);
    let e = find_newline(s);
    if e == s.len() {
        lemma_count_skip_clean(s, e);
        assert(s.skip(e) =~= Seq::<char>::empty());
        assert(count_newlines(s) == 0);
        assert(!ends_with_newline(s));
    } else {
        lemma_count_skip_clean(s, e);
        assert(s.skip(e)[0] == '\n');
        assert(s.skip(e).drop_first() =~= s.skip(e + 1));
        assert(count_newlines(s.skip(e)) == 1 + count_newlines(s.skip(e + 1)));
        let tail = s.skip(e + 1);
        if tail.len() == 0 {
            assert(e == s.len() - 1);
            assert(ends_with_newline(s));
            assert(tail =~= Seq::<char>::empty());
            assert(split_lines(tail).len() == 0);
            assert(split_lines(s).len() == 1);
        } else {
            lemma_count_split_len(tail);
            assert(tail[tail.len() - 1] == s[s.len() - 1]);
            assert(ends_with_newline(tail) == ends_with_newline(s));
        }
    }
}

proof fn lemma_write_seq_unbounded_rows(st: WriteState, lines: Seq<Seq<char>>, first: bool)
    requires
        !st.stopped,
        st.row + (if lines.len() == 0 {
            0int
        } else if first {
            lines.len() - 1
        } else {
            lines.len() as int
        }) <= usize::MAX,
    ensures
        !write_seq(None, st, lines, first).stopped,
        write_seq(None, st, lines, first).row == st.row + (if lines.len() == 0 {
            0int
        } else if first {
            lines.len() - 1
        } else {
            lines.len() as int
        }),
    decreases lines.len(),
{
    if lines.len() > 0 {
        let stn = if first {
            st
        } else {
            apply_newline(st)
        };
        let stl = write_line(None, stn, lines[0]);
        assert(stl.row == stn.row && !stl.stopped);
        lemma_write_seq_unbounded_rows(stl, lines.drop_first(), false);
    }
}

/// A write whose input ends in a line feed advances the row exactly one
/// more time than the number of line feeds strictly inside the input: the
/// split lines sit one under the other, and the trailing line feed adds the
/// one extra advance. Stated for an unbounded box, where no soft wrapping
/// adds row advances of its own.
pub proof fn lemma_trailing_break_rows(cursor: CharacterCursor, s: Seq<char>)
    requires
        ends_with_newline(s),
        cursor.row + count_newlines(s) <= usize::MAX,
    ensures
        write_model(None, cursor, s).row == cursor.row + (count_newlines(s) - 1) + 1,
{
    let st0 = WriteState { col: cursor.col, row: cursor.row, ops: Seq::empty(), stopped: false };
    let lines = split_lines(s);
    lemma_count_split_len(s);
    assert(lines.len() == count_newlines(s));
    let st1 = write_seq(None, st0, lines, true);
    lemma_write_seq_unbounded_rows(st0, lines, true);
    if lines.len() == 0 {
        assert(count_newlines(s) == 0);
        assert(s.len() > 0);
        assert(split_lines(s).len() > 0);
    } else {
        assert(st1.row == cursor.row + lines.len() - 1);
        assert(sat_inc_row(st1.row) == st1.row + 1);
    }
}

// ---------------------------------------------------------------------------
// Truncation at the bottom of the box
// ---------------------------------------------------------------------------
proof fn lemma_write_line_rowhigh(cb: CharacterBoxSize, st: WriteState, line: Seq<char>)
    requires
        st.row >= cb.height,
    ensures
        write_line(Some(cb), st, line).ops == st.ops,
        write_line(Some(cb), st, line).row == st.row,
{
}

proof fn lemma_write_seq_rowhigh(
    cb: CharacterBoxSize,
    st: WriteState,
    lines: Seq<Seq<char>>,
    first: bool,
)
    requires
        st.row >= cb.height,
    ensures
        write_seq(Some(cb), st, lines, first).ops == st.ops,
    decreases lines.len(),
{
    if !(st.stopped || lines.len() == 0) {
        let stn = if first {
            st
        } else {
            apply_newline(st)
        };
        assert(stn.row >= st.row);
        lemma_write_line_rowhigh(cb, stn, lines[0]);
        lemma_write_seq_rowhigh(cb, write_line(Some(cb), stn, lines[0]), lines.drop_first(), false);
    }
}

/// Once the cursor sits at or below the bottom of a bounded box, a write
/// draws nothing, whatever the input and however long it is: the write
/// makes no draw call at all, and any surface is left exactly as it was.
/// Truncation is silent and idempotent.
pub proof fn lemma_truncated_write_draws_nothing(
    cb: CharacterBoxSize,
    cursor: CharacterCursor,
    s: Seq<char>,
    m: DeviceModel,
    surf: Surface,
    style: DisplayTextStyle,
)
    requires
        cursor.row >= cb.height,
    ensures
        write_model(Some(cb), cursor, s).ops == Seq::<DrawOp>::empty(),
        apply_ops(m, surf, style, write_model(Some(cb), cursor, s).ops) == surf,
{
    let st0 = WriteState { col: cursor.col, row: cursor.row, ops: Seq::empty(), stopped: false };
    lemma_write_seq_rowhigh(cb, st0, split_lines(s), true);
}

} // verus!
