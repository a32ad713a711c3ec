//! An in-memory reference display.
//!
//! The device is a text-mode surface: each glyph cell is eight pixels wide
//! and one pixel high, and a drawn glyph spells out the low eight bits of its
//! character's code point, least significant bit leftmost. The cells can
//! therefore be decoded back into character codes, which makes the device a
//! convenient target for exercising the console.

use crate::display::{Display, DrawError};
use crate::geometry::{Color, FontMetrics, PixelSize, MAX_SURFACE_DIM};
use crate::render::{render, surface_wf, uniform_surface, DeviceModel, Surface};
use vstd::arithmetic::div_mod::lemma_fundamental_div_mod_converse;
use vstd::prelude::*;

verus! {

/// Pixel width of one glyph cell; cells are one pixel high.
pub const CELL_WIDTH: u32 = 8;

/// Largest number of character columns the device supports.
pub const MAX_COLUMNS: u32 = 4096;

/// Whether pixel `dx` of a glyph's single row is lit: bit `dx` of the
/// character's code point.
pub open spec fn glyph_bit(c: char, dx: int) -> bool {
    (c as u32 >> dx as u32) & 1 == 1
}

/// The device's glyph shapes: one row of eight pixels spelling out the low
/// bits of the code point.
pub open spec fn bit_glyphs() -> Map<char, Seq<Seq<bool>>> {
    Map::total(|c: char| seq![Seq::new(CELL_WIDTH as nat, |dx: int| glyph_bit(c, dx))])
}

/// Powers of two below `2^8`, for decoding cells.
pub open spec fn pow2_bit(dx: int) -> int
    decreases dx,
{
    if dx <= 0 {
        1
    } else {
        2 * pow2_bit(dx - 1)
    }
}

/// The number encoded by the pixels `[xbase, xbase + dx)` of one surface row,
/// reading a pixel of the given text color as a set bit.
pub open spec fn decode_upto(surf: Surface, tc: Color, row: int, xbase: int, dx: int) -> int
    decreases dx,
{
    if dx <= 0 {
        0
    } else {
        decode_upto(surf, tc, row, xbase, dx - 1) + if surf[row][xbase + dx - 1] == tc {
            pow2_bit(dx - 1)
        } else {
            0
        }
    }
}

proof fn lemma_pow2_bit_bounds(dx: int)
    requires
        0 <= dx <= 8,
    ensures
        1 <= pow2_bit(dx) <= 256,
{
    assert(pow2_bit(0) == 1);
    assert(pow2_bit(1) == 2);
    assert(pow2_bit(2) == 4);
    assert(pow2_bit(3) == 8);
    assert(pow2_bit(4) == 16);
    assert(pow2_bit(5) == 32);
    assert(pow2_bit(6) == 64);
    assert(pow2_bit(7) == 128);
    assert(pow2_bit(8) == 256);
}

/// The code point spelled by one glyph cell of the surface.
pub open spec fn decoded_cell(surf: Surface, tc: Color, col: int, row: int) -> int {
    decode_upto(surf, tc, row, col * CELL_WIDTH, CELL_WIDTH as int)
}

/// [`render`] restricted to the pixel columns left of `hi`: the prefix of a
/// draw that has stamped all cell pixels with x coordinate below `hi`.
spec fn render_upto(
    m: DeviceModel,
    surf: Surface,
    text: Seq<char>,
    px: int,
    py: int,
    fg: Color,
    bg: Color,
    hi: int,
) -> Surface {
    Seq::new(
        surf.len(),
        |y: int|
            Seq::new(
                surf[y].len(),
                |x: int|
                    if x < hi && py <= y < py + m.cell_height && px <= x < px + text.len()
                        * m.cell_width {
                        let i = (x - px) / m.cell_width as int;
                        let dx = (x - px) % m.cell_width as int;
                        if m.glyphs[text[i]][y - py][dx] {
                            fg
                        } else {
                            bg
                        }
                    } else {
                        surf[y][x]
                    },
            ),
    )
}

proof fn lemma_upto_init(
    m: DeviceModel,
    surf: Surface,
    text: Seq<char>,
    px: int,
    py: int,
    fg: Color,
    bg: Color,
    hi: int,
)
    requires
        hi <= px,
    ensures
        render_upto(m, surf, text, px, py, fg, bg, hi) == surf,
{
    let r = render_upto(m, surf, text, px, py, fg, bg, hi);
    assert forall|y: int| 0 <= y < surf.len() implies r[y] =~= surf[y] by {}
    assert(r =~= surf);
}

proof fn lemma_upto_done(
    m: DeviceModel,
    surf: Surface,
    text: Seq<char>,
    px: int,
    py: int,
    fg: Color,
    bg: Color,
    hi: int,
)
    requires
        hi >= px + text.len() * m.cell_width || (forall|y: int|
            0 <= y < surf.len() ==> #[trigger] surf[y].len() <= hi),
    ensures
        render_upto(m, surf, text, px, py, fg, bg, hi) == render(m, surf, text, px, py, fg, bg),
{
    let r = render_upto(m, surf, text, px, py, fg, bg, hi);
    let full = render(m, surf, text, px, py, fg, bg);
    assert forall|y: int| 0 <= y < surf.len() implies r[y] =~= full[y] by {
        assert forall|x: int| 0 <= x < surf[y].len() implies r[y][x] == full[y][x] by {}
    }
    assert(r =~= full);
}

proof fn lemma_upto_step_noop(
    m: DeviceModel,
    surf: Surface,
    text: Seq<char>,
    px: int,
    py: int,
    fg: Color,
    bg: Color,
    hi: int,
)
    requires
        m.cell_height == 1,
        hi >= px + text.len() * m.cell_width || !(0 <= py < surf.len()) || !(0 <= hi
            < surf[py].len()),
    ensures
        render_upto(m, surf, text, px, py, fg, bg, hi + 1) == render_upto(
            m,
            surf,
            text,
            px,
            py,
            fg,
            bg,
            hi,
        ),
{
    let r1 = render_upto(m, surf, text, px, py, fg, bg, hi + 1);
    let r0 = render_upto(m, surf, text, px, py, fg, bg, hi);
    assert forall|y: int| 0 <= y < surf.len() implies r1[y] =~= r0[y] by {
        assert forall|x: int| 0 <= x < surf[y].len() implies r1[y][x] == r0[y][x] by {}
    }
    assert(r1 =~= r0);
}

proof fn lemma_upto_step_paint(
    m: DeviceModel,
    surf: Surface,
    cur: Surface,
    text: Seq<char>,
    px: int,
    py: int,
    fg: Color,
    bg: Color,
    hi: int,
    paint: Color,
)
    requires
        m.cell_height == 1,
        m.cell_width >= 1,
        0 <= py < surf.len(),
        0 <= hi < surf[py].len(),
        px <= hi < px + text.len() * m.cell_width,
        cur == render_upto(m, surf, text, px, py, fg, bg, hi),
        paint == if m.glyphs[text[(hi - px) / m.cell_width as int]][0][(hi - px) % m.cell_width
            as int] {
            fg
        } else {
            bg
        },
    ensures
        render_upto(m, surf, text, px, py, fg, bg, hi + 1) == cur.update(
            py,
            cur[py].update(hi, paint),
        ),
{
    let r1 = render_upto(m, surf, text, px, py, fg, bg, hi + 1);
    let upd = cur.update(py, cur[py].update(hi, paint));
    assert(cur.len() == surf.len());
    assert forall|y: int| 0 <= y < surf.len() implies r1[y] =~= upd[y] by {
        assert(cur[y].len() == surf[y].len());
        assert forall|x: int| 0 <= x < surf[y].len() implies r1[y][x] == upd[y][x] by {}
    }
    assert(r1 =~= upd);
}

/// The in-memory text-mode display. Besides the capability interface it
/// offers pixel and cell read-back, and an optional failure countdown that
/// makes it report a device error after a chosen number of operations, for
/// exercising error paths.
pub struct TextModeDisplay {
    columns: u32,
    lines: u32,
    rows: Vec<Vec<Color>>,
    fail_after: Option<usize>,
}

impl TextModeDisplay {
    /// The palette: a cleared screen shows `0`, glyphs are drawn in `1`, and
    /// the panic pair is inverted.
    pub open spec fn palette_background() -> Color {
        Color { value: 0 }
    }

    pub open spec fn palette_text() -> Color {
        Color { value: 1 }
    }

    /// The device's character-cell extent.
    pub closed spec fn spec_columns(&self) -> u32 {
        self.columns
    }

    pub closed spec fn spec_lines(&self) -> u32 {
        self.lines
    }

    pub open spec fn spec_model(columns: u32, lines: u32) -> DeviceModel {
        DeviceModel {
            width: (columns * CELL_WIDTH) as u32,
            height: lines,
            cell_width: CELL_WIDTH,
            cell_height: 1,
            glyphs: bit_glyphs(),
            background_color: TextModeDisplay::palette_background(),
            text_color: TextModeDisplay::palette_text(),
            panic_background_color: TextModeDisplay::palette_text(),
            panic_text_color: TextModeDisplay::palette_background(),
        }
    }
}

/// A fresh pixel surface of the given extent, every pixel one color.
pub(crate) fn make_surface_rows(width: u32, lines: u32, color: Color) -> (rows: Vec<Vec<Color>>)
    requires
        width <= MAX_SURFACE_DIM,
        lines <= MAX_SURFACE_DIM,
    ensures
        rows@.len() == lines,
        forall|y: int| 0 <= y < lines ==> (#[trigger] rows@[y])@.len() == width,
        forall|y: int, x: int| 0 <= y < lines && 0 <= x < width ==> rows@[y]@[x] == color,
{
    let mut rows: Vec<Vec<Color>> = Vec::new();
    let mut y: u32 = 0;
    while y < lines
        invariant
            y <= lines,
            rows@.len() == y,
            forall|yy: int| 0 <= yy < y ==> (#[trigger] rows@[yy])@.len() == width,
            forall|yy: int, x: int| 0 <= yy < y && 0 <= x < width ==> rows@[yy]@[x] == color,
        decreases lines - y,
    {
        let mut row: Vec<Color> = Vec::new();
        let mut x: u32 = 0;
        while x < width
            invariant
                x <= width,
                row@.len() == x,
                forall|xx: int| 0 <= xx < x ==> row@[xx] == color,
            decreases width - x,
        {
            row.push(color);
            x = x + 1;
        }
        rows.push(row);
        y = y + 1;
    }
    rows
}

impl TextModeDisplay {
    /// A fresh display of the given character extent, cleared to the
    /// background color. With `fail_after == Some(n)`, the `n + 1`-th device
    /// operation from now on, and every operation after it, reports a device
    /// error.
    pub fn new(columns: u32, lines: u32, fail_after: Option<usize>) -> (d: TextModeDisplay)
        requires
            columns <= MAX_COLUMNS,
            lines <= MAX_SURFACE_DIM,
        ensures
            d.wf(),
            d.model() == TextModeDisplay::spec_model(columns, lines),
            d.surface() == uniform_surface(d.model(), Color { value: 0 }),
    {
        let rows = make_surface_rows(columns * CELL_WIDTH, lines, Color { value: 0 });
        let d = TextModeDisplay { columns, lines, rows, fail_after };
        proof {
            let m = TextModeDisplay::spec_model(columns, lines);
            let u = uniform_surface(m, Color { value: 0 });
            assert forall|y: int| 0 <= y < d.surface().len() implies d.surface()[y] =~= u[y] by {}
            assert(d.surface() =~= u);
        }
        d
    }

    /// Consumes an operation of the failure countdown; reports whether this
    /// operation must fail.
    fn take_failure(&mut self) -> (fail: bool)
        ensures
            final(self).columns == old(self).columns,
            final(self).lines == old(self).lines,
            final(self).rows == old(self).rows,
    {
        match self.fail_after {
            None => false,
            Some(k) => {
                if k == 0 {
                    true
                } else {
                    self.fail_after = Some(k - 1);
                    false
                }
            },
        }
    }

    /// The color of one pixel.
    pub fn pixel(&self, x: u32, y: u32) -> (c: Color)
        requires
            self.wf(),
            x < self.model().width,
            y < self.model().height,
        ensures
            c == self.surface()[y as int][x as int],
    {
        self.rows[y as usize][x as usize]
    }

    /// The code point spelled by the glyph cell at character position
    /// `(col, row)`, reading a pixel of the device's text color as a set bit.
    pub fn char_code_at(&self, col: u32, row: u32) -> (code: u32)
        requires
            self.wf(),
            col < self.spec_columns(),
            row < self.model().height,
        ensures
            code == decoded_cell(self.surface(), Color { value: 1 }, col as int, row as int),
    {
        let xbase: u32 = col * CELL_WIDTH;
        let mut code: u32 = 0;
        let mut p: u32 = 1;
        let mut dx: u32 = 0;
        while dx < CELL_WIDTH
            invariant
                self.wf(),
                col < self.spec_columns(),
                row < self.model().height,
                xbase == col * CELL_WIDTH,
                dx <= CELL_WIDTH,
                p == pow2_bit(dx as int),
                code == decode_upto(
                    self.surface(),
                    Color { value: 1 },
                    row as int,
                    xbase as int,
                    dx as int,
                ),
                code < pow2_bit(dx as int),
            decreases CELL_WIDTH - dx,
        {
            proof {
                lemma_pow2_bit_bounds(dx as int);
                lemma_pow2_bit_bounds(dx as int + 1);
            }
            let px: Color = self.pixel(xbase + dx, row);
            if px.value == 1 {
                code = code + p;
            }
            p = p * 2;
            dx = dx + 1;
        }
        code
    }

    /// The code points of every cell of one character row, left to right.
    pub fn row_codes(&self, row: u32) -> (codes: Vec<u32>)
        requires
            self.wf(),
            row < self.model().height,
        ensures
            codes@.len() == self.spec_columns(),
            forall|c: int|
                0 <= c < codes@.len() ==> codes@[c] == decoded_cell(
                    self.surface(),
                    Color { value: 1 },
                    c,
                    row as int,
                ),
    {
        let mut codes: Vec<u32> = Vec::new();
        let mut col: u32 = 0;
        while col < self.columns
            invariant
                self.wf(),
                row < self.model().height,
                col <= self.columns,
                self.columns == self.spec_columns(),
                codes@.len() == col,
                forall|c: int|
                    0 <= c < col ==> codes@[c] == decoded_cell(
                        self.surface(),
                        Color { value: 1 },
                        c,
                        row as int,
                    ),
            decreases self.columns - col,
        {
            let code = self.char_code_at(col, row);
            codes.push(code);
            col = col + 1;
        }
        codes
    }

    /// The device's character-cell width.
    pub fn columns_count(&self) -> (c: u32)
        ensures
            c == self.spec_columns(),
    {
        self.columns
    }

    /// The device's character-cell height.
    pub fn lines_count(&self) -> (l: u32)
        ensures
            l == self.spec_lines(),
    {
        self.lines
    }
}

impl Display for TextModeDisplay {
    closed spec fn model(&self) -> DeviceModel {
        TextModeDisplay::spec_model(self.columns, self.lines)
    }

    closed spec fn surface(&self) -> Surface {
        Seq::new(self.rows@.len(), |y: int| self.rows@[y]@)
    }

    closed spec fn wf(&self) -> bool {
        &&& self.columns <= MAX_COLUMNS
        &&& self.lines <= MAX_SURFACE_DIM
        &&& self.rows@.len() == self.lines
        &&& forall|y: int|
            0 <= y < self.rows@.len() ==> (#[trigger] self.rows@[y])@.len() == self.columns
                * CELL_WIDTH
    }

    proof fn lemma_wf(&self) {
        assert forall|c: char| #[trigger] bit_glyphs()[c].len() == 1 by {}
        assert forall|c: char, dy: int| 0 <= dy < 1 implies #[trigger] bit_glyphs()[c][dy].len()
            == CELL_WIDTH by {}
    }

    fn size(&self) -> (s: PixelSize) {
        PixelSize { width: self.columns * CELL_WIDTH, height: self.lines }
    }

    fn font(&self) -> (f: FontMetrics) {
        FontMetrics { width: CELL_WIDTH, height: 1 }
    }

    fn background_color(&self) -> (c: Color) {
        Color { value: 0 }
    }

    fn text_color(&self) -> (c: Color) {
        Color { value: 1 }
    }

    fn panic_background_color(&self) -> (c: Color) {
        Color { value: 1 }
    }

    fn panic_text_color(&self) -> (c: Color) {
        Color { value: 0 }
    }

    fn clear(&mut self, color: Color) -> (r: Result<(), DrawError>) {
        if self.take_failure() {
            return Err(DrawError::Device);
        }
        let rows = make_surface_rows(self.columns * CELL_WIDTH, self.lines, color);
        self.rows = rows;
        proof {
            let u = uniform_surface(self.model(), color);
            assert forall|y: int| 0 <= y < self.surface().len() implies self.surface()[y]
                =~= u[y] by {}
            assert(self.surface() =~= u);
        }
        Ok(())
    }

    fn draw_text(&mut self, text: &[char], x: i32, y: i32, fg: Color, bg: Color) -> (r: Result<
        (),
        DrawError,
    >) {
        let ghost m = self.model();
        let ghost surf0 = self.surface();
        if self.take_failure() {
            return Err(DrawError::Device);
        }
        assert(self.surface() == surf0);
        let width: u32 = self.columns * CELL_WIDTH;
        if y < 0 || y >= self.lines as i32 {
            proof {
                crate::render::lemma_render_offscreen(m, surf0, text@, x as int, y as int, fg, bg);
            }
            return Ok(());
        }
        let yy: usize = y as usize;
        let mut i: usize = 0;
        let mut xb: i64 = x as i64;
        proof {
            lemma_upto_init(m, surf0, text@, x as int, y as int, fg, bg, xb as int);
        }
        while i < text.len() && xb < width as i64
            invariant
                self.wf(),
                self.columns == old(self).columns,
                self.lines == old(self).lines,
                self.model() == m,
                m.cell_width == CELL_WIDTH,
                m.cell_height == 1,
                m.glyphs == bit_glyphs(),
                width == self.columns * CELL_WIDTH,
                surf0.len() == self.lines,
                forall|yv: int| 0 <= yv < surf0.len() ==> (#[trigger] surf0[yv]).len() == width,
                0 <= yy < self.lines,
                yy == y as int,
                i <= text.len(),
                xb == x + i * CELL_WIDTH,
                self.surface() == render_upto(
                    m,
                    surf0,
                    text@,
                    x as int,
                    y as int,
                    fg,
                    bg,
                    xb as int,
                ),
            decreases text.len() - i,
        {
            let code: u32 = text[i] as u32;
            let mut dx: u32 = 0;
            while dx < CELL_WIDTH
                invariant
                    self.wf(),
                    self.columns == old(self).columns,
                    self.lines == old(self).lines,
                    self.model() == m,
                    m.cell_width == CELL_WIDTH,
                    m.cell_height == 1,
                    m.glyphs == bit_glyphs(),
                    width == self.columns * CELL_WIDTH,
                    surf0.len() == self.lines,
                    forall|yv: int| 0 <= yv < surf0.len() ==> (#[trigger] surf0[yv]).len() == width,
                    0 <= yy < self.lines,
                    yy == y as int,
                    i < text.len(),
                    code == text@[i as int] as u32,
                    dx <= CELL_WIDTH,
                    xb == x + i * CELL_WIDTH,
                    xb < width,
                    self.surface() == render_upto(
                        m,
                        surf0,
                        text@,
                        x as int,
                        y as int,
                        fg,
                        bg,
                        xb + dx,
                    ),
                decreases CELL_WIDTH - dx,
            {
                let px_abs: i64 = xb + dx as i64;
                let ghost hi = xb + dx as int;
                let lit: bool = ((code >> dx) & 1) == 1;
                let paint: Color = if lit {
                    fg
                } else {
                    bg
                };
                proof {
                    assert(lit == glyph_bit(text@[i as int], dx as int));
                }
                if px_abs >= 0 && px_abs < width as i64 {
                    let ghost cur = self.surface();
                    let jj: usize = px_abs as usize;
                    proof {
                        assert(cur[yy as int].len() == surf0[yy as int].len());
                        lemma_fundamental_div_mod_converse(
                            hi - x,
                            CELL_WIDTH as int,
                            i as int,
                            dx as int,
                        );
                        assert((hi - x) / (CELL_WIDTH as int) == i as int);
                        assert((hi - x) % (CELL_WIDTH as int) == dx as int);
                        assert(m.glyphs[text@[i as int]][0][dx as int] == glyph_bit(
                            text@[i as int],
                            dx as int,
                        ));
                        lemma_upto_step_paint(
                            m,
                            surf0,
                            cur,
                            text@,
                            x as int,
                            y as int,
                            fg,
                            bg,
                            hi,
                            paint,
                        );
                    }
                    self.rows[yy][jj] = paint;
                    proof {
                        assert(self.surface() =~= cur.update(
                            yy as int,
                            cur[yy as int].update(hi, paint),
                        ));
                    }
                } else {
                    proof {
                        lemma_upto_step_noop(m, surf0, text@, x as int, y as int, fg, bg, hi);
                    }
                }
                dx = dx + 1;
            }
            i = i + 1;
            xb = xb + CELL_WIDTH as i64;
        }
        proof {
            if i == text.len() {
                assert(xb as int >= x + text@.len() * m.cell_width);
            } else {
                assert(xb as int >= width);
            }
            lemma_upto_done(m, surf0, text@, x as int, y as int, fg, bg, xb as int);
        }
        Ok(())
    }

    fn flush(&mut self) -> (r: Result<(), DrawError>) {
        if self.take_failure() {
            return Err(DrawError::Device);
        }
        Ok(())
    }
}

} // verus!
