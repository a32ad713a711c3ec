//! An in-memory display rendering with a real monospace bitmap font.
//!
//! The glyph shapes come from the `embedded-graphics` crate's four-by-six
//! pixel font, sampled one pixel at a time through a trusted oracle; the
//! surface itself, and the stamping of glyphs onto it, are the library's own
//! verified code.

use crate::display::{Display, DrawError};
use crate::geometry::{Color, FontMetrics, PixelSize, MAX_SURFACE_DIM};
use crate::render::{render, surface_wf, uniform_surface, DeviceModel, Surface};
use embedded_graphics::mock_display::MockDisplay;
use embedded_graphics::mono_font::{ascii::FONT_4X6, MonoTextStyle};
use embedded_graphics::pixelcolor::BinaryColor;
use embedded_graphics::prelude::{Drawable, Point};
use embedded_graphics::text::{Baseline, Text, TextStyleBuilder};
use vstd::arithmetic::div_mod::lemma_fundamental_div_mod_converse;
use vstd::prelude::*;

verus! {

/// Pixel extent of one glyph cell of the four-by-six font.
pub const FONT_CELL_WIDTH: u32 = 4;

pub const FONT_CELL_HEIGHT: u32 = 6;

/// Whether the four-by-six font lights cell pixel `(x, y)` of a character's
/// glyph. The shape is fixed font data of the outside crate, so it is named
/// rather than written out.
pub uninterp spec fn glyph_pixel_4x6(c: char, x: int, y: int) -> bool;

/// Relies on embedded-graphics: `Text::with_text_style` rendering one
/// character of `FONT_4X6` at the origin of a `MockDisplay` with a top
/// baseline, then `MockDisplay::get_pixel` sampling one pixel of the result.
/// Both are deterministic: the outcome depends on the character and the
/// pixel position alone.
#[verifier::external_body]
fn sample_font_4x6(c: char, x: u32, y: u32) -> (lit: bool)
    requires
        x < 64,
        y < 64,
    ensures
        lit == glyph_pixel_4x6(c, x as int, y as int),
{
    let mut d = MockDisplay::<BinaryColor>::new();
    d.set_allow_out_of_bounds_drawing(true);
    d.set_allow_overdraw(true);
    let style = MonoTextStyle::new(&FONT_4X6, BinaryColor::On);
    let ts = TextStyleBuilder::new().baseline(Baseline::Top).build();
    let mut buf = [0u8; 4];
    let _ = Text::with_text_style(c.encode_utf8(&mut buf), Point::zero(), style, ts).draw(&mut d);
    d.get_pixel(Point::new(x as i32, y as i32)) == Some(BinaryColor::On)
}

/// The glyph shapes of the four-by-six font, as the device model carries
/// them.
pub open spec fn font_4x6_glyphs() -> Map<char, Seq<Seq<bool>>> {
    Map::total(
        |c: char|
            Seq::new(
                FONT_CELL_HEIGHT as nat,
                |y: int| Seq::new(FONT_CELL_WIDTH as nat, |x: int| glyph_pixel_4x6(c, x, y)),
            ),
    )
}

/// [`render`] restricted to a two-dimensional frontier: glyph rows below
/// `dyl` are fully stamped, and of glyph row `dyl` the pixel columns left of
/// `hi`.
spec fn render_front(
    m: DeviceModel,
    surf: Surface,
    text: Seq<char>,
    px: int,
    py: int,
    fg: Color,
    bg: Color,
    dyl: int,
    hi: int,
) -> Surface {
    Seq::new(
        surf.len(),
        |y: int|
            Seq::new(
                surf[y].len(),
                |x: int|
                    if py <= y < py + m.cell_height && px <= x < px + text.len() * m.cell_width
                        && (y - py < dyl || (y - py == dyl && x < hi)) {
                        let i = (x - px) / m.cell_width as int;
                        let dx = (x - px) % m.cell_width as int;
                        if m.glyphs[text[i]][y - py][dx] {
                            fg
                        } else {
                            bg
                        }
                    } else {
                        surf[y][x]
                    },
            ),
    )
}

proof fn lemma_front_init(
    m: DeviceModel,
    surf: Surface,
    text: Seq<char>,
    px: int,
    py: int,
    fg: Color,
    bg: Color,
)
    ensures
        render_front(m, surf, text, px, py, fg, bg, 0, px) == surf,
{
    let r = render_front(m, surf, text, px, py, fg, bg, 0, px);
    assert forall|y: int| 0 <= y < surf.len() implies r[y] =~= surf[y] by {
        assert forall|x: int| 0 <= x < surf[y].len() implies r[y][x] == surf[y][x] by {}
    }
    assert(r =~= surf);
}

proof fn lemma_front_row_done(
    m: DeviceModel,
    surf: Surface,
    text: Seq<char>,
    px: int,
    py: int,
    fg: Color,
    bg: Color,
    dyl: int,
)
    ensures
        render_front(m, surf, text, px, py, fg, bg, dyl, px + text.len() * m.cell_width)
            == render_front(m, surf, text, px, py, fg, bg, dyl + 1, px),
{
    let r1 = render_front(m, surf, text, px, py, fg, bg, dyl, px + text.len() * m.cell_width);
    let r2 = render_front(m, surf, text, px, py, fg, bg, dyl + 1, px);
    assert forall|y: int| 0 <= y < surf.len() implies r1[y] =~= r2[y] by {
        assert forall|x: int| 0 <= x < surf[y].len() implies r1[y][x] == r2[y][x] by {}
    }
    assert(r1 =~= r2);
}

proof fn lemma_front_done(
    m: DeviceModel,
    surf: Surface,
    text: Seq<char>,
    px: int,
    py: int,
    fg: Color,
    bg: Color,
)
    ensures
        render_front(m, surf, text, px, py, fg, bg, m.cell_height as int, px) == render(
            m,
            surf,
            text,
            px,
            py,
            fg,
            bg,
        ),
{
    let r1 = render_front(m, surf, text, px, py, fg, bg, m.cell_height as int, px);
    let r2 = render(m, surf, text, px, py, fg, bg);
    assert forall|y: int| 0 <= y < surf.len() implies r1[y] =~= r2[y] by {
        assert forall|x: int| 0 <= x < surf[y].len() implies r1[y][x] == r2[y][x] by {}
    }
    assert(r1 =~= r2);
}

proof fn lemma_front_step_noop(
    m: DeviceModel,
    surf: Surface,
    text: Seq<char>,
    px: int,
    py: int,
    fg: Color,
    bg: Color,
    dyl: int,
    hi: int,
)
    requires
        0 <= dyl < m.cell_height,
        hi >= px + text.len() * m.cell_width || !(0 <= py + dyl < surf.len()) || !(0 <= hi < surf[
            py + dyl
        ].len()),
    ensures
        render_front(m, surf, text, px, py, fg, bg, dyl, hi + 1) == render_front(
            m,
            surf,
            text,
            px,
            py,
            fg,
            bg,
            dyl,
            hi,
        ),
{
    let r1 = render_front(m, surf, text, px, py, fg, bg, dyl, hi + 1);
    let r0 = render_front(m, surf, text, px, py, fg, bg, dyl, hi);
    assert forall|y: int| 0 <= y < surf.len() implies r1[y] =~= r0[y] by {
        assert forall|x: int| 0 <= x < surf[y].len() implies r1[y][x] == r0[y][x] by {}
    }
    assert(r1 =~= r0);
}

proof fn lemma_front_step_paint(
    m: DeviceModel,
    surf: Surface,
    cur: Surface,
    text: Seq<char>,
    px: int,
    py: int,
    fg: Color,
    bg: Color,
    dyl: int,
    hi: int,
    paint: Color,
)
    requires
        m.cell_width >= 1,
        0 <= dyl < m.cell_height,
        0 <= py + dyl < surf.len(),
        0 <= hi < surf[py + dyl].len(),
        px <= hi < px + text.len() * m.cell_width,
        cur == render_front(m, surf, text, px, py, fg, bg, dyl, hi),
        paint == (if m.glyphs[text[(hi - px) / m.cell_width as int]][dyl][(hi - px)
            % m.cell_width as int] {
            fg
        } else {
            bg
        }),
    ensures
        render_front(m, surf, text, px, py, fg, bg, dyl, hi + 1) == cur.update(
            py + dyl,
            cur[py + dyl].update(hi, paint),
        ),
{
    let r1 = render_front(m, surf, text, px, py, fg, bg, dyl, hi + 1);
    let upd = cur.update(py + dyl, cur[py + dyl].update(hi, paint));
    assert(cur.len() == surf.len());
    assert forall|y: int| 0 <= y < surf.len() implies r1[y] =~= upd[y] by {
        assert(cur[y].len() == surf[y].len());
        assert forall|x: int| 0 <= x < surf[y].len() implies r1[y][x] == upd[y][x] by {}
    }
    assert(r1 =~= upd);
}

/// Largest character extents of this device.
pub const FONT_MAX_COLUMNS: u32 = 8192;

pub const FONT_MAX_LINES: u32 = 5461;

/// The in-memory display with the four-by-six font: a binary surface where
/// a cleared screen shows `0` and glyph pixels show `1`, with the panic
/// pair inverted.
pub struct MonoFontDisplay {
    columns: u32,
    lines: u32,
    rows: Vec<Vec<Color>>,
}

impl MonoFontDisplay {
    pub closed spec fn spec_columns(&self) -> u32 {
        self.columns
    }

    pub closed spec fn spec_lines(&self) -> u32 {
        self.lines
    }

    pub open spec fn spec_model(columns: u32, lines: u32) -> DeviceModel {
        DeviceModel {
            width: (columns * FONT_CELL_WIDTH) as u32,
            height: (lines * FONT_CELL_HEIGHT) as u32,
            cell_width: FONT_CELL_WIDTH,
            cell_height: FONT_CELL_HEIGHT,
            glyphs: font_4x6_glyphs(),
            background_color: Color { value: 0 },
            text_color: Color { value: 1 },
            panic_background_color: Color { value: 1 },
            panic_text_color: Color { value: 0 },
        }
    }

    /// A fresh display of the given character extent, cleared to the
    /// background color.
    pub fn new(columns: u32, lines: u32) -> (d: MonoFontDisplay)
        requires
            columns <= FONT_MAX_COLUMNS,
            lines <= FONT_MAX_LINES,
        ensures
            d.wf(),
            d.model() == MonoFontDisplay::spec_model(columns, lines),
            d.surface() == uniform_surface(d.model(), Color { value: 0 }),
    {
        let rows = crate::text_display::make_surface_rows(
            columns * FONT_CELL_WIDTH,
            lines * FONT_CELL_HEIGHT,
            Color { value: 0 },
        );
        let d = MonoFontDisplay { columns, lines, rows };
        proof {
            let m = MonoFontDisplay::spec_model(columns, lines);
            let u = uniform_surface(m, Color { value: 0 });
            assert forall|y: int| 0 <= y < d.surface().len() implies d.surface()[y] =~= u[y] by {}
            assert(d.surface() =~= u);
        }
        d
    }

    /// The color of one pixel.
    pub fn pixel(&self, x: u32, y: u32) -> (c: Color)
        requires
            self.wf(),
            x < self.model().width,
            y < self.model().height,
        ensures
            c == self.surface()[y as int][x as int],
    {
        self.rows[y as usize][x as usize]
    }
}

impl Display for MonoFontDisplay {
    closed spec fn model(&self) -> DeviceModel {
        MonoFontDisplay::spec_model(self.columns, self.lines)
    }

    closed spec fn surface(&self) -> Surface {
        Seq::new(self.rows@.len(), |y: int| self.rows@[y]@)
    }

    closed spec fn wf(&self) -> bool {
        &&& self.columns <= FONT_MAX_COLUMNS
        &&& self.lines <= FONT_MAX_LINES
        &&& self.rows@.len() == self.lines * FONT_CELL_HEIGHT
        &&& forall|y: int|
            0 <= y < self.rows@.len() ==> (#[trigger] self.rows@[y])@.len() == self.columns
                * FONT_CELL_WIDTH
    }

    proof fn lemma_wf(&self) {
        assert forall|c: char| #[trigger] font_4x6_glyphs()[c].len() == FONT_CELL_HEIGHT by {}
        assert forall|c: char, dy: int| 0 <= dy < FONT_CELL_HEIGHT implies #[trigger] font_4x6_glyphs()[
            c
        ][dy].len() == FONT_CELL_WIDTH by {}
    }

    fn size(&self) -> (s: PixelSize) {
        PixelSize { width: self.columns * FONT_CELL_WIDTH, height: self.lines * FONT_CELL_HEIGHT }
    }

    fn font(&self) -> (f: FontMetrics) {
        FontMetrics { width: FONT_CELL_WIDTH, height: FONT_CELL_HEIGHT }
    }

    fn background_color(&self) -> (c: Color) {
        Color { value: 0 }
    }

    fn text_color(&self) -> (c: Color) {
        Color { value: 1 }
    }

    fn panic_background_color(&self) -> (c: Color) {
        Color { value: 1 }
    }

    fn panic_text_color(&self) -> (c: Color) {
        Color { value: 0 }
    }

    fn clear(&mut self, color: Color) -> (r: Result<(), DrawError>) {
        let rows = crate::text_display::make_surface_rows(
            self.columns * FONT_CELL_WIDTH,
            self.lines * FONT_CELL_HEIGHT,
            color,
        );
        self.rows = rows;
        proof {
            let u = uniform_surface(self.model(), color);
            assert forall|y: int| 0 <= y < self.surface().len() implies self.surface()[y]
                =~= u[y] by {}
            assert(self.surface() =~= u);
        }
        Ok(())
    }

    #[verifier::rlimit(60)]
    fn draw_text(&mut self, text: &[char], x: i32, y: i32, fg: Color, bg: Color) -> (r: Result<
        (),
        DrawError,
    >) {
        let ghost m = self.model();
        let ghost surf0 = self.surface();
        let width: u32 = self.columns * FONT_CELL_WIDTH;
        let height: u32 = self.lines * FONT_CELL_HEIGHT;
        let mut dy: u32 = 0;
        proof {
            lemma_front_init(m, surf0, text@, x as int, y as int, fg, bg);
        }
        while dy < FONT_CELL_HEIGHT
            invariant
                self.wf(),
                self.columns == old(self).columns,
                self.lines == old(self).lines,
                self.model() == m,
                m.cell_width == FONT_CELL_WIDTH,
                m.cell_height == FONT_CELL_HEIGHT,
                m.glyphs == font_4x6_glyphs(),
                width == self.columns * FONT_CELL_WIDTH,
                height == self.lines * FONT_CELL_HEIGHT,
                surf0.len() == height,
                forall|yv: int| 0 <= yv < surf0.len() ==> (#[trigger] surf0[yv]).len() == width,
                dy <= FONT_CELL_HEIGHT,
                self.surface() == render_front(
                    m,
                    surf0,
                    text@,
                    x as int,
                    y as int,
                    fg,
                    bg,
                    dy as int,
                    x as int,
                ),
            decreases FONT_CELL_HEIGHT - dy,
        {
            let yy64: i64 = y as i64 + dy as i64;
            let mut i: usize = 0;
            let mut xb: i64 = x as i64;
            while i < text.len() && xb < width as i64
                invariant
                    self.wf(),
                    self.columns == old(self).columns,
                    self.lines == old(self).lines,
                    self.model() == m,
                    m.cell_width == FONT_CELL_WIDTH,
                    m.cell_height == FONT_CELL_HEIGHT,
                    m.glyphs == font_4x6_glyphs(),
                    width == self.columns * FONT_CELL_WIDTH,
                    height == self.lines * FONT_CELL_HEIGHT,
                    surf0.len() == height,
                    forall|yv: int| 0 <= yv < surf0.len() ==> (#[trigger] surf0[yv]).len()
                        == width,
                    dy < FONT_CELL_HEIGHT,
                    yy64 == y + dy,
                    i <= text.len(),
                    xb == x + i * FONT_CELL_WIDTH,
                    self.surface() == render_front(
                        m,
                        surf0,
                        text@,
                        x as int,
                        y as int,
                        fg,
                        bg,
                        dy as int,
                        xb as int,
                    ),
                decreases text.len() - i,
            {
                let c: char = text[i];
                let mut dx: u32 = 0;
                while dx < FONT_CELL_WIDTH
                    invariant
                        self.wf(),
                        self.columns == old(self).columns,
                        self.lines == old(self).lines,
                        self.model() == m,
                        m.cell_width == FONT_CELL_WIDTH,
                        m.cell_height == FONT_CELL_HEIGHT,
                        m.glyphs == font_4x6_glyphs(),
                        width == self.columns * FONT_CELL_WIDTH,
                        height == self.lines * FONT_CELL_HEIGHT,
                        surf0.len() == height,
                        forall|yv: int| 0 <= yv < surf0.len() ==> (#[trigger] surf0[yv]).len()
                            == width,
                        dy < FONT_CELL_HEIGHT,
                        yy64 == y + dy,
                        i < text.len(),
                        c == text@[i as int],
                        dx <= FONT_CELL_WIDTH,
                        xb == x + i * FONT_CELL_WIDTH,
                        xb < width,
                        self.surface() == render_front(
                            m,
                            surf0,
                            text@,
                            x as int,
                            y as int,
                            fg,
                            bg,
                            dy as int,
                            xb + dx,
                        ),
                    decreases FONT_CELL_WIDTH - dx,
                {
                    let px_abs: i64 = xb + dx as i64;
                    let ghost hi = xb + dx as int;
                    if px_abs >= 0 && px_abs < width as i64 && yy64 >= 0 && yy64 < height as i64 {
                        let lit: bool = sample_font_4x6(c, dx, dy);
                        let paint: Color = if lit {
                            fg
                        } else {
                            bg
                        };
                        let ghost cur = self.surface();
                        let jj: usize = px_abs as usize;
                        let yy: usize = yy64 as usize;
                        proof {
                            assert(cur[yy as int].len() == surf0[yy as int].len());
                            lemma_fundamental_div_mod_converse(
                                hi - x,
                                FONT_CELL_WIDTH as int,
                                i as int,
                                dx as int,
                            );
                            assert(m.glyphs[text@[i as int]][dy as int][dx as int] == glyph_pixel_4x6(
                                c,
                                dx as int,
                                dy as int,
                            ));
                            lemma_front_step_paint(
                                m,
                                surf0,
                                cur,
                                text@,
                                x as int,
                                y as int,
                                fg,
                                bg,
                                dy as int,
                                hi,
                                paint,
                            );
                        }
                        self.rows[yy][jj] = paint;
                        proof {
                            assert(self.surface() =~= cur.update(
                                yy as int,
                                cur[yy as int].update(hi, paint),
                            ));
                        }
                    } else {
                        proof {
                            lemma_front_step_noop(
                                m,
                                surf0,
                                text@,
                                x as int,
                                y as int,
                                fg,
                                bg,
                                dy as int,
                                hi,
                            );
                        }
                    }
                    dx = dx + 1;
                }
                i = i + 1;
                xb = xb + FONT_CELL_WIDTH as i64;
            }
            proof {
                if i == text.len() {
                    assert(xb as int == x + text@.len() * m.cell_width);
                    assert(render_front(
                        m,
                        surf0,
                        text@,
                        x as int,
                        y as int,
                        fg,
                        bg,
                        dy as int,
                        xb as int,
                    ) == render_front(
                        m,
                        surf0,
                        text@,
                        x as int,
                        y as int,
                        fg,
                        bg,
                        dy as int,
                        x + text@.len() * m.cell_width,
                    ));
                } else {
                    let r1 = render_front(
                        m,
                        surf0,
                        text@,
                        x as int,
                        y as int,
                        fg,
                        bg,
                        dy as int,
                        xb as int,
                    );
                    let r2 = render_front(
                        m,
                        surf0,
                        text@,
                        x as int,
                        y as int,
                        fg,
                        bg,
                        dy as int,
                        x + text@.len() * m.cell_width,
                    );
                    assert forall|yv: int| 0 <= yv < surf0.len() implies r1[yv] =~= r2[yv] by {
                        assert forall|xv: int| 0 <= xv < surf0[yv].len() implies r1[yv][xv]
                            == r2[yv][xv] by {}
                    }
                    assert(r1 =~= r2);
                }
                lemma_front_row_done(m, surf0, text@, x as int, y as int, fg, bg, dy as int);
            }
            dy = dy + 1;
        }
        proof {
            lemma_front_done(m, surf0, text@, x as int, y as int, fg, bg);
        }
        Ok(())
    }

    fn flush(&mut self) -> (r: Result<(), DrawError>) {
        Ok(())
    }
}

} // verus!
