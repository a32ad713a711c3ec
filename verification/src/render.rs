//! The mathematical model of a pixel display and of text rendering on it.

use crate::geometry::{Color, MAX_CELL_DIM, MAX_SURFACE_DIM};
use crate::style::DisplayTextStyle;
use vstd::prelude::*;

verus! {

/// The fixed part of a display device: its pixel extent, its glyph cell
/// extent, the shape of every glyph, and its paired palette colors.
/// A glyph shape maps a cell-local pixel to `true` where the glyph paints
/// the text color and `false` where it paints the background color.
pub ghost struct DeviceModel {
    pub width: u32,
    pub height: u32,
    pub cell_width: u32,
    pub cell_height: u32,
    pub glyphs: Map<char, Seq<Seq<bool>>>,
    pub background_color: Color,
    pub text_color: Color,
    pub panic_background_color: Color,
    pub panic_text_color: Color,
}

/// The mutable part of a display device: one color per pixel, row-major.
pub type Surface = Seq<Seq<Color>>;

impl DeviceModel {
    pub open spec fn wf(&self) -> bool {
        &&& self.width <= MAX_SURFACE_DIM
        &&& self.height <= MAX_SURFACE_DIM
        &&& 1 <= self.cell_width <= MAX_CELL_DIM
        &&& 1 <= self.cell_height <= MAX_CELL_DIM
        &&& self.glyphs.dom() == Set::<char>::full()
        &&& forall|c: char| #[trigger] self.glyphs[c].len() == self.cell_height
        &&& forall|c: char, dy: int|
            0 <= dy < self.cell_height ==> #[trigger] self.glyphs[c][dy].len() == self.cell_width
    }
}

/// A surface matches a model when it has the model's pixel extent.
pub open spec fn surface_wf(m: DeviceModel, surf: Surface) -> bool {
    &&& surf.len() == m.height
    &&& forall|y: int| 0 <= y < surf.len() ==> #[trigger] surf[y].len() == m.width
}

/// Every pixel of the model's extent set to one color.
pub open spec fn uniform_surface(m: DeviceModel, c: Color) -> Surface {
    Seq::new(m.height as nat, |y: int| Seq::new(m.width as nat, |x: int| c))
}

/// The surface after a run of glyphs is stamped with its top-left corner at
/// pixel `(px, py)`: inside the run's bounding box each pixel takes the text
/// or background color as its glyph shape says; every other pixel, and every
/// pixel outside the surface, is untouched.
pub open spec fn render(
    m: DeviceModel,
    surf: Surface,
    text: Seq<char>,
    px: int,
    py: int,
    fg: Color,
    bg: Color,
) -> Surface {
    Seq::new(
        surf.len(),
        |y: int|
            Seq::new(
                surf[y].len(),
                |x: int|
                    if py <= y < py + m.cell_height && px <= x < px + text.len() * m.cell_width {
                        let i = (x - px) / m.cell_width as int;
                        let dx = (x - px) % m.cell_width as int;
                        let dy = y - py;
                        if m.glyphs[text[i]][dy][dx] {
                            fg
                        } else {
                            bg
                        }
                    } else {
                        surf[y][x]
                    },
            ),
    )
}

/// One draw call the writer makes: a run of characters placed at a
/// character-space position.
pub ghost struct DrawOp {
    pub col: usize,
    pub row: usize,
    pub text: Seq<char>,
}

/// The pixel x coordinate of a character-space column under a style.
pub open spec fn column_px(style: DisplayTextStyle, col: usize) -> int {
    style.position.x + col * style.character_style.font.width
}

/// The pixel y coordinate of the top of a character-space row under a style.
/// A bottom baseline anchors the given position at the cell's bottom row.
pub open spec fn row_py(style: DisplayTextStyle, row: usize) -> int {
    style.position.y + row * style.character_style.font.height - match style.baseline {
        crate::geometry::Baseline::Top => 0int,
        crate::geometry::Baseline::Bottom => style.character_style.font.height - 1,
    }
}

/// The surface after a sequence of draw calls, applied in order with the
/// style's colors.
pub open spec fn apply_ops(
    m: DeviceModel,
    surf: Surface,
    style: DisplayTextStyle,
    ops: Seq<DrawOp>,
) -> Surface
    decreases ops.len(),
{
    if ops.len() == 0 {
        surf
    } else {
        apply_ops(
            m,
            render(
                m,
                surf,
                ops[0].text,
                column_px(style, ops[0].col),
                row_py(style, ops[0].row),
                style.character_style.text_color,
                style.character_style.background_color,
            ),
            style,
            ops.drop_first(),
        )
    }
}

/// Appending one draw call renders it after the rest.
pub proof fn lemma_apply_ops_push(
    m: DeviceModel,
    surf: Surface,
    style: DisplayTextStyle,
    ops: Seq<DrawOp>,
    op: DrawOp,
)
    ensures
        apply_ops(m, surf, style, ops.push(op)) == render(
            m,
            apply_ops(m, surf, style, ops),
            op.text,
            column_px(style, op.col),
            row_py(style, op.row),
            style.character_style.text_color,
            style.character_style.background_color,
        ),
    decreases ops.len(),
{
    let fg = style.character_style.text_color;
    let bg = style.character_style.background_color;
    if ops.len() == 0 {
        let s1 = ops.push(op);
        assert(s1[0] == op);
        assert(s1.drop_first() =~= Seq::<DrawOp>::empty());
        let r = render(m, surf, op.text, column_px(style, op.col), row_py(style, op.row), fg, bg);
        assert(apply_ops(m, surf, style, s1) == apply_ops(m, r, style, s1.drop_first()));
        assert(apply_ops(m, r, style, s1.drop_first()) == r);
        assert(apply_ops(m, surf, style, ops) == surf);
    } else {
        let s1 = ops.push(op);
        assert(s1[0] == ops[0]);
        assert(s1.drop_first() =~= ops.drop_first().push(op));
        let r0 = render(
            m,
            surf,
            ops[0].text,
            column_px(style, ops[0].col),
            row_py(style, ops[0].row),
            fg,
            bg,
        );
        assert(apply_ops(m, surf, style, s1) == apply_ops(
            m,
            r0,
            style,
            ops.drop_first().push(op),
        ));
        lemma_apply_ops_push(m, r0, style, ops.drop_first(), op);
        assert(apply_ops(m, surf, style, ops) == apply_ops(m, r0, style, ops.drop_first()));
    }
}

/// A draw whose run lies entirely to the right of, above, or below the
/// surface changes nothing.
pub proof fn lemma_render_offscreen(
    m: DeviceModel,
    surf: Surface,
    text: Seq<char>,
    px: int,
    py: int,
    fg: Color,
    bg: Color,
)
    requires
        (forall|y: int| 0 <= y < surf.len() ==> #[trigger] surf[y].len() <= px) || py >= surf.len()
            || py + m.cell_height <= 0,
    ensures
        render(m, surf, text, px, py, fg, bg) == surf,
{
    let r = render(m, surf, text, px, py, fg, bg);
    assert forall|y: int| 0 <= y < surf.len() implies r[y] =~= surf[y] by {
        assert forall|x: int| 0 <= x < surf[y].len() implies r[y][x] == surf[y][x] by {}
    }
    assert(r =~= surf);
}

} // verus!
