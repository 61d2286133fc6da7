use vstd::prelude::*;
use crate::border::{
    BorderDrawOp, BorderSlot, BorderTemplate, ExtraBorder, border_slot, collect_border_ops,
    ops_of, piece_fg, slot_at, template_ops,
};
use crate::composer::{extras_ops, in_spacing_gap};
use crate::depth_sort::{law_sort_by_z_sorted, sort_by_depth, sort_by_z};
use crate::text::chars_of;
use crate::types::LayerKind;

verus! {

/// The glyph a Fill layer shows in cell (`c`, `r`) of an area `w` wide:
/// its content read row by row and repeated; a blank where it has none.
pub open spec fn fill_glyph(content: Seq<char>, c: int, r: int, w: int) -> char {
    if content.len() == 0 {
        ' '
    } else {
        content[(r * w + c) % (content.len() as int)]
    }
}

/// What a cell of a UI layer shows: whether its background is painted,
/// and the glyphs drawn over it, in drawing order.
pub struct UiCell {
    pub background: bool,
    pub ops: Vec<BorderDrawOp>,
}

/// What a Fill or Border layer of an element shows in cell (`c`, `r`) of
/// its `w` x `h` area, drawn in `fg` (the layer's colour after its state
/// and animation).
///
/// A Fill layer shows `animated` where its animation replaces the glyph,
/// else its content's glyph; in a spaced fill only the cells whose row plus
/// column is a multiple of the spacing are drawn. A Border layer draws its
/// frame at depth 0 and its extra borders at their depths, stably ordered
/// by depth; the extra borders take the colour of the layer's own piece as
/// their default. Interior cells draw nothing; in a spacing gap the layer's
/// own frame and the background are left out, the extra borders are not.
/// Text layers draw no cells here.
pub open spec fn ui_cell(
    kind: LayerKind,
    c: int,
    r: int,
    w: int,
    h: int,
    content: Seq<char>,
    animated: Option<char>,
    border: BorderTemplate,
    extras: Seq<ExtraBorder>,
    composite: bool,
    spacing: int,
    fg: [u8; 3],
) -> (bool, Seq<BorderDrawOp>) {
    match kind {
        LayerKind::Fill => {
            let ch = match animated {
                Some(a) => a,
                None => fill_glyph(content, c, r, w),
            };
            if spacing > 1 && (r + c) % spacing != 0 {
                (false, Seq::empty())
            } else {
                (true, ops_of(seq![ch], fg, 0))
            }
        },
        LayerKind::Border => match slot_at(c, r, w, h) {
            None => (false, Seq::empty()),
            Some(slot) => {
                let gap = in_spacing_gap(c, r, w, h, spacing);
                let main_fg = piece_fg(border.piece_at(slot), fg);
                let own = if gap {
                    Seq::empty()
                } else {
                    template_ops(c, r, w, h, border, composite, fg, 0)
                };
                (!gap, sort_by_z(own + extras_ops(c, r, w, h, extras, composite, main_fg)))
            },
        },
        LayerKind::Text => (false, Seq::empty()),
    }
}

/// What a Fill or Border layer shows in cell (`c`, `r`) of its `w` x `h`
/// area; see [`ui_cell`].
pub fn ui_layer_cell(
    kind: LayerKind,
    c: usize,
    r: usize,
    w: usize,
    h: usize,
    content: &str,
    animated: Option<char>,
    border: &BorderTemplate,
    extras: &Vec<ExtraBorder>,
    composite: bool,
    spacing: usize,
    fg: [u8; 3],
) -> (res: UiCell)
    requires
        w >= 1,
        h >= 1,
        r * w + c <= usize::MAX,
    ensures
        (res.background, res.ops@) == ui_cell(
            kind,
            c as int,
            r as int,
            w as int,
            h as int,
            content@,
            animated,
            *border,
            extras@,
            composite,
            spacing as int,
            fg,
        ),
{
    match kind {
        LayerKind::Fill => {
            let ch = match animated {
                Some(a) => a,
                None => {
                    let chars = chars_of(content);
                    if chars.len() == 0 {
                        ' '
                    } else {
                        chars[(r * w + c) % chars.len()]
                    }
                },
            };
            assert(r <= r * w) by (nonlinear_arith)
                requires
                    w >= 1,
            ;
            if spacing > 1 && (r + c) % spacing != 0 {
                UiCell { background: false, ops: Vec::new() }
            } else {
                let mut ops: Vec<BorderDrawOp> = Vec::new();
                if ch != ' ' {
                    ops.push(BorderDrawOp { ch, fg, z_index: 0 });
                }
                proof {
                    crate::border::lemma_ops_of_single(ch, fg, 0);
                }
                UiCell { background: true, ops }
            }
        },
        LayerKind::Border => match border_slot(c, r, w, h) {
            None => UiCell { background: false, ops: Vec::new() },
            Some(slot) => {
                let top_bot = r == 0 || r == h - 1;
                let sides = c == 0 || c == w - 1;
                let gap = !(top_bot && sides) && spacing > 1 && ((top_bot && c % spacing != 0) || (
                sides && r % spacing != 0));
                let piece = border.piece(slot);
                let main_fg = if piece.color_override {
                    piece.fg_color
                } else {
                    fg
                };
                let mut ops: Vec<BorderDrawOp> = if gap {
                    Vec::new()
                } else {
                    collect_border_ops(c, r, w, h, border, composite, fg, 0)
                };
                let ghost own = ops@;
                let n = extras.len();
                assert(extras@.take(0) =~= Seq::<ExtraBorder>::empty());
                for i in 0..n
                    invariant
                        n == extras.len(),
                        w >= 1,
                        h >= 1,
                        ops@ =~= own + extras_ops(
                            c as int,
                            r as int,
                            w as int,
                            h as int,
                            extras@.take(i as int),
                            composite,
                            main_fg,
                        ),
                {
                    let eb = &extras[i];
                    let mut more = collect_border_ops(
                        c,
                        r,
                        w,
                        h,
                        &eb.template,
                        composite,
                        main_fg,
                        eb.z_index,
                    );
                    assert(extras@.take(i + 1).drop_last() =~= extras@.take(i as int));
                    ops.append(&mut more);
                }
                assert(extras@.take(n as int) =~= extras@);
                UiCell { background: !gap, ops: sort_by_depth(&ops) }
            },
        },
        LayerKind::Text => UiCell { background: false, ops: Vec::new() },
    }
}

/// In a spaced Fill layer a cell is drawn exactly when its row plus its
/// column is a multiple of the spacing, whatever the area's size; a drawn
/// cell shows its glyph (unless blank) in the layer's colour at depth 0.
pub proof fn law_fill_spacing(
    c: int,
    r: int,
    w: int,
    h: int,
    w2: int,
    h2: int,
    content: Seq<char>,
    animated: Option<char>,
    border: BorderTemplate,
    extras: Seq<ExtraBorder>,
    composite: bool,
    spacing: int,
    fg: [u8; 3],
)
    requires
        spacing > 1,
    ensures
        ui_cell(LayerKind::Fill, c, r, w, h, content, animated, border, extras, composite, spacing, fg).0
            <==> (r + c) % spacing == 0,
        ui_cell(LayerKind::Fill, c, r, w, h, content, animated, border, extras, composite, spacing, fg).0
            == ui_cell(
            LayerKind::Fill,
            c,
            r,
            w2,
            h2,
            content,
            animated,
            border,
            extras,
            composite,
            spacing,
            fg,
        ).0,
        !ui_cell(LayerKind::Fill, c, r, w, h, content, animated, border, extras, composite, spacing, fg).0
            ==> ui_cell(
            LayerKind::Fill,
            c,
            r,
            w,
            h,
            content,
            animated,
            border,
            extras,
            composite,
            spacing,
            fg,
        ).1.len() == 0,
        forall|i: int|
            0 <= i < ui_cell(
                LayerKind::Fill,
                c,
                r,
                w,
                h,
                content,
                animated,
                border,
                extras,
                composite,
                spacing,
                fg,
            ).1.len() ==> {
                let op = #[trigger] ui_cell(
                    LayerKind::Fill,
                    c,
                    r,
                    w,
                    h,
                    content,
                    animated,
                    border,
                    extras,
                    composite,
                    spacing,
                    fg,
                ).1[i];
                op.fg == fg && op.z_index == 0 && op.ch != ' '
            },
{
    let ch = match animated {
        Some(a) => a,
        None => fill_glyph(content, c, r, w),
    };
    crate::border::lemma_ops_of_colour(seq![ch], fg, 0);
}

/// A Border layer paints the background of its frame cells except in the
/// gaps of a spaced border (cells away from the corners whose column, on
/// the top and bottom rows, or row, on the side columns, is not a multiple
/// of the spacing); interior cells show nothing; the glyphs of a cell come
/// in non-decreasing depth.
pub proof fn law_border_cells(
    c: int,
    r: int,
    w: int,
    h: int,
    content: Seq<char>,
    animated: Option<char>,
    border: BorderTemplate,
    extras: Seq<ExtraBorder>,
    composite: bool,
    spacing: int,
    fg: [u8; 3],
)
    ensures
        ({
            let cell = ui_cell(
                LayerKind::Border,
                c,
                r,
                w,
                h,
                content,
                animated,
                border,
                extras,
                composite,
                spacing,
                fg,
            );
            let top_bot = r == 0 || r == h - 1;
            let sides = c == 0 || c == w - 1;
            let gap = !(top_bot && sides) && spacing > 1 && ((top_bot && c % spacing != 0) || (sides
                && r % spacing != 0));
            &&& !(top_bot || sides) ==> !cell.0 && cell.1.len() == 0
            &&& (top_bot || sides) ==> (cell.0 <==> !gap)
            &&& forall|a: int, b: int|
                0 <= a <= b < cell.1.len() ==> cell.1[a].z_index <= cell.1[b].z_index
        }),
{
    match slot_at(c, r, w, h) {
        None => {},
        Some(slot) => {
            let gap = in_spacing_gap(c, r, w, h, spacing);
            let main_fg = piece_fg(border.piece_at(slot), fg);
            let own = if gap {
                Seq::empty()
            } else {
                template_ops(c, r, w, h, border, composite, fg, 0)
            };
            law_sort_by_z_sorted(own + extras_ops(c, r, w, h, extras, composite, main_fg));
        },
    }
}

/// A drawn Fill cell shows the animation's glyph where there is one, else
/// the content read row by row (cell `r * w + c` of the repeated content),
/// a blank drawing nothing.
pub proof fn law_fill_glyph(
    c: int,
    r: int,
    w: int,
    h: int,
    content: Seq<char>,
    animated: Option<char>,
    border: BorderTemplate,
    extras: Seq<ExtraBorder>,
    composite: bool,
    spacing: int,
    fg: [u8; 3],
)
    ensures
        ({
            let cell = ui_cell(
                LayerKind::Fill,
                c,
                r,
                w,
                h,
                content,
                animated,
                border,
                extras,
                composite,
                spacing,
                fg,
            );
            let g = match animated {
                Some(a) => a,
                None => if content.len() == 0 {
                    ' '
                } else {
                    content[(r * w + c) % (content.len() as int)]
                },
            };
            cell.0 ==> cell.1.len() == (if g != ' ' { 1int } else { 0int }) && (cell.1.len() == 1
                ==> cell.1[0].ch == g)
        }),
{
    let g = match animated {
        Some(a) => a,
        None => fill_glyph(content, c, r, w),
    };
    crate::border::lemma_ops_of_single(g, fg, 0);
}

} // verus!
