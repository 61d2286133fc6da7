use studio_core::border::{BorderDrawOp, BorderPiece, BorderTemplate, ExtraBorder};
use studio_core::types::LayerKind;
use studio_core::ui_cells::ui_layer_cell;

fn op(ch: char, fg: [u8; 3], z: i32) -> BorderDrawOp {
    BorderDrawOp { ch, fg, z_index: z }
}

const FG: [u8; 3] = [200, 100, 50];

fn fill(c: usize, r: usize, content: &str, animated: Option<char>, spacing: usize) -> (bool, Vec<BorderDrawOp>) {
    let cell = ui_layer_cell(
        LayerKind::Fill, c, r, 3, 2, content, animated, &BorderTemplate::default(), &vec![], false, spacing, FG,
    );
    (cell.background, cell.ops)
}

#[test]
fn fill_reads_content_row_by_row() {
    assert_eq!(fill(1, 0, "ab", None, 1), (true, vec![op('b', FG, 0)]));
    assert_eq!(fill(2, 0, "ab", None, 1), (true, vec![op('a', FG, 0)]));
    // row 1, column 1 is the fifth cell: "ab" repeated gives 'a'
    assert_eq!(fill(1, 1, "ab", None, 1), (true, vec![op('a', FG, 0)]));
    assert_eq!(fill(2, 1, "abc", None, 1), (true, vec![op('c', FG, 0)]));
}

#[test]
fn fill_without_content_paints_background_only() {
    assert_eq!(fill(1, 1, "", None, 1), (true, vec![]));
}

#[test]
fn fill_animation_replaces_glyph() {
    assert_eq!(fill(0, 0, "ab", Some('#'), 1), (true, vec![op('#', FG, 0)]));
}

#[test]
fn spaced_fill_leaves_gaps() {
    assert_eq!(fill(1, 0, "ab", None, 2), (false, vec![]));
    assert_eq!(fill(1, 1, "ab", None, 2), (true, vec![op('a', FG, 0)]));
}

fn border(c: usize, r: usize, t: &BorderTemplate, extras: &Vec<ExtraBorder>, spacing: usize) -> (bool, Vec<BorderDrawOp>) {
    let cell = ui_layer_cell(LayerKind::Border, c, r, 4, 3, "", None, t, extras, false, spacing, FG);
    (cell.background, cell.ops)
}

#[test]
fn border_draws_frame_only() {
    let t = BorderTemplate::default();
    assert_eq!(border(0, 0, &t, &vec![], 1), (true, vec![op('╔', FG, 0)]));
    assert_eq!(border(1, 0, &t, &vec![], 1), (true, vec![op('═', FG, 0)]));
    assert_eq!(border(3, 1, &t, &vec![], 1), (true, vec![op('║', FG, 0)]));
    assert_eq!(border(1, 1, &t, &vec![], 1), (false, vec![]));
}

#[test]
fn extra_borders_take_the_pieces_colour_and_sort_by_depth() {
    let mut t = BorderTemplate::default();
    t.top_left.color_override = true;
    t.top_left.fg_color = [1, 2, 3];
    let mut extra = ExtraBorder::default();
    extra.template.top_left = BorderPiece::new("x");
    extra.z_index = -1;
    let (bg, ops) = border(0, 0, &t, &vec![extra], 1);
    assert!(bg);
    assert_eq!(ops, vec![op('x', [1, 2, 3], -1), op('╔', [1, 2, 3], 0)]);
}

#[test]
fn spacing_gap_keeps_extra_borders() {
    let t = BorderTemplate::default();
    let mut extra = ExtraBorder::default();
    extra.template.top_pattern = BorderPiece::new("~");
    let (bg, ops) = border(1, 0, &t, &vec![extra.clone()], 2);
    assert!(!bg);
    assert_eq!(ops, vec![op('~', FG, 1)]);
    // column 2 is on the spacing: both draw
    let (bg2, ops2) = border(2, 0, &t, &vec![extra], 2);
    assert!(bg2);
    assert_eq!(ops2, vec![op('═', FG, 0), op('~', FG, 1)]);
}

#[test]
fn text_layers_draw_no_cells() {
    let cell = ui_layer_cell(
        LayerKind::Text, 0, 0, 3, 3, "abc", None, &BorderTemplate::default(), &vec![], false, 1, FG,
    );
    assert!(!cell.background);
    assert!(cell.ops.is_empty());
}
