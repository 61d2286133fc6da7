use studio_core::border::{collect_border_ops, BorderDrawOp, BorderPiece, BorderTemplate, ExtraBorder};
use studio_core::composer::border_cell_ops;
use studio_core::texture::{LayerGenMode, TextureLayer};

fn op(ch: char, fg: [u8; 3], z: i32) -> BorderDrawOp {
    BorderDrawOp { ch, fg, z_index: z }
}

#[test]
fn corners_draw_first_glyph_of_their_piece() {
    let t = BorderTemplate::brick();
    let fg = [1, 2, 3];
    assert_eq!(collect_border_ops(0, 0, 6, 6, &t, false, fg, 0), vec![op('┌', fg, 0)]);
    assert_eq!(collect_border_ops(5, 0, 6, 6, &t, false, fg, 0), vec![op('┐', fg, 0)]);
    assert_eq!(collect_border_ops(0, 5, 6, 6, &t, false, fg, 0), vec![op('└', fg, 0)]);
    assert_eq!(collect_border_ops(5, 5, 6, 6, &t, false, fg, 7), vec![op('┘', fg, 7)]);
}

#[test]
fn interior_cells_draw_nothing() {
    let t = BorderTemplate::brick();
    assert!(collect_border_ops(2, 2, 6, 6, &t, false, [9, 9, 9], 0).is_empty());
}

#[test]
fn edges_walk_their_pattern_one_step_behind() {
    let t = BorderTemplate::interwoven();
    let fg = [10, 20, 30];
    // top edge pattern "=-": column c uses glyph (c - 1) % 2
    assert_eq!(collect_border_ops(1, 0, 6, 6, &t, false, fg, 0), vec![op('=', fg, 0)]);
    assert_eq!(collect_border_ops(2, 0, 6, 6, &t, false, fg, 0), vec![op('-', fg, 0)]);
    assert_eq!(collect_border_ops(3, 0, 6, 6, &t, false, fg, 0), vec![op('=', fg, 0)]);
    // left edge pattern ":.": row r uses glyph (r - 1) % 2
    assert_eq!(collect_border_ops(0, 2, 6, 6, &t, false, fg, 0), vec![op('.', fg, 0)]);
    assert_eq!(collect_border_ops(5, 3, 6, 6, &t, false, fg, 0), vec![op(':', fg, 0)]);
}

#[test]
fn composite_borders_draw_whole_pattern() {
    let t = BorderTemplate::stone();
    let fg = [5, 5, 5];
    assert_eq!(
        collect_border_ops(2, 0, 6, 6, &t, true, fg, 2),
        vec![op('▀', fg, 2), op('▀', fg, 2)]
    );
    assert_eq!(
        collect_border_ops(2, 5, 6, 6, &t, true, fg, 2),
        vec![op('▄', fg, 2), op('▄', fg, 2)]
    );
}

#[test]
fn blanks_and_empty_patterns_draw_nothing() {
    let mut t = BorderTemplate::empty();
    assert!(collect_border_ops(0, 0, 4, 4, &t, false, [0, 0, 0], 0).is_empty());
    t.top_pattern = BorderPiece::new("a b");
    let ops = collect_border_ops(1, 0, 4, 4, &t, true, [0, 0, 0], 0);
    assert_eq!(ops, vec![op('a', [0, 0, 0], 0), op('b', [0, 0, 0], 0)]);
    // column 2 of a non-composite edge lands on the blank
    assert!(collect_border_ops(2, 0, 4, 4, &t, false, [0, 0, 0], 0).is_empty());
}

#[test]
fn color_override_replaces_layer_color() {
    let mut t = BorderTemplate::round();
    t.top_left.color_override = true;
    t.top_left.fg_color = [255, 0, 0];
    assert_eq!(collect_border_ops(0, 0, 3, 3, &t, false, [1, 1, 1], 0), vec![op('╭', [255, 0, 0], 0)]);
    assert_eq!(collect_border_ops(2, 0, 3, 3, &t, false, [1, 1, 1], 0), vec![op('╮', [1, 1, 1], 0)]);
}

#[test]
fn single_row_grid_uses_top_corners() {
    let t = BorderTemplate::default();
    assert_eq!(collect_border_ops(0, 0, 3, 1, &t, false, [0, 0, 0], 0), vec![op('╔', [0, 0, 0], 0)]);
    assert_eq!(collect_border_ops(1, 0, 3, 1, &t, false, [0, 0, 0], 0), vec![op('═', [0, 0, 0], 0)]);
}

fn border_layer() -> TextureLayer {
    let mut l = TextureLayer::default();
    l.gen_mode = LayerGenMode::DirectionalBorder;
    l.border = BorderTemplate::brick();
    l.fg_color = [7, 8, 9];
    l
}

#[test]
fn extra_borders_are_ordered_by_depth() {
    let mut l = border_layer();
    let mut below = ExtraBorder::default();
    below.template = BorderTemplate::solid();
    below.z_index = -1;
    let mut above = ExtraBorder::default();
    above.template = BorderTemplate::round();
    above.z_index = 3;
    l.extra_borders = vec![above, below];
    let ops = border_cell_ops(0, 0, 5, 5, &l.border.clone(), &l.extra_borders.clone(), &l);
    let fg = [7, 8, 9];
    assert_eq!(ops, vec![op('█', fg, -1), op('┌', fg, 0), op('╭', fg, 3)]);
}

#[test]
fn equal_depths_keep_their_order() {
    let mut l = border_layer();
    let mut a = ExtraBorder::default();
    a.template = BorderTemplate::round();
    a.z_index = 0;
    l.extra_borders = vec![a];
    let ops = border_cell_ops(0, 0, 5, 5, &l.border.clone(), &l.extra_borders.clone(), &l);
    assert_eq!(ops, vec![op('┌', [7, 8, 9], 0), op('╭', [7, 8, 9], 0)]);
}

#[test]
fn spacing_leaves_gaps_away_from_corners() {
    let mut l = border_layer();
    l.pattern_spacing = 2;
    let b = l.border.clone();
    let e = l.extra_borders.clone();
    assert!(border_cell_ops(1, 0, 6, 6, &b, &e, &l).is_empty());
    assert_eq!(border_cell_ops(2, 0, 6, 6, &b, &e, &l).len(), 1);
    assert!(border_cell_ops(0, 3, 6, 6, &b, &e, &l).is_empty());
    assert_eq!(border_cell_ops(0, 4, 6, 6, &b, &e, &l).len(), 1);
    // corners are never skipped
    assert_eq!(border_cell_ops(5, 5, 6, 6, &b, &e, &l).len(), 1);
    // interior cells draw nothing
    assert!(border_cell_ops(2, 2, 6, 6, &b, &e, &l).is_empty());
}

#[test]
fn templates_hold_their_patterns() {
    let t = BorderTemplate::default();
    assert_eq!(t.top_left.pattern, "╔");
    assert_eq!(t.right_pattern.pattern, "║");
    assert!(!t.top_left.color_override);
    assert_eq!(t.top_left.fg_color, [255, 255, 255]);
    let s = BorderTemplate::stone();
    assert_eq!(s.top_pattern.pattern, "▀▀");
    assert_eq!(s.bottom_pattern.pattern, "▄▄");
    let e = ExtraBorder::default();
    assert_eq!(e.z_index, 1);
    assert_eq!(e.template.top_left.pattern, "");
    assert_eq!(BorderPiece::new("x").pattern, "x");
}
