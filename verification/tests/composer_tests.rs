use studio_core::border::{BorderTemplate, ExtraBorder};
use studio_core::composer::{
    composed_size, has_border, layer_cell_glyph, layer_draw_order, layer_panel_order, noise_seed_bits,
    relief_seed_bits, LayerRef,
};
use studio_core::texture::{
    default_bg_color, default_layer_name, default_pattern_spacing, default_true, gen_mode_label,
    AxiomTexture, BlendMode, HeightFunction, LayerGenMode, TextureLayer, TileWrapMode,
};

fn layer(mode: LayerGenMode, pattern: &str) -> TextureLayer {
    let mut l = TextureLayer::default();
    l.gen_mode = mode;
    l.pattern = pattern.to_string();
    l
}

#[test]
fn solid_repeats_glyph_set_along_diagonals() {
    let l = layer(LayerGenMode::Solid, "ab");
    assert_eq!(layer_cell_glyph(0, 0, 4, 4, 0, 0, &l, None), Some('a'));
    assert_eq!(layer_cell_glyph(1, 0, 4, 4, 1, 0, &l, None), Some('b'));
    assert_eq!(layer_cell_glyph(1, 1, 4, 4, 1, 1, &l, None), Some('a'));
    assert_eq!(layer_cell_glyph(3, 2, 4, 4, 3, 2, &l, None), Some('b'));
}

#[test]
fn empty_pattern_draws_nothing() {
    for mode in [LayerGenMode::Solid, LayerGenMode::Noise, LayerGenMode::Checker, LayerGenMode::Border, LayerGenMode::Fill] {
        let l = layer(mode, "");
        assert_eq!(layer_cell_glyph(0, 0, 4, 4, 0, 0, &l, Some(3)), None);
    }
}

#[test]
fn checker_draws_first_glyph_on_even_tiles() {
    let l = layer(LayerGenMode::Checker, "#*");
    assert_eq!(layer_cell_glyph(0, 0, 4, 4, 0, 0, &l, None), Some('#'));
    assert_eq!(layer_cell_glyph(1, 0, 4, 4, 1, 0, &l, None), None);
    assert_eq!(layer_cell_glyph(1, 1, 4, 4, 1, 1, &l, None), Some('#'));
}

#[test]
fn border_mode_draws_only_on_the_frame() {
    let l = layer(LayerGenMode::Border, "xy");
    assert_eq!(layer_cell_glyph(0, 2, 5, 5, 0, 2, &l, None), Some('x'));
    assert_eq!(layer_cell_glyph(4, 1, 5, 5, 4, 1, &l, None), Some('y'));
    assert_eq!(layer_cell_glyph(2, 2, 5, 5, 2, 2, &l, None), None);
}

#[test]
fn fill_with_spacing_leaves_gaps() {
    let mut l = layer(LayerGenMode::Fill, "abc");
    assert_eq!(layer_cell_glyph(1, 1, 4, 4, 1, 1, &l, None), Some('c')); // 1 + 1*4 = 5 -> 'c'
    l.pattern_spacing = 3;
    assert_eq!(layer_cell_glyph(1, 1, 4, 4, 1, 1, &l, None), None);
    assert_eq!(layer_cell_glyph(1, 2, 4, 4, 1, 2, &l, None), Some('a')); // 1 + 2*4 = 9 -> 'a'
}

#[test]
fn noise_uses_its_pick() {
    let l = layer(LayerGenMode::Noise, "abcd");
    assert_eq!(layer_cell_glyph(0, 0, 4, 4, 0, 0, &l, Some(6)), Some('c'));
    assert_eq!(layer_cell_glyph(0, 0, 4, 4, 0, 0, &l, None), None);
}

#[test]
fn directional_border_draws_corners_and_leaves_interior() {
    let mut l = layer(LayerGenMode::DirectionalBorder, "");
    l.border = BorderTemplate::brick();
    assert_eq!(layer_cell_glyph(0, 0, 6, 6, 0, 0, &l, None), Some('┌'));
    assert_eq!(layer_cell_glyph(2, 2, 6, 6, 2, 2, &l, None), None);
    assert_eq!(layer_cell_glyph(3, 0, 6, 6, 3, 0, &l, None), Some('─'));
}

#[test]
fn directional_border_takes_lowest_depth_first() {
    let mut l = layer(LayerGenMode::DirectionalBorder, "");
    l.border = BorderTemplate::brick();
    let mut e = ExtraBorder::default();
    e.template = BorderTemplate::solid();
    e.z_index = -5;
    l.extra_borders = vec![e];
    assert_eq!(layer_cell_glyph(0, 0, 6, 6, 0, 0, &l, None), Some('█'));
}

#[test]
fn noise_hashes_match_their_formula() {
    assert_eq!(noise_seed_bits(1, 2), 183549);
    assert_eq!(noise_seed_bits(100000, 70000), 3321999408);
    assert_eq!(relief_seed_bits(5, 7, 1000), 746458);
}

#[test]
fn draw_order_is_visible_layers_by_depth() {
    let mut a = TextureLayer::default();
    a.z_index = 2;
    let mut b = TextureLayer::default();
    b.z_index = -1;
    let mut c = TextureLayer::default();
    c.z_index = 2;
    let mut d = TextureLayer::default();
    d.z_index = 0;
    d.is_visible = false;
    let order = layer_draw_order(&vec![a, b, c, d]);
    assert_eq!(
        order,
        vec![
            LayerRef { index: 1, z_index: -1 },
            LayerRef { index: 0, z_index: 2 },
            LayerRef { index: 2, z_index: 2 },
        ]
    );
}

#[test]
fn has_border_sees_any_border_layer() {
    let plain = vec![TextureLayer::default()];
    assert!(!has_border(&plain));
    let mut hidden = layer(LayerGenMode::DirectionalBorder, "");
    hidden.is_visible = false;
    assert!(has_border(&vec![TextureLayer::default(), hidden]));
    assert!(has_border(&vec![layer(LayerGenMode::Border, "#")]));
}

#[test]
fn composed_size_is_at_least_one() {
    let mut t = AxiomTexture::default();
    assert_eq!(composed_size(&t), (8, 8));
    t.resolution = [0, 5];
    assert_eq!(composed_size(&t), (1, 5));
}

#[test]
fn defaults_of_texture_data() {
    let l = TextureLayer::default();
    assert_eq!(l.name, "Yeni Katman");
    assert!(l.is_visible);
    assert_eq!(l.pattern, "▓");
    assert_eq!(l.fg_color, [200, 200, 200]);
    assert_eq!(l.blend_mode, BlendMode::Normal);
    assert_eq!(l.tile_wrap, TileWrapMode::Repeat);
    assert_eq!(l.height_function, HeightFunction::Flat);
    assert_eq!(l.border.top_left.pattern, "╔");
    assert_eq!(l.pattern_spacing, 1);
    let t = AxiomTexture::default();
    assert_eq!(t.id, "Tex_1");
    assert_eq!(t.name, "Gelişmiş Materyal");
    assert_eq!(t.layers.len(), 1);
    assert_eq!(t.base_color, [20, 20, 25]);
    assert_eq!(default_layer_name(), "Yeni Katman");
    assert!(default_true());
    assert_eq!(default_pattern_spacing(), 1);
    assert_eq!(default_bg_color(), [0, 0, 0]);
    assert_eq!(BlendMode::default(), BlendMode::Normal);
    assert_eq!(TileWrapMode::default(), TileWrapMode::Repeat);
    assert_eq!(HeightFunction::default(), HeightFunction::Flat);
}

#[test]
fn mode_labels() {
    assert_eq!(gen_mode_label(&LayerGenMode::Solid), "Solid — Düz Tekrar");
    assert_eq!(gen_mode_label(&LayerGenMode::Fill), "Fill — İç Dolgu (Tuğla Aralığı)");
    assert_eq!(
        gen_mode_label(&LayerGenMode::DirectionalBorder),
        "Directional — Yönlü Kenarlar (Üst/Sol/Alt/Sağ)"
    );
}

#[test]
fn panel_lists_hidden_layers_too_by_depth() {
    let mut a = TextureLayer::default();
    a.z_index = 2;
    let mut b = TextureLayer::default();
    b.z_index = -1;
    let mut c = TextureLayer::default();
    c.z_index = 0;
    c.is_visible = false;
    let mut d = TextureLayer::default();
    d.z_index = 2;
    let order = layer_panel_order(&vec![a, b, c, d]);
    assert_eq!(
        order,
        vec![
            LayerRef { index: 1, z_index: -1 },
            LayerRef { index: 2, z_index: 0 },
            LayerRef { index: 0, z_index: 2 },
            LayerRef { index: 3, z_index: 2 },
        ]
    );
}
