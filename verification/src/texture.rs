use vstd::prelude::*;
use crate::border::{BorderTemplate, ExtraBorder, plain_template};

verus! {

/// How a layer's colour combines with what lies beneath it.
#[derive(Clone, Copy, Debug, PartialEq, Eq, Structural)]
pub enum BlendMode {
    Normal,
    Additive,
    Multiply,
    Subtractive,
    Overlay,
}

impl Default for BlendMode {
    fn default() -> (r: Self)
        ensures
            r == BlendMode::Normal,
    {
        BlendMode::Normal
    }
}

/// How a layer lays its glyphs over the grid.
#[derive(Clone, Copy, Debug, PartialEq, Eq, Structural)]
pub enum LayerGenMode {
    /// The glyph set repeated over the whole grid.
    Solid,
    /// The glyph set scattered pseudo-randomly.
    Noise,
    /// A checkerboard of the first glyph.
    Checker,
    /// A simple frame along the grid's edge.
    Border,
    /// An inner fill, with brick-like spacing.
    Fill,
    /// A frame with its own glyphs for each edge and corner.
    DirectionalBorder,
}

/// How tile coordinates beyond the grid are brought back into it.
#[derive(Clone, Copy, Debug, PartialEq, Eq, Structural)]
pub enum TileWrapMode {
    Repeat,
    Mirror,
    Clamp,
}

impl Default for TileWrapMode {
    fn default() -> (r: Self)
        ensures
            r == TileWrapMode::Repeat,
    {
        TileWrapMode::Repeat
    }
}

/// The relief a layer adds on top of its flat height.
#[derive(Clone, Copy, Debug, PartialEq, Eq, Structural)]
pub enum HeightFunction {
    Flat,
    Noise,
    Wave,
    CellBulge,
}

impl Default for HeightFunction {
    fn default() -> (r: Self)
        ensures
            r == HeightFunction::Flat,
    {
        HeightFunction::Flat
    }
}

/// The name a layer gets when it has none.
pub fn default_layer_name() -> (r: String)
    ensures
        r@ == "Yeni Katman"@,
{
    String::from_str("Yeni Katman")
}

pub fn default_true() -> (r: bool)
    ensures
        r,
{
    true
}

/// A layer without a spacing draws in every cell.
pub fn default_pattern_spacing() -> (r: usize)
    ensures
        r == 1,
{
    1
}

/// A layer's background is black unless it says otherwise.
pub fn default_bg_color() -> (r: [u8; 3])
    ensures
        r == [0u8, 0u8, 0u8],
{
    [0, 0, 0]
}

/// What the composer reads of a texture layer: which cells it draws and
/// with which glyphs and colours. (Opacity, relief amplitude, UV transform
/// and the other continuous parameters stay with the editor.)
#[derive(Clone, Debug)]
pub struct TextureLayer {
    pub name: String,
    pub is_visible: bool,
    pub z_index: i32,
    pub blend_mode: BlendMode,
    pub manual_painting: bool,
    pub pattern_lock: bool,
    pub gen_mode: LayerGenMode,
    /// The glyph set (Solid, Noise, Checker, Border, Fill).
    pub pattern: String,
    pub font_family: String,
    pub height_function: HeightFunction,
    pub fg_color: [u8; 3],
    pub fg_gradient_end: Option<[u8; 3]>,
    pub bg_color: [u8; 3],
    pub tile_wrap: TileWrapMode,
    /// The frame drawn in DirectionalBorder mode.
    pub border: BorderTemplate,
    pub extra_borders: Vec<ExtraBorder>,
    /// Brick spacing: 1 draws every cell, 2 and more leave gaps.
    pub pattern_spacing: usize,
    pub border_composite: bool,
}

impl Default for TextureLayer {
    /// A visible, solid layer of shaded blocks over a double-lined frame.
    fn default() -> (l: Self)
        ensures
            l.name@ == "Yeni Katman"@,
            l.is_visible,
            l.z_index == 0,
            l.blend_mode == BlendMode::Normal,
            !l.manual_painting,
            !l.pattern_lock,
            l.gen_mode == LayerGenMode::Solid,
            l.pattern@ == "▓"@,
            l.font_family@ == "Monospace"@,
            l.height_function == HeightFunction::Flat,
            l.fg_color == [200u8, 200u8, 200u8],
            l.fg_gradient_end.is_none(),
            l.bg_color == [0u8, 0u8, 0u8],
            l.tile_wrap == TileWrapMode::Repeat,
            plain_template(l.border, "╔"@, "╗"@, "╚"@, "╝"@, "═"@, "═"@, "║"@, "║"@),
            l.extra_borders@.len() == 0,
            l.pattern_spacing == 1,
            !l.border_composite,
    {
        TextureLayer {
            name: default_layer_name(),
            is_visible: true,
            z_index: 0,
            blend_mode: BlendMode::Normal,
            manual_painting: false,
            pattern_lock: false,
            gen_mode: LayerGenMode::Solid,
            pattern: String::from_str("▓"),
            font_family: String::from_str("Monospace"),
            height_function: HeightFunction::Flat,
            fg_color: [200, 200, 200],
            fg_gradient_end: None,
            bg_color: [0, 0, 0],
            tile_wrap: TileWrapMode::Repeat,
            border: BorderTemplate::default(),
            extra_borders: Vec::new(),
            pattern_spacing: 1,
            border_composite: false,
        }
    }
}

/// A layered ASCII material.
#[derive(Clone, Debug)]
pub struct AxiomTexture {
    pub id: String,
    pub name: String,
    /// Width and height of the glyph grid.
    pub resolution: [u32; 2],
    pub layers: Vec<TextureLayer>,
    pub base_color: [u8; 3],
}

impl Default for AxiomTexture {
    /// An 8 x 8 material with one default layer.
    fn default() -> (t: Self)
        ensures
            t.id@ == "Tex_1"@,
            t.name@ == "Gelişmiş Materyal"@,
            t.resolution == [8u32, 8u32],
            t.layers@.len() == 1,
            t.layers@[0].gen_mode == LayerGenMode::Solid,
            t.layers@[0].pattern@ == "▓"@,
            t.layers@[0].is_visible,
            t.layers@[0].z_index == 0,
            t.base_color == [20u8, 20u8, 25u8],
    {
        let mut layers: Vec<TextureLayer> = Vec::new();
        layers.push(TextureLayer::default());
        AxiomTexture {
            id: String::from_str("Tex_1"),
            name: String::from_str("Gelişmiş Materyal"),
            resolution: [8, 8],
            layers,
            base_color: [20, 20, 25],
        }
    }
}

/// The label under which the editor lists a generation mode.
pub fn gen_mode_label(mode: &LayerGenMode) -> (r: &'static str)
    ensures
        r@ == gen_mode_label_spec(*mode)@,
{
    match mode {
        LayerGenMode::Solid => "Solid — Düz Tekrar",
        LayerGenMode::Noise => "Noise — Rastgele Dağılım",
        LayerGenMode::Checker => "Checker — Dama Tahtası",
        LayerGenMode::Border => "Border — Basit Çerçeve",
        LayerGenMode::Fill => "Fill — İç Dolgu (Tuğla Aralığı)",
        LayerGenMode::DirectionalBorder => "Directional — Yönlü Kenarlar (Üst/Sol/Alt/Sağ)",
    }
}

pub open spec fn gen_mode_label_spec(mode: LayerGenMode) -> &'static str {
    match mode {
        LayerGenMode::Solid => "Solid — Düz Tekrar",
        LayerGenMode::Noise => "Noise — Rastgele Dağılım",
        LayerGenMode::Checker => "Checker — Dama Tahtası",
        LayerGenMode::Border => "Border — Basit Çerçeve",
        LayerGenMode::Fill => "Fill — İç Dolgu (Tuğla Aralığı)",
        LayerGenMode::DirectionalBorder => "Directional — Yönlü Kenarlar (Üst/Sol/Alt/Sağ)",
    }
}

} // verus!
