use vstd::prelude::*;
use crate::border::{
    BorderDrawOp, BorderTemplate, ExtraBorder, collect_border_ops, template_ops,
};
use crate::depth_sort::{Depth, sort_by_depth, sort_by_z};
use crate::text::chars_of;
use crate::texture::{AxiomTexture, LayerGenMode, TextureLayer};

verus! {

// ---------------------------------------------------------------------------
// Directional borders
/// What the extra borders draw into cell (`c`, `r`), one after the other.
pub open spec fn extras_ops(
    c: int,
    r: int,
    w: int,
    h: int,
    extras: Seq<ExtraBorder>,
    composite: bool,
    fg: [u8; 3],
) -> Seq<BorderDrawOp>
    decreases extras.len(),
{
    if extras.len() == 0 {
        Seq::empty()
    } else {
        extras_ops(c, r, w, h, extras.drop_last(), composite, fg) + template_ops(
            c,
            r,
            w,
            h,
            extras.last().template,
            composite,
            fg,
            extras.last().z_index,
        )
    }
}

/// Whether (`x`, `y`) lies on the frame of a `w` x `h` grid.
pub open spec fn on_frame(x: int, y: int, w: int, h: int) -> bool {
    x == 0 || x == w - 1 || y == 0 || y == h - 1
}

/// Whether a frame cell falls in a gap of a spaced border: away from the
/// corners, top and bottom edges draw every `spacing`-th column and the
/// side edges every `spacing`-th row.
pub open spec fn in_spacing_gap(x: int, y: int, w: int, h: int, spacing: int) -> bool {
    let top_bot = y == 0 || y == h - 1;
    let sides = x == 0 || x == w - 1;
    &&& !(top_bot && sides)
    &&& spacing > 1
    &&& ((top_bot && x % spacing != 0) || (sides && y % spacing != 0))
}

/// Everything a directional border draws into cell (`x`, `y`): the layer's
/// own frame at depth 0 and each extra border at its depth, ordered by
/// depth (stably); nothing off the frame or in a spacing gap.
pub open spec fn cell_border_ops(
    x: int,
    y: int,
    w: int,
    h: int,
    border: BorderTemplate,
    extras: Seq<ExtraBorder>,
    spacing: int,
    composite: bool,
    fg: [u8; 3],
) -> Seq<BorderDrawOp> {
    if !on_frame(x, y, w, h) || in_spacing_gap(x, y, w, h, spacing) {
        Seq::empty()
    } else {
        sort_by_z(
            template_ops(x, y, w, h, border, composite, fg, 0) + extras_ops(
                x,
                y,
                w,
                h,
                extras,
                composite,
                fg,
            ),
        )
    }
}

/// The draw operations of cell (`x`, `y`) for a DirectionalBorder layer:
/// its own frame and its extra borders, in the layer's colour unless a
/// piece overrides it, ordered by depth.
pub fn border_cell_ops(
    x: u32,
    y: u32,
    w: u32,
    h: u32,
    border: &BorderTemplate,
    extra_borders: &Vec<ExtraBorder>,
    layer: &TextureLayer,
) -> (res: Vec<BorderDrawOp>)
    requires
        w >= 1,
        h >= 1,
    ensures
        res@ == cell_border_ops(
            x as int,
            y as int,
            w as int,
            h as int,
            *border,
            extra_borders@,
            layer.pattern_spacing as int,
            layer.border_composite,
            layer.fg_color,
        ),
{
    let w_us = w as usize;
    let h_us = h as usize;
    let x_us = x as usize;
    let y_us = y as usize;
    let is_top = y_us == 0;
    let is_bot = y_us == h_us - 1;
    let is_left = x_us == 0;
    let is_right = x_us == w_us - 1;
    let is_corner = (is_top || is_bot) && (is_left || is_right);
    if !(is_top || is_bot || is_left || is_right) {
        return Vec::new();
    }
    if !is_corner && layer.pattern_spacing > 1 {
        if (is_top || is_bot) && x_us % layer.pattern_spacing != 0 {
            return Vec::new();
        }
        if (is_left || is_right) && y_us % layer.pattern_spacing != 0 {
            return Vec::new();
        }
    }
    let base_fg = layer.fg_color;
    let composite = layer.border_composite;
    let mut ops = collect_border_ops(x_us, y_us, w_us, h_us, border, composite, base_fg, 0);
    let ghost base = ops@;
    let n = extra_borders.len();
    assert(extra_borders@.take(0) =~= Seq::<ExtraBorder>::empty());
    for i in 0..n
        invariant
            n == extra_borders.len(),
            w_us == w,
            h_us == h,
            x_us == x,
            y_us == y,
            w >= 1,
            h >= 1,
            ops@ =~= base + extras_ops(
                x as int,
                y as int,
                w as int,
                h as int,
                extra_borders@.take(i as int),
                composite,
                base_fg,
            ),
    {
        let eb = &extra_borders[i];
        let mut more = collect_border_ops(
            x_us,
            y_us,
            w_us,
            h_us,
            &eb.template,
            composite,
            base_fg,
            eb.z_index,
        );
        assert(extra_borders@.take(i + 1).drop_last() =~= extra_borders@.take(i as int));
        ops.append(&mut more);
    }
    assert(extra_borders@.take(n as int) =~= extra_borders@);
    sort_by_depth(&ops)
}

// ---------------------------------------------------------------------------
// Glyph patterns of generated layers
/// The index into the glyph set that a cell at tile (`tx`, `ty`) uses.
pub open spec fn glyph_at(chars: Seq<char>, k: int) -> char {
    chars[k % (chars.len() as int)]
}

/// The arithmetic of a layer's mode stays within `u32` at tile (`tx`,
/// `ty`) of a grid `w` wide (the editor computes it in `u32`), and a Fill
/// spacing is not zero as a `u32`.
pub open spec fn glyph_arith_fits(layer: TextureLayer, tx: int, ty: int, w: int) -> bool {
    let n = layer.pattern@.len();
    match layer.gen_mode {
        LayerGenMode::Solid | LayerGenMode::Checker | LayerGenMode::Border => n > 0 ==> tx + ty
            <= u32::MAX,
        LayerGenMode::Fill => n > 0 ==> {
            &&& (layer.pattern_spacing > 1 ==> tx + ty <= u32::MAX && (layer.pattern_spacing as u32)
                != 0)
            &&& tx + ty * w <= u32::MAX
        },
        _ => true,
    }
}

/// The glyph a generated layer puts in cell (`x`, `y`) of a `w` x `h` grid
/// whose tile coordinates are (`tx`, `ty`), or `None` where it draws
/// nothing. For Noise layers, `noise_pick` is the pick of the layer's
/// noise at that tile, `None` where the noise stays under the layer's
/// density.
pub open spec fn layer_glyph(
    x: int,
    y: int,
    w: int,
    h: int,
    tx: int,
    ty: int,
    layer: TextureLayer,
    noise_pick: Option<usize>,
) -> Option<char> {
    let chars = layer.pattern@;
    let spacing = layer.pattern_spacing;
    match layer.gen_mode {
        LayerGenMode::DirectionalBorder => {
            let ops = cell_border_ops(
                tx,
                ty,
                w,
                h,
                layer.border,
                layer.extra_borders@,
                spacing as int,
                layer.border_composite,
                layer.fg_color,
            );
            if ops.len() > 0 {
                Some(ops[0].ch)
            } else {
                None
            }
        },
        _ => if chars.len() == 0 {
            None
        } else {
            match layer.gen_mode {
                LayerGenMode::Solid => Some(glyph_at(chars, tx + ty)),
                LayerGenMode::Noise => match noise_pick {
                    Some(k) => Some(glyph_at(chars, k as int)),
                    None => None,
                },
                LayerGenMode::Checker => if (tx + ty) % 2 == 0 {
                    Some(chars[0])
                } else {
                    None
                },
                LayerGenMode::Border => if on_frame(x, y, w, h) {
                    Some(glyph_at(chars, tx + ty))
                } else {
                    None
                },
                _ => if spacing > 1 && (tx + ty) % ((spacing as u32) as int) != 0 {
                    None
                } else {
                    Some(glyph_at(chars, tx + ty * w))
                },
            }
        },
    }
}

/// The glyph that `layer` draws at cell (`x`, `y`) of a `w` x `h` grid,
/// where the cell's tile coordinates are (`tx`, `ty`); `None` where the
/// layer leaves the cell empty.
pub fn layer_cell_glyph(
    x: u32,
    y: u32,
    w: u32,
    h: u32,
    tx: u32,
    ty: u32,
    layer: &TextureLayer,
    noise_pick: Option<usize>,
) -> (res: Option<char>)
    requires
        w >= 1,
        h >= 1,
        glyph_arith_fits(*layer, tx as int, ty as int, w as int),
    ensures
        res == layer_glyph(
            x as int,
            y as int,
            w as int,
            h as int,
            tx as int,
            ty as int,
            *layer,
            noise_pick,
        ),
{
    if let LayerGenMode::DirectionalBorder = layer.gen_mode {
        let ops = border_cell_ops(tx, ty, w, h, &layer.border, &layer.extra_borders, layer);
        if ops.len() > 0 {
            return Some(ops[0].ch);
        } else {
            return None;
        }
    }
    let chars = chars_of(layer.pattern.as_str());
    let n = chars.len();
    if n == 0 {
        return None;
    }
    match layer.gen_mode {
        LayerGenMode::Solid => Some(chars[((tx + ty) as usize) % n]),
        LayerGenMode::Noise => match noise_pick {
            Some(k) => Some(chars[k % n]),
            None => None,
        },
        LayerGenMode::Checker => {
            if (tx + ty) % 2 == 0 {
                Some(chars[0])
            } else {
                None
            }
        },
        LayerGenMode::Border => {
            if x == 0 || x == w - 1 || y == 0 || y == h - 1 {
                Some(chars[((tx + ty) as usize) % n])
            } else {
                None
            }
        },
        _ => {
            if layer.pattern_spacing > 1 && (tx + ty) % (layer.pattern_spacing as u32) != 0 {
                None
            } else {
                Some(chars[((tx + ty * w) as usize) % n])
            }
        },
    }
}

/// Frames stay on the frame: a Border layer draws nothing in cells off the
/// grid's frame, and a DirectionalBorder layer nothing at tiles off it.
pub proof fn law_frames_stay_on_frame(
    x: int,
    y: int,
    w: int,
    h: int,
    tx: int,
    ty: int,
    layer: TextureLayer,
    noise_pick: Option<usize>,
)
    ensures
        layer.gen_mode == LayerGenMode::Border && !on_frame(x, y, w, h) ==> layer_glyph(
            x,
            y,
            w,
            h,
            tx,
            ty,
            layer,
            noise_pick,
        ) is None,
        layer.gen_mode == LayerGenMode::DirectionalBorder && !on_frame(tx, ty, w, h) ==> layer_glyph(
            x,
            y,
            w,
            h,
            tx,
            ty,
            layer,
            noise_pick,
        ) is None,
{
}

/// A directional border draws its corner piece's first glyph into the
/// corner tile when the layer has no extra borders, the piece's pattern is
/// not empty and does not start with a blank, and the border is not
/// composite.
#[verifier::spinoff_prover]
pub proof fn law_corner_draws_first_glyph(w: int, h: int, layer: TextureLayer, x: int, y: int)
    requires
        w >= 2,
        h >= 2,
        layer.gen_mode == LayerGenMode::DirectionalBorder,
        layer.extra_borders@.len() == 0,
        !layer.border_composite,
        layer.border.top_left.pattern@.len() > 0,
        layer.border.top_left.pattern@[0] != ' ',
    ensures
        layer_glyph(x, y, w, h, 0, 0, layer, None) == Some(layer.border.top_left.pattern@[0]),
{
    let p = layer.border.top_left;
    let chars = crate::border::slot_chars(crate::border::BorderSlot::TopLeft, p.pattern@, false, 0, 0);
    assert(chars =~= seq![p.pattern@[0]]);
    assert(chars.drop_last() =~= Seq::<char>::empty());
    let ops = template_ops(0, 0, w, h, layer.border, false, layer.fg_color, 0);
    let fg = crate::border::piece_fg(p, layer.fg_color);
    assert(crate::border::slot_at(0, 0, w, h) == Some(crate::border::BorderSlot::TopLeft));
    assert(ops == crate::border::ops_of(chars, fg, 0));
    assert(crate::border::ops_of(chars.drop_last(), fg, 0) =~= Seq::<BorderDrawOp>::empty());
    assert(chars.len() == 1);
    assert(chars.last() == p.pattern@[0]);
    assert(crate::border::not_blank(chars.last()));
    crate::border::lemma_ops_of_single(p.pattern@[0], fg, 0);
    assert(ops.len() == 1);
    assert(extras_ops(0, 0, w, h, layer.extra_borders@, false, layer.fg_color) =~= Seq::<
        BorderDrawOp,
    >::empty());
    let all = ops + Seq::<BorderDrawOp>::empty();
    assert(all =~= ops);
    crate::depth_sort::lemma_sort_single(all);
}

/// The hash behind a Noise layer's scattering at tile (`tx`, `ty`).
pub fn noise_seed_bits(tx: u32, ty: u32) -> (r: u32)
    ensures
        r == (((tx as nat * 13579) % 0x1_0000_0000) as u32 ^ ((ty as nat * 97531)
            % 0x1_0000_0000) as u32),
{
    tx.wrapping_mul(13579) ^ ty.wrapping_mul(97531)
}

/// The hash behind a Noise relief at tile (`tx`, `ty`), salted by the
/// relief's frequency bits.
pub fn relief_seed_bits(tx: u32, ty: u32, freq_bits: u32) -> (r: u32)
    ensures
        r == (((tx as nat * 13579 + freq_bits as nat) % 0x1_0000_0000) as u32 ^ ((ty as nat
            * 97531 + freq_bits as nat) % 0x1_0000_0000) as u32),
{
    let a = tx.wrapping_mul(13579);
    let b = ty.wrapping_mul(97531);
    proof {
        assert(((tx as nat * 13579) % 0x1_0000_0000 + freq_bits as nat) % 0x1_0000_0000 == (
        tx as nat * 13579 + freq_bits as nat) % 0x1_0000_0000) by (nonlinear_arith);
        assert(((ty as nat * 97531) % 0x1_0000_0000 + freq_bits as nat) % 0x1_0000_0000 == (
        ty as nat * 97531 + freq_bits as nat) % 0x1_0000_0000) by (nonlinear_arith);
    }
    a.wrapping_add(freq_bits) ^ b.wrapping_add(freq_bits)
}

// ---------------------------------------------------------------------------
// Composition order
/// A layer of a texture: its position in the texture and its depth.
#[derive(Clone, Copy, Debug, PartialEq, Eq)]
pub struct LayerRef {
    pub index: usize,
    pub z_index: i32,
}

impl Depth for LayerRef {
    open spec fn depth(&self) -> i32 {
        self.z_index
    }

    fn get_depth(&self) -> (z: i32) {
        self.z_index
    }
}

/// The visible layers, in the texture's order.
pub open spec fn visible_refs(layers: Seq<TextureLayer>) -> Seq<LayerRef>
    decreases layers.len(),
{
    if layers.len() == 0 {
        Seq::empty()
    } else {
        let rest = visible_refs(layers.drop_last());
        if layers.last().is_visible {
            rest.push(LayerRef { index: (layers.len() - 1) as usize, z_index: layers.last().z_index })
        } else {
            rest
        }
    }
}

/// The order in which a texture's layers are painted: the visible ones,
/// lowest depth first, layers of equal depth in the texture's order.
pub open spec fn draw_order(layers: Seq<TextureLayer>) -> Seq<LayerRef> {
    sort_by_z(visible_refs(layers))
}

/// The visible layers of a texture in the order they are painted.
pub fn layer_draw_order(layers: &Vec<TextureLayer>) -> (res: Vec<LayerRef>)
    ensures
        res@ == draw_order(layers@),
{
    let mut refs: Vec<LayerRef> = Vec::new();
    let n = layers.len();
    assert(layers@.take(0) =~= Seq::<TextureLayer>::empty());
    for i in 0..n
        invariant
            n == layers.len(),
            refs@ == visible_refs(layers@.take(i as int)),
    {
        assert(layers@.take(i + 1).drop_last() =~= layers@.take(i as int));
        if layers[i].is_visible {
            refs.push(LayerRef { index: i, z_index: layers[i].z_index });
        }
    }
    assert(layers@.take(n as int) =~= layers@);
    sort_by_depth(&refs)
}

/// Every layer of a texture, in the texture's order.
pub open spec fn all_refs(layers: Seq<TextureLayer>) -> Seq<LayerRef> {
    Seq::new(layers.len(), |i: int| LayerRef { index: i as usize, z_index: layers[i].z_index })
}

/// The order in which the texture editor lists a texture's layers, hidden
/// ones included: lowest depth first, layers of equal depth in the
/// texture's order.
pub fn layer_panel_order(layers: &Vec<TextureLayer>) -> (res: Vec<LayerRef>)
    ensures
        res@ == sort_by_z(all_refs(layers@)),
{
    let mut refs: Vec<LayerRef> = Vec::new();
    let n = layers.len();
    for i in 0..n
        invariant
            n == layers.len(),
            refs@ =~= all_refs(layers@).take(i as int),
    {
        refs.push(LayerRef { index: i, z_index: layers[i].z_index });
    }
    assert(refs@ =~= all_refs(layers@));
    sort_by_depth(&refs)
}

proof fn lemma_visible_refs(layers: Seq<TextureLayer>)
    requires
        layers.len() <= usize::MAX,
    ensures
        forall|k: int|
            0 <= k < visible_refs(layers).len() ==> {
                let r = #[trigger] visible_refs(layers)[k];
                &&& 0 <= r.index < layers.len()
                &&& layers[r.index as int].is_visible
                &&& layers[r.index as int].z_index == r.z_index
            },
        forall|j: int|
            0 <= j < layers.len() && #[trigger] layers[j].is_visible ==> visible_refs(
                layers,
            ).contains(LayerRef { index: j as usize, z_index: layers[j].z_index }),
    decreases layers.len(),
{
    if layers.len() > 0 {
        let t = layers.drop_last();
        lemma_visible_refs(t);
        let rest = visible_refs(t);
        assert forall|k: int| 0 <= k < visible_refs(layers).len() implies {
            let r = #[trigger] visible_refs(layers)[k];
            &&& 0 <= r.index < layers.len()
            &&& layers[r.index as int].is_visible
            &&& layers[r.index as int].z_index == r.z_index
        } by {
            if k < rest.len() {
                assert(visible_refs(layers)[k] == rest[k]);
                let r = rest[k];
                assert(t[r.index as int] == layers[r.index as int]);
            }
        }
        assert forall|j: int|
            0 <= j < layers.len() && #[trigger] layers[j].is_visible implies visible_refs(
                layers,
            ).contains(LayerRef { index: j as usize, z_index: layers[j].z_index }) by {
            if j < layers.len() - 1 {
                assert(t[j] == layers[j]);
                let w = choose|m: int|
                    0 <= m < rest.len() && rest[m] == LayerRef {
                        index: j as usize,
                        z_index: layers[j].z_index,
                    };
                if layers.last().is_visible {
                    assert(visible_refs(layers)[w] == rest[w]);
                }
            } else {
                let v = visible_refs(layers);
                assert(v[v.len() - 1] == LayerRef { index: j as usize, z_index: layers[j].z_index });
            }
        }
    }
}

/// The painting order holds each visible layer exactly where it belongs:
/// every entry names a visible layer with its depth, every visible layer is
/// painted, and depths never decrease along the order.
pub proof fn law_draw_order(layers: Seq<TextureLayer>)
    requires
        layers.len() <= usize::MAX,
    ensures
        forall|k: int|
            0 <= k < draw_order(layers).len() ==> {
                let r = #[trigger] draw_order(layers)[k];
                &&& 0 <= r.index < layers.len()
                &&& layers[r.index as int].is_visible
                &&& layers[r.index as int].z_index == r.z_index
            },
        forall|j: int|
            0 <= j < layers.len() && #[trigger] layers[j].is_visible ==> draw_order(
                layers,
            ).contains(LayerRef { index: j as usize, z_index: layers[j].z_index }),
        forall|a: int, b: int|
            0 <= a <= b < draw_order(layers).len() ==> draw_order(layers)[a].z_index
                <= draw_order(layers)[b].z_index,
{
    broadcast use vstd::seq_lib::group_to_multiset_ensures;
    let v = visible_refs(layers);
    let d = draw_order(layers);
    lemma_visible_refs(layers);
    crate::depth_sort::law_sort_by_z_sorted(v);
    crate::depth_sort::law_sort_by_z_permutes(v);
    assert forall|k: int| 0 <= k < d.len() implies {
        let r = #[trigger] d[k];
        &&& 0 <= r.index < layers.len()
        &&& layers[r.index as int].is_visible
        &&& layers[r.index as int].z_index == r.z_index
    } by {
        assert(d.contains(d[k]));
        assert(d.to_multiset().count(d[k]) > 0);
        assert(v.contains(d[k]));
    }
    assert forall|j: int| 0 <= j < layers.len() && #[trigger] layers[j].is_visible implies d.contains(
        LayerRef { index: j as usize, z_index: layers[j].z_index },
    ) by {
        let r = LayerRef { index: j as usize, z_index: layers[j].z_index };
        assert(v.contains(r));
        assert(v.to_multiset().count(r) > 0);
    }
}

/// Whether any layer of the texture frames it (Border or
/// DirectionalBorder), visible or not.
pub fn has_border(layers: &Vec<TextureLayer>) -> (r: bool)
    ensures
        r == exists|i: int|
            0 <= i < layers@.len() && (#[trigger] layers@[i].gen_mode == LayerGenMode::Border
                || layers@[i].gen_mode == LayerGenMode::DirectionalBorder),
{
    let n = layers.len();
    for i in 0..n
        invariant
            n == layers.len(),
            forall|k: int|
                0 <= k < i ==> !(#[trigger] layers@[k].gen_mode == LayerGenMode::Border
                    || layers@[k].gen_mode == LayerGenMode::DirectionalBorder),
    {
        match layers[i].gen_mode {
            LayerGenMode::Border | LayerGenMode::DirectionalBorder => {
                return true;
            },
            _ => {},
        }
    }
    false
}

/// The grid a texture is composed on: its resolution, at least 1 x 1.
pub fn composed_size(texture: &AxiomTexture) -> (r: (u32, u32))
    ensures
        r.0 == if texture.resolution[0] >= 1 {
            texture.resolution[0]
        } else {
            1
        },
        r.1 == if texture.resolution[1] >= 1 {
            texture.resolution[1]
        } else {
            1
        },
{
    let w = if texture.resolution[0] >= 1 {
        texture.resolution[0]
    } else {
        1
    };
    let h = if texture.resolution[1] >= 1 {
        texture.resolution[1]
    } else {
        1
    };
    (w, h)
}

} // verus!
