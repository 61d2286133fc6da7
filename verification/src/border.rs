use vstd::prelude::*;
use crate::text::chars_of;
use crate::depth_sort::Depth;

verus! {

/// One piece of a directional border: the glyphs it draws and its colour.
#[derive(Clone, Debug)]
pub struct BorderPiece {
    pub pattern: String,
    pub color_override: bool,
    pub fg_color: [u8; 3],
}

/// The eight pieces of a directional border: four corners and four edges.
#[derive(Clone, Debug)]
pub struct BorderTemplate {
    pub top_left: BorderPiece,
    pub top_right: BorderPiece,
    pub bottom_left: BorderPiece,
    pub bottom_right: BorderPiece,
    pub top_pattern: BorderPiece,
    pub bottom_pattern: BorderPiece,
    pub left_pattern: BorderPiece,
    pub right_pattern: BorderPiece,
}

/// An extra border drawn over a layer's own border at its own depth.
#[derive(Clone, Debug)]
pub struct ExtraBorder {
    pub template: BorderTemplate,
    pub z_index: i32,
}

/// One glyph that a border draws into a cell.
#[derive(Clone, Copy, Debug, PartialEq, Eq)]
pub struct BorderDrawOp {
    pub ch: char,
    pub fg: [u8; 3],
    pub z_index: i32,
}

/// A piece that draws `pat` in the layer's own colour.
pub open spec fn plain_piece(p: BorderPiece, pat: Seq<char>) -> bool {
    &&& p.pattern@ == pat
    &&& !p.color_override
    &&& p.fg_color == [255u8, 255u8, 255u8]
}

/// A template whose pieces are plain and draw the given patterns.
pub open spec fn plain_template(
    t: BorderTemplate,
    tl: Seq<char>,
    tr: Seq<char>,
    bl: Seq<char>,
    br: Seq<char>,
    top: Seq<char>,
    bottom: Seq<char>,
    left: Seq<char>,
    right: Seq<char>,
) -> bool {
    &&& plain_piece(t.top_left, tl)
    &&& plain_piece(t.top_right, tr)
    &&& plain_piece(t.bottom_left, bl)
    &&& plain_piece(t.bottom_right, br)
    &&& plain_piece(t.top_pattern, top)
    &&& plain_piece(t.bottom_pattern, bottom)
    &&& plain_piece(t.left_pattern, left)
    &&& plain_piece(t.right_pattern, right)
}

impl BorderPiece {
    /// A piece drawing `pat` in the layer's colour (white when it is
    /// overridden without a colour of its own).
    pub fn new(pat: &str) -> (p: Self)
        ensures
            plain_piece(p, pat@),
    {
        BorderPiece { pattern: String::from_str(pat), color_override: false, fg_color: [255, 255, 255] }
    }
}

impl BorderTemplate {
    fn from_patterns(
        tl: &str,
        tr: &str,
        bl: &str,
        br: &str,
        top: &str,
        bottom: &str,
        left: &str,
        right: &str,
    ) -> (t: Self)
        ensures
            plain_template(t, tl@, tr@, bl@, br@, top@, bottom@, left@, right@),
    {
        BorderTemplate {
            top_left: BorderPiece::new(tl),
            top_right: BorderPiece::new(tr),
            bottom_left: BorderPiece::new(bl),
            bottom_right: BorderPiece::new(br),
            top_pattern: BorderPiece::new(top),
            bottom_pattern: BorderPiece::new(bottom),
            left_pattern: BorderPiece::new(left),
            right_pattern: BorderPiece::new(right),
        }
    }

    /// A template that draws nothing.
    pub fn empty() -> (t: Self)
        ensures
            plain_template(t, ""@, ""@, ""@, ""@, ""@, ""@, ""@, ""@),
    {
        Self::from_patterns("", "", "", "", "", "", "", "")
    }

    pub fn interwoven() -> (t: Self)
        ensures
            plain_template(t, "+"@, "+"@, "+"@, "+"@, "=-"@, "=-"@, ":."@, ":."@),
    {
        Self::from_patterns("+", "+", "+", "+", "=-", "=-", ":.", ":.")
    }

    pub fn round() -> (t: Self)
        ensures
            plain_template(t, "╭"@, "╮"@, "╰"@, "╯"@, "─"@, "─"@, "│"@, "│"@),
    {
        Self::from_patterns("╭", "╮", "╰", "╯", "─", "─", "│", "│")
    }

    pub fn solid() -> (t: Self)
        ensures
            plain_template(t, "█"@, "█"@, "█"@, "█"@, "█"@, "█"@, "█"@, "█"@),
    {
        Self::from_patterns("█", "█", "█", "█", "█", "█", "█", "█")
    }

    /// A brick wall's frame.
    pub fn brick() -> (t: Self)
        ensures
            plain_template(t, "┌"@, "┐"@, "└"@, "┘"@, "──"@, "──"@, "│"@, "│"@),
    {
        Self::from_patterns("┌", "┐", "└", "┘", "──", "──", "│", "│")
    }

    /// A rough stone wall's frame.
    pub fn stone() -> (t: Self)
        ensures
            plain_template(t, "▛"@, "▜"@, "▙"@, "▟"@, "▀▀"@, "▄▄"@, "█"@, "█"@),
    {
        Self::from_patterns("▛", "▜", "▙", "▟", "▀▀", "▄▄", "█", "█")
    }
}

impl Default for BorderTemplate {
    /// The double-lined frame.
    fn default() -> (t: Self)
        ensures
            plain_template(t, "╔"@, "╗"@, "╚"@, "╝"@, "═"@, "═"@, "║"@, "║"@),
    {
        Self::from_patterns("╔", "╗", "╚", "╝", "═", "═", "║", "║")
    }
}

impl Default for ExtraBorder {
    /// An empty extra border one step above the layer's own.
    fn default() -> (e: Self)
        ensures
            plain_template(e.template, ""@, ""@, ""@, ""@, ""@, ""@, ""@, ""@),
            e.z_index == 1,
    {
        ExtraBorder { template: BorderTemplate::empty(), z_index: 1 }
    }
}

impl Depth for BorderDrawOp {
    open spec fn depth(&self) -> i32 {
        self.z_index
    }

    fn get_depth(&self) -> (z: i32) {
        self.z_index
    }
}

/// Where on the frame of a `w` x `h` grid a cell lies.
#[derive(Clone, Copy, Debug, PartialEq, Eq)]
pub enum BorderSlot {
    TopLeft,
    TopRight,
    BottomLeft,
    BottomRight,
    Top,
    Bottom,
    Left,
    Right,
}

/// The slot of cell (`c`, `r`): corners win over edges, the top and bottom
/// rows win over the side columns; interior cells have none.
pub open spec fn slot_at(c: int, r: int, w: int, h: int) -> Option<BorderSlot> {
    let top = r == 0;
    let bot = r == h - 1;
    let left = c == 0;
    let right = c == w - 1;
    if top && left {
        Some(BorderSlot::TopLeft)
    } else if top && right {
        Some(BorderSlot::TopRight)
    } else if bot && left {
        Some(BorderSlot::BottomLeft)
    } else if bot && right {
        Some(BorderSlot::BottomRight)
    } else if top {
        Some(BorderSlot::Top)
    } else if bot {
        Some(BorderSlot::Bottom)
    } else if left {
        Some(BorderSlot::Left)
    } else if right {
        Some(BorderSlot::Right)
    } else {
        None
    }
}

impl BorderTemplate {
    /// The piece that draws a slot.
    pub open spec fn piece_at(self, slot: BorderSlot) -> BorderPiece {
        match slot {
            BorderSlot::TopLeft => self.top_left,
            BorderSlot::TopRight => self.top_right,
            BorderSlot::BottomLeft => self.bottom_left,
            BorderSlot::BottomRight => self.bottom_right,
            BorderSlot::Top => self.top_pattern,
            BorderSlot::Bottom => self.bottom_pattern,
            BorderSlot::Left => self.left_pattern,
            BorderSlot::Right => self.right_pattern,
        }
    }

    pub fn piece(&self, slot: BorderSlot) -> (p: &BorderPiece)
        ensures
            *p == self.piece_at(slot),
    {
        match slot {
            BorderSlot::TopLeft => &self.top_left,
            BorderSlot::TopRight => &self.top_right,
            BorderSlot::BottomLeft => &self.bottom_left,
            BorderSlot::BottomRight => &self.bottom_right,
            BorderSlot::Top => &self.top_pattern,
            BorderSlot::Bottom => &self.bottom_pattern,
            BorderSlot::Left => &self.left_pattern,
            BorderSlot::Right => &self.right_pattern,
        }
    }
}

/// `i - 1`, but never below zero.
pub open spec fn pred_sat(i: int) -> int {
    if i > 0 {
        i - 1
    } else {
        0
    }
}

/// The glyphs a piece with pattern `pat` offers at (`c`, `r`) of its slot.
/// A composite border draws the whole pattern; otherwise a corner draws the
/// pattern's first glyph and an edge walks the pattern along its length
/// (one step behind the cell's column or row). An empty pattern offers a
/// blank.
pub open spec fn slot_chars(slot: BorderSlot, pat: Seq<char>, composite: bool, c: int, r: int) -> Seq<char> {
    if composite && pat.len() > 0 {
        pat
    } else if pat.len() == 0 {
        seq![' ']
    } else {
        match slot {
            BorderSlot::Top | BorderSlot::Bottom => seq![pat[pred_sat(c) % (pat.len() as int)]],
            BorderSlot::Left | BorderSlot::Right => seq![pat[pred_sat(r) % (pat.len() as int)]],
            _ => seq![pat[0]],
        }
    }
}

pub open spec fn not_blank(ch: char) -> bool {
    ch != ' '
}

/// The draw operations of a glyph sequence, one per glyph in order, in
/// colour `fg` at depth `z`; blanks are skipped.
pub open spec fn ops_of(chars: Seq<char>, fg: [u8; 3], z: i32) -> Seq<BorderDrawOp>
    decreases chars.len(),
{
    if chars.len() == 0 {
        Seq::empty()
    } else {
        let rest = ops_of(chars.drop_last(), fg, z);
        if not_blank(chars.last()) {
            rest.push(BorderDrawOp { ch: chars.last(), fg, z_index: z })
        } else {
            rest
        }
    }
}

pub proof fn lemma_ops_of_single(c: char, fg: [u8; 3], z: i32)
    ensures
        not_blank(c) ==> ops_of(seq![c], fg, z).len() == 1 && ops_of(seq![c], fg, z)[0].ch == c
            && ops_of(seq![c], fg, z)[0].z_index == z,
        !not_blank(c) ==> ops_of(seq![c], fg, z).len() == 0,
        ops_of(seq![c], fg, z) =~= if not_blank(c) {
            seq![BorderDrawOp { ch: c, fg, z_index: z }]
        } else {
            Seq::empty()
        },
{
    let s = seq![c];
    assert(s.len() == 1);
    assert(s.last() == c);
    assert(s.drop_last() =~= Seq::<char>::empty());
    assert(ops_of(s.drop_last(), fg, z) =~= Seq::<BorderDrawOp>::empty());
    let rest = ops_of(s.drop_last(), fg, z);
    assert(ops_of(s, fg, z) == if not_blank(s.last()) {
        rest.push(BorderDrawOp { ch: s.last(), fg, z_index: z })
    } else {
        rest
    });
}

/// The colour of a piece: its own where it overrides, else the default.
pub open spec fn piece_fg(p: BorderPiece, default_fg: [u8; 3]) -> [u8; 3] {
    if p.color_override {
        p.fg_color
    } else {
        default_fg
    }
}

/// What one template draws into cell (`c`, `r`) of a `w` x `h` grid.
pub open spec fn template_ops(
    c: int,
    r: int,
    w: int,
    h: int,
    template: BorderTemplate,
    composite: bool,
    default_fg: [u8; 3],
    z: i32,
) -> Seq<BorderDrawOp> {
    match slot_at(c, r, w, h) {
        None => Seq::empty(),
        Some(slot) => {
            let p = template.piece_at(slot);
            ops_of(slot_chars(slot, p.pattern@, composite, c, r), piece_fg(p, default_fg), z)
        },
    }
}

/// The glyph sequence's draw operations all have colour `fg`, depth `z`,
/// and no blank glyph.
pub open spec fn all_ops_in(ops: Seq<BorderDrawOp>, fg: [u8; 3], z: i32) -> bool {
    forall|i: int| 0 <= i < ops.len() ==> (#[trigger] ops[i]).fg == fg && ops[i].z_index == z
        && ops[i].ch != ' '
}

proof fn lemma_push_op(rest: Seq<BorderDrawOp>, c: char, fg: [u8; 3], z: i32)
    requires
        all_ops_in(rest, fg, z),
        c != ' ',
    ensures
        all_ops_in(rest.push(BorderDrawOp { ch: c, fg, z_index: z }), fg, z),
{
    let all = rest.push(BorderDrawOp { ch: c, fg, z_index: z });
    assert forall|i: int| 0 <= i < all.len() implies (#[trigger] all[i]).fg == fg && all[i].z_index
        == z && all[i].ch != ' ' by {
        if i < rest.len() {
            assert(all[i] == rest[i]);
        }
    }
}

proof fn lemma_ops_of_push_glyph(pre: Seq<char>, c: char, fg: [u8; 3], z: i32)
    requires
        c != ' ',
        all_ops_in(ops_of(pre, fg, z), fg, z),
    ensures
        all_ops_in(ops_of(pre.push(c), fg, z), fg, z),
{
    let s = pre.push(c);
    assert(s.drop_last() =~= pre);
    assert(s.last() == c);
    lemma_push_op(ops_of(pre, fg, z), c, fg, z);
}

proof fn lemma_ops_of_push_blank(pre: Seq<char>, fg: [u8; 3], z: i32)
    ensures
        ops_of(pre.push(' '), fg, z) == ops_of(pre, fg, z),
{
    let s = pre.push(' ');
    assert(s.drop_last() =~= pre);
    assert(s.last() == ' ');
}

/// Every draw operation of a glyph sequence has its colour and depth and a
/// glyph that is not blank.
pub proof fn lemma_ops_of_colour(chars: Seq<char>, fg: [u8; 3], z: i32)
    ensures
        all_ops_in(ops_of(chars, fg, z), fg, z),
    decreases chars.len(),
{
    if chars.len() > 0 {
        let pre = chars.drop_last();
        lemma_ops_of_colour(pre, fg, z);
        let c = chars.last();
        assert(pre.push(c) =~= chars);
        if c != ' ' {
            lemma_ops_of_push_glyph(pre, c, fg, z);
        } else {
            lemma_ops_of_push_blank(pre, fg, z);
        }
    }
}

/// Every glyph a template draws into a cell carries the colour of the piece
/// of that cell's slot (corner or edge alike) where the piece overrides its
/// colour, and the default colour otherwise, at the given depth; blanks are
/// never drawn, and cells off the frame get nothing.
pub proof fn law_piece_colour(
    c: int,
    r: int,
    w: int,
    h: int,
    template: BorderTemplate,
    composite: bool,
    default_fg: [u8; 3],
    z: i32,
)
    ensures
        slot_at(c, r, w, h) is None ==> template_ops(c, r, w, h, template, composite, default_fg, z).len()
            == 0,
        slot_at(c, r, w, h) matches Some(slot) ==> forall|i: int|
            0 <= i < template_ops(c, r, w, h, template, composite, default_fg, z).len() ==> {
                let op = #[trigger] template_ops(c, r, w, h, template, composite, default_fg, z)[i];
                &&& op.fg == (if template.piece_at(slot).color_override {
                    template.piece_at(slot).fg_color
                } else {
                    default_fg
                })
                &&& op.z_index == z
                &&& op.ch != ' '
            },
{
    match slot_at(c, r, w, h) {
        None => {},
        Some(slot) => {
            let p = template.piece_at(slot);
            let fg = if p.color_override {
                p.fg_color
            } else {
                default_fg
            };
            lemma_ops_of_colour(slot_chars(slot, p.pattern@, composite, c, r), fg, z);
        },
    }
}

/// The glyph a plain (non-composite) piece with pattern `pat` offers at
/// cell (`c`, `r`) of `slot`: a corner its pattern's first glyph, a top or
/// bottom edge the glyph one column back (wrapping round the pattern), a
/// side edge the glyph one row back; a blank where the pattern is empty.
pub open spec fn plain_glyph(slot: BorderSlot, pat: Seq<char>, c: int, r: int) -> char {
    let n = pat.len() as int;
    if n == 0 {
        ' '
    } else if slot == BorderSlot::Top || slot == BorderSlot::Bottom {
        pat[(if c > 0 { c - 1 } else { 0 }) % n]
    } else if slot == BorderSlot::Left || slot == BorderSlot::Right {
        pat[(if r > 0 { r - 1 } else { 0 }) % n]
    } else {
        pat[0]
    }
}

/// A plain border draws at most one glyph into a frame cell: the glyph its
/// piece offers there, unless that glyph is blank.
pub proof fn law_plain_piece_glyph(
    c: int,
    r: int,
    w: int,
    h: int,
    template: BorderTemplate,
    default_fg: [u8; 3],
    z: i32,
)
    ensures
        slot_at(c, r, w, h) matches Some(slot) ==> {
            let g = plain_glyph(slot, template.piece_at(slot).pattern@, c, r);
            let ops = template_ops(c, r, w, h, template, false, default_fg, z);
            &&& ops.len() == (if g != ' ' { 1int } else { 0int })
            &&& ops.len() == 1 ==> ops[0].ch == g
        },
{
    match slot_at(c, r, w, h) {
        None => {},
        Some(slot) => {
            let pat = template.piece_at(slot).pattern@;
            let g = plain_glyph(slot, pat, c, r);
            assert(slot_chars(slot, pat, false, c, r) == seq![g]);
            lemma_ops_of_single(g, piece_fg(template.piece_at(slot), default_fg), z);
        },
    }
}

pub fn border_slot(c: usize, r: usize, w: usize, h: usize) -> (res: Option<BorderSlot>)
    requires
        w >= 1,
        h >= 1,
    ensures
        res == slot_at(c as int, r as int, w as int, h as int),
{
    let top = r == 0;
    let bot = r == h - 1;
    let left = c == 0;
    let right = c == w - 1;
    if top && left {
        Some(BorderSlot::TopLeft)
    } else if top && right {
        Some(BorderSlot::TopRight)
    } else if bot && left {
        Some(BorderSlot::BottomLeft)
    } else if bot && right {
        Some(BorderSlot::BottomRight)
    } else if top {
        Some(BorderSlot::Top)
    } else if bot {
        Some(BorderSlot::Bottom)
    } else if left {
        Some(BorderSlot::Left)
    } else if right {
        Some(BorderSlot::Right)
    } else {
        None
    }
}

fn slot_chars_exec(slot: BorderSlot, pat: &Vec<char>, composite: bool, c: usize, r: usize) -> (res: Vec<char>)
    ensures
        res@ == slot_chars(slot, pat@, composite, c as int, r as int),
{
    if composite && pat.len() > 0 {
        pat.clone()
    } else if pat.len() == 0 {
        vec![' ']
    } else {
        let n = pat.len();
        let ch = match slot {
            BorderSlot::Top | BorderSlot::Bottom => pat[(if c > 0 { c - 1 } else { 0 }) % n],
            BorderSlot::Left | BorderSlot::Right => pat[(if r > 0 { r - 1 } else { 0 }) % n],
            _ => pat[0],
        };
        let res = vec![ch];
        assert(res@ =~= slot_chars(slot, pat@, composite, c as int, r as int));
        res
    }
}

fn ops_from_chars(chars: &Vec<char>, fg: [u8; 3], z: i32) -> (res: Vec<BorderDrawOp>)
    ensures
        res@ == ops_of(chars@, fg, z),
{
    let mut res: Vec<BorderDrawOp> = Vec::new();
    let n = chars.len();
    assert(chars@.take(0) =~= Seq::<char>::empty());
    for i in 0..n
        invariant
            n == chars.len(),
            res@ =~= ops_of(chars@.take(i as int), fg, z),
    {
        let ch = chars[i];
        assert(chars@.take(i + 1).drop_last() =~= chars@.take(i as int));
        if ch != ' ' {
            res.push(BorderDrawOp { ch, fg, z_index: z });
        }
    }
    assert(chars@.take(n as int) =~= chars@);
    res
}

/// The glyphs that `template` draws into cell (`c`, `r`) of a `w` x `h`
/// grid, at depth `z_index`, in the order of its pattern; blanks draw
/// nothing.
pub fn collect_border_ops(
    c: usize,
    r: usize,
    w: usize,
    h: usize,
    template: &BorderTemplate,
    composite: bool,
    default_fg: [u8; 3],
    z_index: i32,
) -> (res: Vec<BorderDrawOp>)
    requires
        w >= 1,
        h >= 1,
    ensures
        res@ == template_ops(c as int, r as int, w as int, h as int, *template, composite, default_fg, z_index),
{
    match border_slot(c, r, w, h) {
        None => Vec::new(),
        Some(slot) => {
            let piece = template.piece(slot);
            let pat = chars_of(piece.pattern.as_str());
            let chars = slot_chars_exec(slot, &pat, composite, c, r);
            let fg = if piece.color_override {
                piece.fg_color
            } else {
                default_fg
            };
            ops_from_chars(&chars, fg, z_index)
        },
    }
}

} // verus!
