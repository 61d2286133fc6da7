use vstd::prelude::*;
use crate::text::chars_of;
use crate::types::{TextAlign, TextValign};

verus! {

// ---------------------------------------------------------------------------
// Splitting text into lines

/// `line` without one trailing carriage return.
pub open spec fn strip_cr(line: Seq<char>) -> Seq<char> {
    if line.len() > 0 && line.last() == '\r' {
        line.drop_last()
    } else {
        line
    }
}

/// The lines of `s`, where `cur` holds the characters of the line already
/// begun: a line ends at each `\n` (a `\r` just before it is dropped), and
/// the final line needs no `\n` but is left out when empty.
pub open spec fn lines_after(s: Seq<char>, cur: Seq<char>) -> Seq<Seq<char>>
    decreases s.len(),
{
    if s.len() == 0 {
        if cur.len() == 0 {
            Seq::empty()
        } else {
            seq![cur]
        }
    } else if s[0] == '\n' {
        seq![strip_cr(cur)] + lines_after(s.skip(1), Seq::empty())
    } else {
        lines_after(s.skip(1), cur.push(s[0]))
    }
}

/// The lines of a text, split as `str::lines` splits them.
pub open spec fn text_lines(s: Seq<char>) -> Seq<Seq<char>> {
    lines_after(s, Seq::empty())
}

pub open spec fn lines_view(lines: Seq<Vec<char>>) -> Seq<Seq<char>> {
    lines.map_values(|l: Vec<char>| l@)
}

proof fn lemma_lines_view_push(lines: Seq<Vec<char>>, l: Vec<char>)
    ensures
        lines_view(lines.push(l)) == lines_view(lines) + seq![l@],
{
    assert(lines_view(lines.push(l)) =~= lines_view(lines) + seq![l@]);
}

/// The lines of `s`.
pub fn split_lines(s: &Vec<char>) -> (res: Vec<Vec<char>>)
    ensures
        lines_view(res@) == text_lines(s@),
{
    let mut res: Vec<Vec<char>> = Vec::new();
    let mut cur: Vec<char> = Vec::new();
    let n = s.len();
    assert(s@.skip(0) =~= s@);
    assert(lines_view(res@) =~= Seq::<Seq<char>>::empty());
    for i in 0..n
        invariant
            n == s.len(),
            lines_view(res@) + lines_after(s@.skip(i as int), cur@) == text_lines(s@),
    {
        let ghost rest = s@.skip(i as int);
        assert(rest[0] == s@[i as int]);
        assert(rest.skip(1) =~= s@.skip(i + 1));
        let c = s[i];
        if c == '\n' {
            let ghost before = cur@;
            let k = cur.len();
            if k > 0 && cur[k - 1] == '\r' {
                cur.pop();
            }
            proof {
                lemma_lines_view_push(res@, cur);
                assert(cur@ =~= strip_cr(before));
            }
            res.push(cur);
            cur = Vec::new();
            proof {
                assert(lines_view(res@) + lines_after(s@.skip(i + 1), cur@) =~= text_lines(s@));
            }
        } else {
            cur.push(c);
        }
    }
    assert(s@.skip(n as int) =~= Seq::<char>::empty());
    if cur.len() > 0 {
        proof {
            lemma_lines_view_push(res@, cur);
        }
        res.push(cur);
    } else {
        assert(lines_view(res@) + Seq::<Seq<char>>::empty() =~= lines_view(res@));
    }
    res
}

// ---------------------------------------------------------------------------
// Wrapping

/// The pieces a line is cut into when it wraps at `width` characters,
/// where `cur` holds the piece already begun: a piece is closed when it
/// holds `width` characters and another one arrives.
pub open spec fn wrap_after(line: Seq<char>, cur: Seq<char>, width: nat) -> Seq<Seq<char>>
    decreases line.len(),
{
    if line.len() == 0 {
        if cur.len() == 0 {
            Seq::empty()
        } else {
            seq![cur]
        }
    } else if cur.len() >= width {
        seq![cur] + wrap_after(line.skip(1), seq![line[0]], width)
    } else {
        wrap_after(line.skip(1), cur.push(line[0]), width)
    }
}

/// Every line wrapped at `width`, the pieces of each line in order.
pub open spec fn wrap_all(lines: Seq<Seq<char>>, width: nat) -> Seq<Seq<char>>
    decreases lines.len(),
{
    if lines.len() == 0 {
        Seq::empty()
    } else {
        wrap_all(lines.drop_last(), width) + wrap_after(lines.last(), Seq::empty(), width)
    }
}

/// The pieces of `line` wrapped at `width` characters, appended to `out`.
fn wrap_line_into(line: &Vec<char>, width: usize, out: &mut Vec<Vec<char>>)
    ensures
        lines_view(final(out)@) == lines_view(old(out)@) + wrap_after(line@, Seq::empty(), width as nat),
{
    let mut cur: Vec<char> = Vec::new();
    let n = line.len();
    assert(line@.skip(0) =~= line@);
    assert(lines_view(out@) + wrap_after(line@, Seq::empty(), width as nat) =~= lines_view(old(out)@)
        + wrap_after(line@, Seq::empty(), width as nat));
    for i in 0..n
        invariant
            n == line.len(),
            lines_view(out@) + wrap_after(line@.skip(i as int), cur@, width as nat) == lines_view(
                old(out)@,
            ) + wrap_after(line@, Seq::empty(), width as nat),
    {
        let ghost rest = line@.skip(i as int);
        assert(rest[0] == line@[i as int]);
        assert(rest.skip(1) =~= line@.skip(i + 1));
        if cur.len() >= width {
            proof {
                lemma_lines_view_push(out@, cur);
            }
            out.push(cur);
            cur = Vec::new();
            cur.push(line[i]);
            proof {
                assert(cur@ =~= seq![rest[0]]);
                assert(lines_view(out@) + wrap_after(line@.skip(i + 1), cur@, width as nat)
                    =~= lines_view(old(out)@) + wrap_after(line@, Seq::empty(), width as nat));
            }
        } else {
            cur.push(line[i]);
        }
    }
    assert(line@.skip(n as int) =~= Seq::<char>::empty());
    if cur.len() > 0 {
        proof {
            lemma_lines_view_push(out@, cur);
        }
        out.push(cur);
    } else {
        assert(lines_view(out@) + Seq::<Seq<char>>::empty() =~= lines_view(out@));
    }
}

/// Every line wrapped at `width` characters.
pub fn wrap_lines(lines: &Vec<Vec<char>>, width: usize) -> (res: Vec<Vec<char>>)
    ensures
        lines_view(res@) == wrap_all(lines_view(lines@), width as nat),
{
    let mut res: Vec<Vec<char>> = Vec::new();
    let n = lines.len();
    assert(lines_view(lines@).take(0) =~= Seq::<Seq<char>>::empty());
    assert(lines_view(res@) =~= Seq::<Seq<char>>::empty());
    for i in 0..n
        invariant
            n == lines.len(),
            lines_view(res@) == wrap_all(lines_view(lines@).take(i as int), width as nat),
    {
        wrap_line_into(&lines[i], width, &mut res);
        assert(lines_view(lines@).take(i + 1).drop_last() =~= lines_view(lines@).take(i as int));
    }
    assert(lines_view(lines@).take(n as int) =~= lines_view(lines@));
    res
}

// ---------------------------------------------------------------------------
// A text layer's lines

/// One row of a repeating text layer: the content repeated to `width`
/// characters, or blanks where there is no content.
pub open spec fn repeat_row(content: Seq<char>, width: nat) -> Seq<char> {
    Seq::new(
        width,
        |i: int|
            if content.len() == 0 {
                ' '
            } else {
                content[i % (content.len() as int)]
            },
    )
}

/// `rows` copies of `row`, each followed by a line break.
pub open spec fn repeat_block(row: Seq<char>, rows: nat) -> Seq<char>
    decreases rows,
{
    if rows == 0 {
        Seq::empty()
    } else {
        repeat_block(row, (rows - 1) as nat) + row.push('\n')
    }
}

/// The lines a text layer shows in an area of `width` x `height`
/// characters: its content (or, for a repeating layer, the content repeated
/// over the whole area) split into lines, each wrapped at the area's width
/// where the layer wraps.
pub open spec fn layer_lines(
    content: Seq<char>,
    repeat_content: bool,
    wrap_text: bool,
    width: nat,
    height: nat,
) -> Seq<Seq<char>> {
    let source = if repeat_content {
        repeat_block(repeat_row(content, width), height)
    } else {
        content
    };
    if wrap_text {
        wrap_all(text_lines(source), width)
    } else {
        text_lines(source)
    }
}

fn repeated_text(content: &Vec<char>, width: usize, height: usize) -> (res: Vec<char>)
    ensures
        res@ == repeat_block(repeat_row(content@, width as nat), height as nat),
{
    let ghost row_view = repeat_row(content@, width as nat);
    let mut row: Vec<char> = Vec::new();
    let m = content.len();
    for i in 0..width
        invariant
            m == content.len(),
            row_view == repeat_row(content@, width as nat),
            row@ =~= row_view.take(i as int),
    {
        if m == 0 {
            row.push(' ');
        } else {
            row.push(content[i % m]);
        }
    }
    assert(row@ =~= row_view);
    let mut res: Vec<char> = Vec::new();
    for j in 0..height
        invariant
            row@ == row_view,
            row@.len() == width,
            res@ == repeat_block(row_view, j as nat),
    {
        let ghost start = res@;
        for k in 0..width
            invariant
                width == row.len(),
                res@ =~= start + row@.take(k as int),
        {
            res.push(row[k]);
        }
        assert(row@.take(width as int) =~= row@);
        res.push('\n');
        assert(res@ =~= repeat_block(row_view, (j + 1) as nat));
    }
    res
}

/// The lines a text layer shows in an area of `width` x `height`
/// characters.
pub fn layout_text_lines(
    content: &str,
    repeat_content: bool,
    wrap_text: bool,
    width: usize,
    height: usize,
) -> (res: Vec<Vec<char>>)
    ensures
        lines_view(res@) == layer_lines(content@, repeat_content, wrap_text, width as nat, height as nat),
{
    let chars = chars_of(content);
    let source = if repeat_content {
        repeated_text(&chars, width, height)
    } else {
        chars
    };
    let lines = split_lines(&source);
    if wrap_text {
        wrap_lines(&lines, width)
    } else {
        lines
    }
}

// ---------------------------------------------------------------------------
// Placing the lines

/// The column at which a line of `line_width` characters starts in an area
/// `area_width` wide; negative where a centred or right-aligned line is
/// wider than the area.
pub open spec fn column_offset(align: TextAlign, area_width: int, line_width: int) -> int {
    match align {
        TextAlign::Left => 0,
        TextAlign::Center => area_width / 2 - line_width / 2,
        TextAlign::Right => area_width - line_width,
    }
}

/// The row at which a block of `text_height` lines starts in an area
/// `area_height` high.
pub open spec fn row_offset(valign: TextValign, area_height: int, text_height: int) -> int {
    match valign {
        TextValign::Top => 0,
        TextValign::Middle => area_height / 2 - text_height / 2,
        TextValign::Bottom => area_height - text_height,
    }
}

/// Where a line of `line_width` characters starts in an area `area_width`
/// characters wide.
pub fn text_column_offset(align: TextAlign, area_width: usize, line_width: usize) -> (r: isize)
    requires
        area_width <= isize::MAX,
        line_width <= isize::MAX,
    ensures
        r == column_offset(align, area_width as int, line_width as int),
{
    let a = area_width as isize;
    let l = line_width as isize;
    match align {
        TextAlign::Left => 0,
        TextAlign::Center => a / 2 - l / 2,
        TextAlign::Right => a - l,
    }
}

/// Where a block of `line_count` lines starts in an area `area_height`
/// characters high; a block of no lines counts as one line high.
pub fn text_row_offset(valign: TextValign, area_height: usize, line_count: usize) -> (r: isize)
    requires
        area_height <= isize::MAX,
        line_count <= isize::MAX,
    ensures
        r == row_offset(
            valign,
            area_height as int,
            if line_count == 0 {
                1
            } else {
                line_count as int
            },
        ),
{
    let a = area_height as isize;
    let h: isize = if line_count == 0 {
        1
    } else {
        line_count as isize
    };
    match valign {
        TextValign::Top => 0,
        TextValign::Middle => a / 2 - h / 2,
        TextValign::Bottom => a - h,
    }
}

// ---------------------------------------------------------------------------
// Laws

/// The pieces put back together, in order.
pub open spec fn joined(pieces: Seq<Seq<char>>) -> Seq<char>
    decreases pieces.len(),
{
    if pieces.len() == 0 {
        Seq::empty()
    } else {
        pieces[0] + joined(pieces.skip(1))
    }
}

proof fn lemma_joined_cons(a: Seq<char>, rest: Seq<Seq<char>>)
    ensures
        joined(seq![a] + rest) == a + joined(rest),
{
    assert((seq![a] + rest).skip(1) =~= rest);
    assert((seq![a] + rest)[0] == a);
}

proof fn lemma_wrap_after(line: Seq<char>, cur: Seq<char>, width: nat)
    requires
        width >= 1,
        cur.len() <= width,
    ensures
        joined(wrap_after(line, cur, width)) == cur + line,
        forall|k: int|
            0 <= k < wrap_after(line, cur, width).len() ==> 1 <= (#[trigger] wrap_after(
                line,
                cur,
                width,
            )[k]).len() <= width,
    decreases line.len(),
{
    if line.len() == 0 {
        if cur.len() == 0 {
            assert(cur + line =~= Seq::<char>::empty());
        } else {
            lemma_joined_cons(cur, Seq::empty());
            assert(seq![cur] + Seq::<Seq<char>>::empty() =~= seq![cur]);
            assert(cur + line =~= cur);
        }
    } else if cur.len() >= width {
        let rest = wrap_after(line.skip(1), seq![line[0]], width);
        lemma_wrap_after(line.skip(1), seq![line[0]], width);
        lemma_joined_cons(cur, rest);
        assert(seq![line[0]] + line.skip(1) =~= line);
        assert(cur + (seq![line[0]] + line.skip(1)) =~= cur + line);
        assert forall|k: int| 0 <= k < (seq![cur] + rest).len() implies 1 <= (#[trigger] (seq![cur]
            + rest)[k]).len() <= width by {
            if k > 0 {
                assert((seq![cur] + rest)[k] == rest[k - 1]);
            }
        }
    } else {
        lemma_wrap_after(line.skip(1), cur.push(line[0]), width);
        assert(cur.push(line[0]) + line.skip(1) =~= cur + line);
    }
}

/// Wrapping at a width of at least one character cuts a line into pieces
/// that, put back together, give the line, and each piece holds at least
/// one and at most `width` characters.
pub proof fn law_wrap_keeps_text(line: Seq<char>, width: nat)
    requires
        width >= 1,
    ensures
        joined(wrap_after(line, Seq::empty(), width)) == line,
        forall|k: int|
            0 <= k < wrap_after(line, Seq::empty(), width).len() ==> 1 <= (#[trigger] wrap_after(
                line,
                Seq::empty(),
                width,
            )[k]).len() <= width,
{
    lemma_wrap_after(line, Seq::empty(), width);
    assert(Seq::<char>::empty() + line =~= line);
}

proof fn lemma_lines_after_no_break(s: Seq<char>, cur: Seq<char>)
    requires
        !cur.contains('\n'),
    ensures
        forall|k: int|
            0 <= k < lines_after(s, cur).len() ==> !(#[trigger] lines_after(s, cur)[k]).contains(
                '\n',
            ),
    decreases s.len(),
{
    if s.len() == 0 {
        if cur.len() > 0 {
            assert(lines_after(s, cur) =~= seq![cur]);
            assert forall|k: int| 0 <= k < lines_after(s, cur).len() implies !(
            #[trigger] lines_after(s, cur)[k]).contains('\n') by {
                assert(lines_after(s, cur)[k] == cur);
            }
        }
    } else if s[0] == '\n' {
        let rest = lines_after(s.skip(1), Seq::empty());
        assert(!Seq::<char>::empty().contains('\n'));
        lemma_lines_after_no_break(s.skip(1), Seq::empty());
        assert(lines_after(s, cur) == seq![strip_cr(cur)] + rest);
        assert(!strip_cr(cur).contains('\n')) by {
            if strip_cr(cur).contains('\n') {
                let j = choose|j: int| 0 <= j < strip_cr(cur).len() && strip_cr(cur)[j] == '\n';
                assert(cur[j] == '\n');
            }
        }
        assert forall|k: int| 0 <= k < (seq![strip_cr(cur)] + rest).len() implies !(#[trigger] (
        seq![strip_cr(cur)] + rest)[k]).contains('\n') by {
            if k > 0 {
                assert((seq![strip_cr(cur)] + rest)[k] == rest[k - 1]);
            }
        }
    } else {
        assert(!cur.push(s[0]).contains('\n')) by {
            if cur.push(s[0]).contains('\n') {
                let j = choose|j: int| 0 <= j < cur.push(s[0]).len() && cur.push(s[0])[j] == '\n';
                if j < cur.len() {
                    assert(cur[j] == '\n');
                }
            }
        }
        lemma_lines_after_no_break(s.skip(1), cur.push(s[0]));
        assert(lines_after(s, cur) == lines_after(s.skip(1), cur.push(s[0])));
    }
}

/// No line of a text holds a line break.
pub proof fn law_lines_hold_no_breaks(s: Seq<char>)
    ensures
        forall|k: int| 0 <= k < text_lines(s).len() ==> !(#[trigger] text_lines(s)[k]).contains('\n'),
{
    lemma_lines_after_no_break(s, Seq::empty());
}

proof fn lemma_joined_append(a: Seq<Seq<char>>, b: Seq<Seq<char>>)
    ensures
        joined(a + b) == joined(a) + joined(b),
    decreases a.len(),
{
    if a.len() == 0 {
        assert(a + b =~= b);
        assert(joined(a) + joined(b) =~= joined(b));
    } else {
        lemma_joined_append(a.skip(1), b);
        assert((a + b)[0] == a[0]);
        assert((a + b).skip(1) =~= a.skip(1) + b);
        assert(a[0] + (joined(a.skip(1)) + joined(b)) =~= (a[0] + joined(a.skip(1))) + joined(b));
    }
}

proof fn lemma_wrap_joined(line: Seq<char>, cur: Seq<char>, width: nat)
    ensures
        joined(wrap_after(line, cur, width)) == cur + line,
    decreases line.len(),
{
    if line.len() == 0 {
        if cur.len() == 0 {
            assert(cur + line =~= Seq::<char>::empty());
        } else {
            lemma_joined_cons(cur, Seq::empty());
            assert(seq![cur] + Seq::<Seq<char>>::empty() =~= seq![cur]);
            assert(cur + line =~= cur);
        }
    } else if cur.len() >= width {
        let rest = wrap_after(line.skip(1), seq![line[0]], width);
        lemma_wrap_joined(line.skip(1), seq![line[0]], width);
        lemma_joined_cons(cur, rest);
        assert(seq![line[0]] + line.skip(1) =~= line);
        assert(cur + (seq![line[0]] + line.skip(1)) =~= cur + line);
    } else {
        lemma_wrap_joined(line.skip(1), cur.push(line[0]), width);
        assert(cur.push(line[0]) + line.skip(1) =~= cur + line);
    }
}

pub open spec fn no_break(s: Seq<char>) -> bool {
    !s.contains('\n')
}

pub open spec fn no_breaks(lines: Seq<Seq<char>>) -> bool {
    forall|k: int| 0 <= k < lines.len() ==> no_break(#[trigger] lines[k])
}

proof fn lemma_no_break_push(s: Seq<char>, c: char)
    requires
        no_break(s),
        c != '\n',
    ensures
        no_break(s.push(c)),
{
    if s.push(c).contains('\n') {
        let j = choose|j: int| 0 <= j < s.push(c).len() && s.push(c)[j] == '\n';
        if j < s.len() {
            assert(s[j] == '\n');
        }
    }
}

proof fn lemma_wrap_no_break(line: Seq<char>, cur: Seq<char>, width: nat)
    requires
        no_break(line),
        no_break(cur),
    ensures
        no_breaks(wrap_after(line, cur, width)),
    decreases line.len(),
{
    if line.len() == 0 {
        if cur.len() > 0 {
            assert(wrap_after(line, cur, width) =~= seq![cur]);
        }
    } else {
        assert(line[0] != '\n');
        assert(no_break(line.skip(1))) by {
            if line.skip(1).contains('\n') {
                let j = choose|j: int| 0 <= j < line.skip(1).len() && line.skip(1)[j] == '\n';
                assert(line[j + 1] == '\n');
            }
        }
        if cur.len() >= width {
            let rest = wrap_after(line.skip(1), seq![line[0]], width);
            lemma_no_break_push(Seq::empty(), line[0]);
            assert(seq![line[0]] =~= Seq::<char>::empty().push(line[0]));
            lemma_wrap_no_break(line.skip(1), seq![line[0]], width);
            assert(wrap_after(line, cur, width) == seq![cur] + rest);
            assert forall|k: int| 0 <= k < (seq![cur] + rest).len() implies no_break(
                #[trigger] (seq![cur] + rest)[k],
            ) by {
                if k > 0 {
                    assert((seq![cur] + rest)[k] == rest[k - 1]);
                }
            }
        } else {
            lemma_no_break_push(cur, line[0]);
            lemma_wrap_no_break(line.skip(1), cur.push(line[0]), width);
            assert(wrap_after(line, cur, width) == wrap_after(line.skip(1), cur.push(line[0]), width));
        }
    }
}

proof fn lemma_wrap_all(lines: Seq<Seq<char>>, width: nat)
    ensures
        joined(wrap_all(lines, width)) == joined(lines),
        no_breaks(lines) ==> no_breaks(wrap_all(lines, width)),
        width >= 1 ==> forall|k: int|
            0 <= k < wrap_all(lines, width).len() ==> 1 <= (#[trigger] wrap_all(lines, width)[k]).len()
                <= width,
    decreases lines.len(),
{
    if lines.len() > 0 {
        let init = lines.drop_last();
        let last = lines.last();
        let a = wrap_all(init, width);
        let b = wrap_after(last, Seq::empty(), width);
        lemma_wrap_all(init, width);
        lemma_wrap_joined(last, Seq::empty(), width);
        lemma_joined_append(a, b);
        assert(init + seq![last] =~= lines);
        lemma_joined_append(init, seq![last]);
        lemma_joined_cons(last, Seq::empty());
        assert(seq![last] + Seq::<Seq<char>>::empty() =~= seq![last]);
        assert(last + joined(Seq::<Seq<char>>::empty()) =~= last);
        assert(Seq::<char>::empty() + last =~= last);
        if no_breaks(lines) {
            assert(no_break(last));
            assert(no_breaks(init)) by {
                assert forall|k: int| 0 <= k < init.len() implies no_break(#[trigger] init[k]) by {
                    assert(init[k] == lines[k]);
                }
            }
            assert(no_break(Seq::<char>::empty()));
            lemma_wrap_no_break(last, Seq::empty(), width);
            assert forall|k: int| 0 <= k < (a + b).len() implies no_break(#[trigger] (a + b)[k]) by {
                if k < a.len() {
                    assert((a + b)[k] == a[k]);
                } else {
                    assert((a + b)[k] == b[k - a.len()]);
                }
            }
        }
        if width >= 1 {
            lemma_wrap_after(last, Seq::empty(), width);
            assert forall|k: int| 0 <= k < (a + b).len() implies 1 <= (#[trigger] (a + b)[k]).len()
                <= width by {
                if k < a.len() {
                    assert((a + b)[k] == a[k]);
                } else {
                    assert((a + b)[k] == b[k - a.len()]);
                }
            }
        }
    }
}

/// No line a text layer shows holds a line break, whether or not it wraps
/// and whether or not it repeats its content.
pub proof fn law_layer_lines_hold_no_breaks(
    content: Seq<char>,
    repeat_content: bool,
    wrap_text: bool,
    width: nat,
    height: nat,
)
    ensures
        forall|k: int|
            0 <= k < layer_lines(content, repeat_content, wrap_text, width, height).len() ==> !(
            #[trigger] layer_lines(content, repeat_content, wrap_text, width, height)[k]).contains(
                '\n',
            ),
{
    let source = if repeat_content {
        repeat_block(repeat_row(content, width), height)
    } else {
        content
    };
    law_lines_hold_no_breaks(source);
    assert(no_breaks(text_lines(source)));
    lemma_wrap_all(text_lines(source), width);
}

/// Wrapping only cuts lines: the lines a wrapping text layer shows, put
/// back together, give the same text as the lines it shows unwrapped, and
/// at a width of at least one character each shown line holds between one
/// and `width` characters.
pub proof fn law_wrapping_keeps_text(content: Seq<char>, repeat_content: bool, width: nat, height: nat)
    ensures
        joined(layer_lines(content, repeat_content, true, width, height)) == joined(
            layer_lines(content, repeat_content, false, width, height),
        ),
        width >= 1 ==> forall|k: int|
            0 <= k < layer_lines(content, repeat_content, true, width, height).len() ==> 1 <= (
            #[trigger] layer_lines(content, repeat_content, true, width, height)[k]).len() <= width,
{
    let source = if repeat_content {
        repeat_block(repeat_row(content, width), height)
    } else {
        content
    };
    lemma_wrap_all(text_lines(source), width);
}

/// The lines, each followed by a line break.
pub open spec fn with_breaks(lines: Seq<Seq<char>>) -> Seq<char>
    decreases lines.len(),
{
    if lines.len() == 0 {
        Seq::empty()
    } else {
        lines[0].push('\n') + with_breaks(lines.skip(1))
    }
}

/// The text with a final line break added where it does not end in one.
pub open spec fn terminated(s: Seq<char>) -> Seq<char> {
    if s.len() == 0 || s.last() == '\n' {
        s
    } else {
        s.push('\n')
    }
}

proof fn lemma_lines_after_breaks(s: Seq<char>, cur: Seq<char>)
    requires
        !s.contains('\r'),
        !cur.contains('\r'),
        !cur.contains('\n'),
    ensures
        with_breaks(lines_after(s, cur)) == terminated(cur + s),
    decreases s.len(),
{
    if s.len() == 0 {
        assert(cur + s =~= cur);
        if cur.len() == 0 {
            assert(lines_after(s, cur) =~= Seq::<Seq<char>>::empty());
        } else {
            let l = lines_after(s, cur);
            assert(l =~= seq![cur]);
            assert(l.skip(1) =~= Seq::<Seq<char>>::empty());
            assert(with_breaks(l) == l[0].push('\n') + with_breaks(l.skip(1)));
            assert(cur.last() != '\n') by {
                assert(cur[cur.len() - 1] == cur.last());
            }
            assert(cur.push('\n') + Seq::<char>::empty() =~= cur.push('\n'));
        }
    } else {
        let t = s.skip(1);
        assert(!t.contains('\r')) by {
            if t.contains('\r') {
                let j = choose|j: int| 0 <= j < t.len() && t[j] == '\r';
                assert(s[j + 1] == '\r');
            }
        }
        assert(s[0] != '\r');
        if s[0] == '\n' {
            assert(!Seq::<char>::empty().contains('\r'));
            assert(!Seq::<char>::empty().contains('\n'));
            lemma_lines_after_breaks(t, Seq::empty());
            assert(strip_cr(cur) == cur) by {
                if cur.len() > 0 {
                    assert(cur[cur.len() - 1] == cur.last());
                }
            }
            let rest = lines_after(t, Seq::empty());
            let l = lines_after(s, cur);
            assert(l == seq![cur] + rest);
            assert(l[0] == cur);
            assert(l.skip(1) =~= rest);
            assert(with_breaks(l) == cur.push('\n') + with_breaks(rest));
            assert(Seq::<char>::empty() + t =~= t);
            assert(cur + s =~= cur.push('\n') + t);
            if t.len() == 0 {
                assert(cur.push('\n') + t =~= cur.push('\n'));
                assert((cur + s).last() == '\n');
                assert(cur.push('\n') + terminated(t) =~= cur.push('\n'));
            } else {
                assert((cur + s).last() == t.last());
                if t.last() != '\n' {
                    assert((cur.push('\n') + t).push('\n') =~= cur.push('\n') + t.push('\n'));
                }
            }
        } else {
            let c2 = cur.push(s[0]);
            assert(!c2.contains('\r') && !c2.contains('\n')) by {
                if c2.contains('\r') || c2.contains('\n') {
                    let j = choose|j: int| 0 <= j < c2.len() && (c2[j] == '\r' || c2[j] == '\n');
                    if j < cur.len() {
                        assert(cur[j] == c2[j]);
                    }
                }
            }
            lemma_lines_after_breaks(t, c2);
            assert(lines_after(s, cur) == lines_after(t, c2));
            assert(c2 + t =~= cur + s);
        }
    }
}

/// Splitting a text (without carriage returns) into lines only removes its
/// line breaks: the lines, each followed by a line break, give back the
/// text, with a final line break where it had none.
pub proof fn law_lines_rebuild_text(s: Seq<char>)
    requires
        !s.contains('\r'),
    ensures
        with_breaks(text_lines(s)) == terminated(s),
{
    assert(!Seq::<char>::empty().contains('\r'));
    assert(!Seq::<char>::empty().contains('\n'));
    lemma_lines_after_breaks(s, Seq::empty());
    assert(Seq::<char>::empty() + s =~= s);
}

/// Left alignment starts at the area's first column, right alignment ends
/// a line at the area's last column, and a centred line leaves as much room
/// on each side as it can (the two sides differ by at most one column);
/// likewise for rows.
pub proof fn law_alignment(area: int, len: int)
    requires
        area >= 0,
        len >= 0,
    ensures
        column_offset(TextAlign::Left, area, len) == 0,
        column_offset(TextAlign::Right, area, len) + len == area,
        -1 <= 2 * column_offset(TextAlign::Center, area, len) - (area - len) <= 1,
        row_offset(TextValign::Top, area, len) == 0,
        row_offset(TextValign::Bottom, area, len) + len == area,
        -1 <= 2 * row_offset(TextValign::Middle, area, len) - (area - len) <= 1,
{
}

} // verus!
