use studio_core::text_layout::{
    layout_text_lines, split_lines, text_column_offset, text_row_offset, wrap_lines,
};
use studio_core::types::{TextAlign, TextValign};

fn chars(s: &str) -> Vec<char> {
    s.chars().collect()
}

fn lines(v: &[&str]) -> Vec<Vec<char>> {
    v.iter().map(|s| chars(s)).collect()
}

#[test]
fn split_lines_like_str_lines() {
    assert_eq!(split_lines(&chars("a\r\nb\n\nc\r")), lines(&["a", "b", "", "c\r"]));
    assert_eq!(split_lines(&chars("")), lines(&[]));
    assert_eq!(split_lines(&chars("\n")), lines(&[""]));
    assert_eq!(split_lines(&chars("x\ny\n")), lines(&["x", "y"]));
    let text = "Ana\r\nMenü\n\n  Oyun \r";
    let expected: Vec<Vec<char>> = text.lines().map(chars).collect();
    assert_eq!(split_lines(&chars(text)), expected);
}

#[test]
fn wrap_cuts_lines_at_the_width() {
    assert_eq!(wrap_lines(&lines(&["abcdefg"]), 3), lines(&["abc", "def", "g"]));
    assert_eq!(wrap_lines(&lines(&["abc", "", "de"]), 3), lines(&["abc", "de"]));
    // a zero width closes the empty first piece at once
    assert_eq!(wrap_lines(&lines(&["ab"]), 0), lines(&["", "a", "b"]));
}

#[test]
fn wrapped_pieces_give_back_the_line() {
    let line = chars("Axiom Engine menüsü");
    for width in 1..25 {
        let pieces = wrap_lines(&vec![line.clone()], width);
        let joined: Vec<char> = pieces.iter().flatten().cloned().collect();
        assert_eq!(joined, line);
        assert!(pieces.iter().all(|p| !p.is_empty() && p.len() <= width));
    }
}

#[test]
fn text_layer_lines() {
    assert_eq!(layout_text_lines("hello world", false, true, 4, 1), lines(&["hell", "o wo", "rld"]));
    assert_eq!(layout_text_lines("hello\nworld", false, false, 3, 1), lines(&["hello", "world"]));
    assert_eq!(layout_text_lines("xy", true, false, 3, 2), lines(&["xyx", "xyx"]));
    assert_eq!(layout_text_lines("", true, false, 2, 2), lines(&["  ", "  "]));
    // a repeated line break splits the repeated rows
    assert_eq!(layout_text_lines("a\n", true, false, 3, 1), lines(&["a", "a"]));
}

#[test]
fn alignment_offsets() {
    assert_eq!(text_column_offset(TextAlign::Left, 10, 4), 0);
    assert_eq!(text_column_offset(TextAlign::Center, 10, 4), 3);
    assert_eq!(text_column_offset(TextAlign::Right, 10, 4), 6);
    assert_eq!(text_column_offset(TextAlign::Center, 3, 8), -3);
    assert_eq!(text_column_offset(TextAlign::Right, 3, 8), -5);
    assert_eq!(text_row_offset(TextValign::Top, 5, 2), 0);
    assert_eq!(text_row_offset(TextValign::Middle, 5, 0), 2);
    assert_eq!(text_row_offset(TextValign::Middle, 6, 3), 2);
    assert_eq!(text_row_offset(TextValign::Bottom, 5, 2), 3);
    assert_eq!(text_row_offset(TextValign::Bottom, 5, 0), 4);
}
