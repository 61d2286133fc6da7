use studio_core::text::{chars_of, remove_all_str, str_eq, str_starts_with, trim_str};

#[test]
fn trimming_strips_unicode_white_space() {
    assert_eq!(trim_str("  ab c \t\n"), "ab c");
    assert_eq!(trim_str("\u{3000}x\u{a0}"), "x");
    assert_eq!(trim_str("   "), "");
    assert_eq!(trim_str(""), "");
}

#[test]
fn removing_markers() {
    assert_eq!(remove_all_str("PUSH:a", "PUSH:"), "a");
    assert_eq!(remove_all_str("PUSH:PUSH:", "PUSH:"), "");
    assert_eq!(remove_all_str("aaa", "aa"), "a");
    assert_eq!(remove_all_str("xyz", "q"), "xyz");
}

#[test]
fn prefixes_and_equality() {
    assert!(str_starts_with("PUSH:x", "PUSH:"));
    assert!(!str_starts_with("PUS", "PUSH:"));
    assert!(str_starts_with("abc", ""));
    assert!(str_eq("ğü", "ğü"));
    assert!(!str_eq("a", "ab"));
    assert_eq!(chars_of("çay"), vec!['ç', 'a', 'y']);
}
