use tutomd::text::{count_spaces, is_blank_line, is_space, trim, trim_end};

#[test]
fn trim_removes_surrounding_whitespace() {
    assert_eq!(trim("  hello  "), "hello");
    assert_eq!(trim("\t x \t"), "x");
    assert_eq!(trim("no-change"), "no-change");
    assert_eq!(trim(""), "");
    assert_eq!(trim("   "), "");
}

#[test]
fn trim_keeps_inner_whitespace() {
    assert_eq!(trim("  a  b  "), "a  b");
}

#[test]
fn trim_handles_unicode_whitespace() {
    assert_eq!(trim("\u{A0}x\u{3000}"), "x");
}

#[test]
fn trim_end_only_touches_the_tail() {
    assert_eq!(trim_end("  x  "), "  x");
    assert_eq!(trim_end("x"), "x");
    assert_eq!(trim_end(" \t"), "");
}

#[test]
fn blank_lines_are_whitespace_only() {
    assert!(is_blank_line(""));
    assert!(is_blank_line("   \t"));
    assert!(!is_blank_line(" . "));
}

#[test]
fn space_class_matches_unicode_white_space() {
    assert!(is_space(' '));
    assert!(is_space('\t'));
    assert!(is_space('\u{2028}'));
    assert!(!is_space('x'));
    assert!(!is_space('\u{200B}'));
}

#[test]
fn count_spaces_counts_only_plain_spaces() {
    assert_eq!(count_spaces("a b c"), 2);
    assert_eq!(count_spaces(""), 0);
    assert_eq!(count_spaces("abc"), 0);
    assert_eq!(count_spaces("  "), 2);
    assert_eq!(count_spaces("a\tb"), 0);
}
