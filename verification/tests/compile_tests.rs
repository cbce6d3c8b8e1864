use tutomd::compile::{
    classify, compile, format_code, parse_comment, parse_doc_comment, strip_comment_line,
    CompileError, Section, Tag,
};

fn lines(v: &[&str]) -> Vec<String> {
    v.iter().map(|s| s.to_string()).collect()
}

fn strs(v: &[String]) -> Vec<&str> {
    v.iter().map(|s| s.as_str()).collect()
}

#[test]
fn classify_doc_comment_prefix() {
    assert_eq!(classify("/// hi"), Tag::DocComment);
    assert_eq!(classify("///"), Tag::DocComment);
    assert_eq!(classify("////"), Tag::DocComment);
    assert_eq!(classify("///t"), Tag::DocComment);
}

#[test]
fn classify_comment_prefix() {
    assert_eq!(classify("//t hi"), Tag::Comment);
    assert_eq!(classify("//t"), Tag::Comment);
    assert_eq!(classify("//thing"), Tag::Comment);
}

#[test]
fn classify_everything_else_as_code() {
    assert_eq!(classify("fn main() {}"), Tag::Code);
    assert_eq!(classify(""), Tag::Code);
    assert_eq!(classify("//"), Tag::Code);
    assert_eq!(classify("// plain comment"), Tag::Code);
    assert_eq!(classify("  /// indented marker is code"), Tag::Code);
}

#[test]
fn comment_strip_marker_and_one_space() {
    assert_eq!(strip_comment_line("//t Hello"), "Hello");
}

#[test]
fn comment_strip_preserves_extra_indentation() {
    // Only the marker and exactly one following space are removed; the
    // remaining leading indentation stays.
    assert_eq!(strip_comment_line("//t   Hello"), "  Hello");
}

#[test]
fn comment_strip_right_trims() {
    assert_eq!(strip_comment_line("//t keep me   "), "keep me");
    assert_eq!(strip_comment_line("//t"), "");
    assert_eq!(strip_comment_line("//t "), "");
    assert_eq!(strip_comment_line("//t  "), "");
    assert_eq!(strip_comment_line("//t  x"), " x");
    // Only a literal space after the marker is stripped, not a tab.
    assert_eq!(strip_comment_line("//t\tx"), "\tx");
}

#[test]
fn doc_comment_line_retained_with_marker() {
    let input = lines(&["/// Note"]);
    let doc = compile(&input).unwrap();
    assert_eq!(doc.sections.len(), 1);
    match &doc.sections[0] {
        Section::DocComment { lines } => assert_eq!(strs(lines), vec!["/// Note"]),
        other => panic!("expected a doc-comment section, got {:?}", other),
    }
}

#[test]
fn doc_comment_line_outer_whitespace_trimmed() {
    let input = lines(&["  /// Note  "]);
    // The leading spaces make this a code line; a doc-comment line is
    // trimmed only once it is classified as one.
    let doc = compile(&input).unwrap();
    match &doc.sections[0] {
        Section::Code { .. } => {}
        other => panic!("expected a code section, got {:?}", other),
    }
    let input = lines(&["/// Note  "]);
    let doc = compile(&input).unwrap();
    match &doc.sections[0] {
        Section::DocComment { lines } => assert_eq!(strs(lines), vec!["/// Note"]),
        other => panic!("expected a doc-comment section, got {:?}", other),
    }
}

#[test]
fn format_all_blank_code_becomes_empty() {
    let mut ls = lines(&["", "   ", "\t"]);
    format_code(&mut ls);
    assert!(ls.is_empty());
}

#[test]
fn format_collapses_blank_runs_and_fences() {
    let mut ls = lines(&["", "", "foo", "", "", "", "bar", ""]);
    format_code(&mut ls);
    assert_eq!(strs(&ls), vec!["```rust", "foo", "", "bar", "```"]);
}

#[test]
fn format_drops_trailing_blank_line() {
    let mut ls = lines(&["foo", ""]);
    format_code(&mut ls);
    assert_eq!(strs(&ls), vec!["```rust", "foo", "```"]);

    // A whitespace-only final line is blank too, so it is dropped.
    let mut ls = lines(&["foo", "  "]);
    format_code(&mut ls);
    assert_eq!(strs(&ls), vec!["```rust", "foo", "```"]);

    // Only one line can need dropping: blank runs were collapsed, so
    // the line before a blank last line is not blank.
    let mut ls = lines(&["foo", "", "bar", "  "]);
    format_code(&mut ls);
    assert_eq!(strs(&ls), vec!["```rust", "foo", "", "bar", "```"]);
}

#[test]
fn format_keeps_first_line_of_blank_run_verbatim() {
    // The first blank line of a run is kept as it stands, even when it
    // holds whitespace.
    let mut ls = lines(&["a", "  ", "", "b"]);
    format_code(&mut ls);
    assert_eq!(strs(&ls), vec!["```rust", "a", "  ", "b", "```"]);
}

#[test]
fn compile_groups_maximal_runs_in_order() {
    let input = lines(&["/// a", "/// b", "//t c", "let x = 1;", "let y = 2;"]);
    let doc = compile(&input).unwrap();
    assert_eq!(doc.sections.len(), 3);
    match &doc.sections[0] {
        Section::DocComment { lines } => assert_eq!(strs(lines), vec!["/// a", "/// b"]),
        other => panic!("expected a doc-comment section, got {:?}", other),
    }
    match &doc.sections[1] {
        Section::Comment { lines } => assert_eq!(strs(lines), vec!["c"]),
        other => panic!("expected a comment section, got {:?}", other),
    }
    match &doc.sections[2] {
        Section::Code { lines } => {
            assert_eq!(strs(lines), vec!["```rust", "let x = 1;", "let y = 2;", "```"])
        }
        other => panic!("expected a code section, got {:?}", other),
    }
}

#[test]
fn compile_never_puts_same_variant_twice_in_a_row() {
    let input = lines(&[
        "/// a", "//t b", "/// c", "x", "//t d", "//t e", "y", "z", "/// f",
    ]);
    let doc = compile(&input).unwrap();
    let tags: Vec<u8> = doc
        .sections
        .iter()
        .map(|s| match s {
            Section::DocComment { .. } => 0u8,
            Section::Comment { .. } => 1u8,
            Section::Code { .. } => 2u8,
        })
        .collect();
    for w in tags.windows(2) {
        assert_ne!(w[0], w[1]);
    }
    assert_eq!(tags, vec![0, 1, 0, 2, 1, 2, 0]);
}

#[test]
fn compile_empty_input_gives_empty_document() {
    let input: Vec<String> = Vec::new();
    let doc = compile(&input).unwrap();
    assert!(doc.sections.is_empty());
    assert_eq!(doc.render(), "");
}

#[test]
fn parse_comment_rejects_other_tags() {
    let input = lines(&["fn main() {}"]);
    let mut i: usize = 0;
    let r = parse_comment(&input, &mut i);
    assert_eq!(r.unwrap_err(), CompileError::MalformedInput);
    assert_eq!(i, 0);
}

#[test]
fn parse_doc_comment_rejects_end_of_input() {
    let input: Vec<String> = Vec::new();
    let mut i: usize = 0;
    let r = parse_doc_comment(&input, &mut i);
    assert_eq!(r.unwrap_err(), CompileError::MalformedInput);
    assert_eq!(i, 0);
}

#[test]
fn render_terminates_lines_and_separates_sections() {
    let input = lines(&["//t hi", "code line"]);
    let doc = compile(&input).unwrap();
    assert_eq!(doc.render(), "hi\n\n```rust\ncode line\n```\n\n");
}

#[test]
fn render_all_doc_comment_file() {
    let input = lines(&["/// one", "/// two", "/// three"]);
    let doc = compile(&input).unwrap();
    assert_eq!(doc.sections.len(), 1);
    match &doc.sections[0] {
        Section::DocComment { lines } => {
            assert_eq!(strs(lines), vec!["/// one", "/// two", "/// three"])
        }
        other => panic!("expected a doc-comment section, got {:?}", other),
    }
    assert_eq!(doc.render(), "/// one\n/// two\n/// three\n\n");
}

#[test]
fn render_skips_empty_code_section_entirely() {
    // The blank line between the two comment-ish runs is a code run
    // that formats to nothing: no fence, no output, no separator.
    let input = lines(&["//t a", "", "/// b"]);
    let doc = compile(&input).unwrap();
    assert_eq!(doc.sections.len(), 3);
    match &doc.sections[1] {
        Section::Code { lines } => assert!(lines.is_empty()),
        other => panic!("expected a code section, got {:?}", other),
    }
    assert_eq!(doc.render(), "a\n\n/// b\n\n");
}
