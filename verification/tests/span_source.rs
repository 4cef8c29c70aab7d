use lumen::source::{Location, SourceFile};
use lumen::span::Span;

#[test]
fn to_covers_both() {
    let a = Span::new(2, 5);
    let b = Span::new(8, 10);
    assert_eq!(a.to(b), Span::new(2, 10));
    assert_eq!(b.to(a), Span::new(2, 10));
}

#[test]
fn len_and_emptiness() {
    assert_eq!(Span::new(3, 7).len(), 4);
    assert!(Span::dummy().is_empty());
    assert!(!Span::new(0, 1).is_empty());
}

#[test]
fn shrink_endpoints() {
    let s = Span::new(4, 9);
    assert_eq!(s.shrink_to_lo(), Span::new(4, 4));
    assert_eq!(s.shrink_to_hi(), Span::new(9, 9));
}

#[test]
fn span_range_is_the_byte_range() {
    assert_eq!(Span::new(3, 7).range(), 3..7);
    assert_eq!(Span::new(0, 0).range(), 0..0);
}

#[test]
fn to_of_overlapping_spans() {
    assert_eq!(Span::new(2, 8).to(Span::new(4, 6)), Span::new(2, 8));
    assert_eq!(Span::new(4, 6).to(Span::new(2, 8)), Span::new(2, 8));
}

#[test]
fn single_line_locations() {
    let f = SourceFile::new("t.lm", "let x = 1;");
    assert_eq!(f.location(0), Location { line: 1, column: 1 });
    assert_eq!(f.location(4), Location { line: 1, column: 5 });
}

#[test]
fn multi_line_locations() {
    let f = SourceFile::new("t.lm", "a\nbb\nccc");
    assert_eq!(f.location(0), Location { line: 1, column: 1 });
    assert_eq!(f.location(2), Location { line: 2, column: 1 });
    assert_eq!(f.location(5), Location { line: 3, column: 1 });
    assert_eq!(f.location(7), Location { line: 3, column: 3 });
}

#[test]
fn unicode_columns_count_chars() {
    // 'é' is two bytes; the column after it must be 2, not 3.
    let f = SourceFile::new("t.lm", "é=1");
    assert_eq!(f.location(2), Location { line: 1, column: 2 });
}

#[test]
fn line_text_strips_terminator() {
    let f = SourceFile::new("t.lm", "first\nsecond\n");
    assert_eq!(f.line_text(1), "first");
    assert_eq!(f.line_text(2), "second");
    assert_eq!(f.line_text(99), "");
}

#[test]
fn snippet_and_offset_clamp_never_panic() {
    let f = SourceFile::new("t.lm", "abc");
    assert_eq!(f.snippet(Span::new(0, 2)), "ab");
    assert_eq!(f.snippet(Span::new(10, 20)), "");
    assert_eq!(f.location(999), Location { line: 1, column: 4 });
}

#[test]
fn line_text_strips_crlf_and_counts_lines() {
    let f = SourceFile::new("t.lm", "one\r\ntwo");
    assert_eq!(f.line_text(1), "one");
    assert_eq!(f.line_text(2), "two");
    assert_eq!(f.line_text(0), "");
    assert_eq!(f.line_count(), 2);
}

#[test]
fn snippet_off_a_char_boundary_is_empty() {
    let f = SourceFile::new("t.lm", "é");
    assert_eq!(f.snippet(Span::new(0, 1)), "");
    assert_eq!(f.snippet(Span::new(0, 2)), "é");
}

#[test]
fn name_and_text_are_kept() {
    let f = SourceFile::new("main.lm", "fn main() {}");
    assert_eq!(f.name(), "main.lm");
    assert_eq!(f.text(), "fn main() {}");
}
