use lumen::diagnostics::{Diagnostic, Diagnostics, Severity};
use lumen::errors::DiagCode;
use lumen::explain::{explain, explain_code};
use lumen::source::SourceFile;
use lumen::span::Span;
use lumen::suggest::{closest, levenshtein};

/// A plain rendering of one diagnostic: its code, message and labels.
fn plain(d: &Diagnostic) -> String {
    let mut s = format!("error[{}]: {}", d.code.as_str(), d.message);
    for l in &d.labels {
        s.push_str(&format!(" ({}..{}: {})", l.span.lo, l.span.hi, l.message));
    }
    s
}

fn rendered(diags: &Diagnostics) -> Vec<String> {
    diags.items().iter().map(plain).collect()
}

#[test]
fn sink_counts_and_flags() {
    let mut diags = Diagnostics::new();
    assert!(!diags.has_errors());
    diags.emit(Diagnostic::warning(DiagCode::MissingReturn, "w"));
    diags.emit(Diagnostic::error(DiagCode::TypeMismatch, "e"));
    assert_eq!(diags.warning_count(), 1);
    assert_eq!(diags.error_count(), 1);
    assert!(diags.has_errors());
}

#[test]
fn render_all_is_source_ordered() {
    let _file = SourceFile::new("main.lm", "aaaa\nbbbb\n");
    let mut diags = Diagnostics::new();
    diags.emit(Diagnostic::error(DiagCode::UnresolvedName, "second").with_primary(Span::new(5, 9), "here"));
    diags.emit(Diagnostic::error(DiagCode::UnresolvedName, "first").with_primary(Span::new(0, 4), "here"));
    let out = diags.render_all(&rendered(&diags));
    let first = out.find("first").unwrap();
    let second = out.find("second").unwrap();
    assert!(first < second, "diagnostics not source-ordered:\n{out}");
}

#[test]
fn render_order_is_stable_for_equal_starts() {
    let mut diags = Diagnostics::new();
    diags.emit(Diagnostic::error(DiagCode::UnresolvedName, "a").with_primary(Span::new(3, 4), "x"));
    diags.emit(Diagnostic::error(DiagCode::UnresolvedName, "b").with_primary(Span::new(1, 2), "x"));
    diags.emit(Diagnostic::error(DiagCode::UnresolvedName, "c").with_primary(Span::new(3, 5), "x"));
    assert_eq!(diags.render_order(), vec![1, 0, 2]);
}

#[test]
fn render_all_joins_lines() {
    let mut diags = Diagnostics::new();
    diags.emit(Diagnostic::error(DiagCode::UnresolvedName, "x").with_primary(Span::new(2, 3), "x"));
    diags.emit(Diagnostic::error(DiagCode::UnresolvedName, "y").with_primary(Span::new(0, 1), "y"));
    let out = diags.render_all(&vec!["one".to_string(), "two".to_string()]);
    assert_eq!(out, "two\none\n");
}

#[test]
fn primary_span_prefers_the_primary_label() {
    let d = Diagnostic::error(DiagCode::TypeMismatch, "m")
        .with_label(Span::new(1, 2), "secondary")
        .with_primary(Span::new(5, 7), "primary");
    assert_eq!(d.primary_span(), Span::new(5, 7));
    let d2 = Diagnostic::error(DiagCode::TypeMismatch, "m").with_label(Span::new(1, 2), "only");
    assert_eq!(d2.primary_span(), Span::new(1, 2));
    let d3 = Diagnostic::error(DiagCode::TypeMismatch, "m");
    assert_eq!(d3.primary_span(), Span::new(0, 0));
}

#[test]
fn builders_record_their_parts() {
    let d = Diagnostic::warning(DiagCode::MissingReturn, "msg").with_note("a note").with_help("a help");
    assert_eq!(d.severity, Severity::Warning);
    assert_eq!(d.message, "msg");
    assert_eq!(d.notes, vec!["a note".to_string()]);
    assert_eq!(d.helps, vec!["a help".to_string()]);
    assert!(d.labels.is_empty());
}

#[test]
fn diagnostic_points_at_correct_location() {
    let src = "fn main() {\n    let x = bogus;\n}\n";
    let file = SourceFile::new("main.lm", src);
    // Span of `bogus` on line 2.
    let start = src.find("bogus").unwrap() as u32;
    let span = Span::new(start, start + 5);
    let loc = file.location(span.lo);
    assert_eq!(loc.line, 2);

    let mut diags = Diagnostics::new();
    diags.emit(
        Diagnostic::error(DiagCode::UnresolvedName, "cannot find value `bogus`")
            .with_primary(span, "not found in this scope"),
    );
    let rendered = diags.render_all(&rendered(&diags));
    assert!(rendered.contains("E0200"));
    assert!(rendered.contains("bogus"));
}

#[test]
fn codes_are_unique() {
    let mut seen = std::collections::HashSet::new();
    for code in DiagCode::all() {
        assert!(seen.insert(code.as_str()), "duplicate code {}", code.as_str());
    }
}

#[test]
fn all_is_complete_and_sorted() {
    let codes: Vec<&str> = DiagCode::all().iter().map(|c| c.as_str()).collect();
    let mut sorted = codes.clone();
    sorted.sort_unstable();
    assert_eq!(codes, sorted, "DiagCode::all() is not in code order");
}

#[test]
fn every_code_has_an_explanation() {
    for code in DiagCode::all() {
        let text = explain_code(code);
        assert!(text.starts_with(code.as_str()), "explanation for {} mislabelled", code.as_str());
        assert!(text.len() > 40, "explanation for {} too short", code.as_str());
    }
}

#[test]
fn explain_by_string() {
    assert!(explain("E0300").unwrap().contains("mismatched types"));
    assert_eq!(explain("E9999"), None);
}

#[test]
fn explain_finds_every_code_by_its_text() {
    for code in DiagCode::all() {
        assert_eq!(explain(code.as_str()), Some(explain_code(code)));
    }
    assert_eq!(explain(""), None);
    assert_eq!(explain("e0300"), None);
}

#[test]
fn levenshtein_basics() {
    assert_eq!(levenshtein("", ""), 0);
    assert_eq!(levenshtein("abc", "abc"), 0);
    assert_eq!(levenshtein("abc", "abd"), 1);
    assert_eq!(levenshtein("kitten", "sitting"), 3);
    assert_eq!(levenshtein("flaw", "lawn"), 2);
}

#[test]
fn levenshtein_is_symmetric_and_bounded() {
    assert_eq!(levenshtein("abc", ""), 3);
    assert_eq!(levenshtein("", "abc"), 3);
    assert_eq!(levenshtein("héllo", "hello"), 1);
    assert_eq!(levenshtein("sunday", "saturday"), levenshtein("saturday", "sunday"));
}

#[test]
fn suggests_near_misses() {
    let names = vec!["print_int", "print_str", "main"];
    assert_eq!(closest("print_itn", &names), Some("print_int"));
    assert_eq!(closest("mian", &names), Some("main"));
}

#[test]
fn does_not_suggest_unrelated_names() {
    let names = vec!["print_int", "main"];
    assert_eq!(closest("xyzzy", &names), None);
}

#[test]
fn short_names_tolerate_one_edit_only() {
    assert_eq!(closest("ab", &vec!["ac"]), Some("ac")); // distance 1, ok
    assert_eq!(closest("ab", &vec!["cd"]), None); // distance 2, too far
}

#[test]
fn closest_breaks_ties_toward_the_first_candidate() {
    assert_eq!(closest("abc", &vec!["abd", "abe"]), Some("abd"));
    assert_eq!(closest("abc", &vec!["xyz", "abe", "abd"]), Some("abe"));
}

#[test]
fn footer_tags_notes_and_puts_helps_after_them() {
    let d = Diagnostic::error(DiagCode::TypeMismatch, "m").with_note("a").with_help("b").with_note("c");
    assert_eq!(d.footer(), Some("note: a\nnote: c\nb".to_string()));
    let only_help = Diagnostic::error(DiagCode::TypeMismatch, "m").with_help("try this");
    assert_eq!(only_help.footer(), Some("try this".to_string()));
    assert_eq!(Diagnostic::error(DiagCode::TypeMismatch, "m").footer(), None);
}
