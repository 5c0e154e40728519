use lex::diag::{render_all, Diagnostic, Severity, Span};
use lex::render_diagnostics;

#[test]
fn span_new_keeps_both_ends() {
    let s = Span::new(3, 7);
    assert_eq!(s.start, 3);
    assert_eq!(s.end, 7);
}

#[test]
fn error_and_lint_constructors() {
    let e = Diagnostic::error("E0102", "w".to_string(), "y".to_string(), "f".to_string(), None);
    assert_eq!(e.severity, Severity::Error);
    assert_eq!(e.code, "E0102");
    assert_eq!(e.what, "w");
    assert_eq!(e.why, "y");
    assert_eq!(e.fix, "f");
    assert_eq!(e.span, None);
    let l = Diagnostic::lint("L0201", "a".to_string(), "b".to_string(), "c".to_string(), Some(Span::new(1, 2)));
    assert_eq!(l.severity, Severity::Lint);
    assert_eq!(l.span, Some(Span::new(1, 2)));
}

#[test]
fn render_matches_the_documented_format() {
    let src = "fn main() {\n    pirnt(\"hi\")\n}\n";
    let d = Diagnostic::error(
        "E0102",
        "nothing named `pirnt` exists here".to_string(),
        "only functions that have been defined (or built in, like `print`) can be called".to_string(),
        "did you mean `print`?".to_string(),
        Some(Span::new(16, 21)),
    );
    let expected = "error[E0102]: nothing named `pirnt` exists here\n  --> tests/ui/unknown_function.lex:2:5\n    |\n  2 |     pirnt(\"hi\")\n    |     ^^^^^\n why: only functions that have been defined (or built in, like `print`) can be called\n fix: did you mean `print`?\n";
    assert_eq!(d.render("tests/ui/unknown_function.lex", src), expected);
}

#[test]
fn render_without_span_omits_location() {
    let d = Diagnostic::error(
        "E0101",
        "this program has no `main` function".to_string(),
        "why".to_string(),
        "fix".to_string(),
        None,
    );
    assert_eq!(d.render("a.lex", ""), "error[E0101]: this program has no `main` function\n why: why\n fix: fix\n");
}

#[test]
fn lints_render_as_warnings() {
    let d = Diagnostic::lint("L0201", "w".to_string(), "y".to_string(), "f".to_string(), Some(Span::new(0, 1)));
    assert_eq!(d.render("f.lex", "x"), "warning[L0201]: w\n  --> f.lex:1:1\n    |\n  1 | x\n    | ^\n why: y\n fix: f\n");
}

#[test]
fn carets_stop_at_end_of_line() {
    let d = Diagnostic::error("E0002", "w".to_string(), "y".to_string(), "f".to_string(), Some(Span::new(2, 9)));
    let out = d.render("f.lex", "ab\"cd\nef");
    assert_eq!(out, "error[E0002]: w\n  --> f.lex:1:3\n    |\n  1 | ab\"cd\n    |   ^^^\n why: y\n fix: f\n");
}

#[test]
fn line_numbers_are_right_aligned_and_crlf_is_trimmed() {
    let mut src = String::new();
    for _ in 0..11 {
        src.push_str("x\r\n");
    }
    src.push_str("yy\r\n");
    let start = src.find("yy").unwrap();
    let d = Diagnostic::error("E0003", "w".to_string(), "y".to_string(), "f".to_string(), Some(Span::new(start, start + 2)));
    let out = d.render("f.lex", &src);
    assert_eq!(out, "error[E0003]: w\n  --> f.lex:12:1\n    |\n 12 | yy\n    | ^^\n why: y\n fix: f\n");
}

#[test]
fn columns_count_characters() {
    let src = "éé x";
    let d = Diagnostic::error("E0001", "w".to_string(), "y".to_string(), "f".to_string(), Some(Span::new(5, 6)));
    let out = d.render("f.lex", src);
    assert_eq!(out, "error[E0001]: w\n  --> f.lex:1:4\n    |\n  1 | éé x\n    |    ^\n why: y\n fix: f\n");
}

#[test]
fn span_at_end_of_file_gets_one_caret() {
    let src = "fn main() {";
    let d = Diagnostic::error("E0003", "w".to_string(), "y".to_string(), "f".to_string(), Some(Span::new(11, 11)));
    let out = d.render("f.lex", src);
    assert_eq!(out, "error[E0003]: w\n  --> f.lex:1:12\n    |\n  1 | fn main() {\n    |            ^\n why: y\n fix: f\n");
}

#[test]
fn render_all_separates_with_blank_line() {
    let a = Diagnostic::error("E0001", "a".to_string(), "b".to_string(), "c".to_string(), None);
    let b = Diagnostic::lint("L0201", "d".to_string(), "e".to_string(), "f".to_string(), None);
    let out = render_all("f.lex", "", &[a.clone(), b.clone()]);
    assert_eq!(out, format!("{}\n{}", a.render("f.lex", ""), b.render("f.lex", "")));
    assert_eq!(render_diagnostics("f.lex", "", &[]), "");
}
