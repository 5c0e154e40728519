use lex::ast::Item;
use lex::diag::{Diagnostic, Severity, Span};
use lex::lexer::{lex, TokKind};
use lex::parser::parse;
use lex::sema::{check, edit_distance};
use lex::{compile, render_diagnostics};

fn errors(src: &str) -> Vec<Diagnostic> {
    match compile(src) {
        Ok(_) => panic!("expected errors for {src:?}"),
        Err(ds) => ds,
    }
}

fn codes(ds: &[Diagnostic]) -> Vec<&str> {
    ds.iter().map(|d| d.code).collect()
}

#[test]
fn edit_distance_behaves_as_a_distance() {
    assert_eq!(edit_distance("print", "print"), 0);
    assert_eq!(edit_distance("", ""), 0);
    assert_eq!(edit_distance("pirnt", "print"), 2);
    assert_eq!(edit_distance("print", "pirnt"), 2);
    assert_eq!(edit_distance("kitten", "sitting"), 3);
    assert_eq!(edit_distance("sitting", "kitten"), 3);
    assert_eq!(edit_distance("", "abc"), 3);
    assert_eq!(edit_distance("abc", ""), 3);
    assert_eq!(edit_distance("ab", "abcd"), 2);
    assert_eq!(edit_distance("héllo", "hello"), 1);
}

#[test]
fn suggestion_is_the_closest_name() {
    let ds = errors("fn prinx() {} fn main() { prnt(1); }");
    assert_eq!(ds[0].code, "E0102");
    assert_eq!(ds[0].fix, "did you mean `print`?");
    let ds = errors("fn main() { abcdef(); }");
    assert_eq!(ds[0].fix, "define it first (fn abcdef() { ... }), or call one that exists");
}

#[test]
fn missing_main_comes_after_definition_problems() {
    let ds = errors("fn print() {} fn foo() { zz(); }");
    assert_eq!(codes(&ds), vec!["E0106", "E0101", "E0102"]);
    assert_eq!(ds[1].span, None);
    assert!(ds[0].span.is_some());
    assert!(ds[2].span.is_some());
    assert!(compile("fn helper() {} fn main() { helper(); }").is_ok());
}

#[test]
fn duplicate_is_reported_at_the_later_definition() {
    let ds = errors("fn a() {} fn main() {} fn a() {}");
    assert_eq!(codes(&ds), vec!["E0105"]);
    assert_eq!(ds[0].what, "`a` is defined twice");
    assert_eq!(ds[0].span, Some(Span::new(26, 27)));
}

#[test]
fn every_print_definition_is_reported() {
    let ds = errors("fn print() {} fn main() {} fn print() {}");
    assert_eq!(codes(&ds), vec!["E0106", "E0106"]);
    assert_eq!(ds[0].span, Some(Span::new(3, 8)));
    assert_eq!(ds[1].span, Some(Span::new(30, 35)));
}

#[test]
fn check_keeps_every_definition() {
    let (toks, lex_diags) = lex("struct S {} const C = 1; fn main() { print(C); }");
    assert!(lex_diags.is_empty());
    let mut prog = parse(&toks).unwrap();
    let diags = check(&mut prog);
    assert!(diags.is_empty());
    assert_eq!(prog.items.len(), 3);
    assert!(matches!(&prog.items[0], Item::Struct(s) if s.name == "S"));
    assert!(matches!(&prog.items[1], Item::Const(c) if c.name == "C"));
    assert!(matches!(&prog.items[2], Item::Func(f) if f.name == "main" && f.body.len() == 1));
}

#[test]
fn failures_are_errors_and_successes_carry_lints() {
    for src in ["fn main( {", "fn main() { $ }", "fn main() {}  fn main() {}", "x"] {
        let ds = errors(src);
        assert!(!ds.is_empty());
        assert!(ds.iter().all(|d| d.severity == Severity::Error), "{src}: {ds:?}");
    }
    let out = compile("fn eat(take s: String) {} fn main() { val s: String = \"a\"; eat(s); }").unwrap();
    assert_eq!(out.lints.len(), 1);
    assert!(out.lints.iter().all(|d| d.severity == Severity::Lint));
}

#[test]
fn rendering_without_a_place_has_no_location() {
    let ds = errors("fn foo() {}");
    let text = render_diagnostics("a.lex", "fn foo() {}", &ds);
    assert_eq!(
        text,
        "error[E0101]: this program has no `main` function\n why: running a program starts at `fn main`, and this file doesn't define one\n fix: add one to this file: fn main() { ... }\n"
    );
}

#[test]
fn lexer_output_always_ends_with_one_end_token() {
    for src in ["", "fn", "\"open", "$$$", "fn main() {}"] {
        let (toks, _) = lex(src);
        assert!(!toks.is_empty());
        let last = toks.last().unwrap();
        assert_eq!(last.span, Span::new(src.len(), src.len()));
        let ends = toks.iter().filter(|t| t.kind == TokKind::Eof).count();
        assert_eq!(ends, 1);
    }
}

#[test]
fn calls_resolve_to_functions_defined_anywhere_in_the_file() {
    assert!(compile("fn main() { later(); } fn later() {}").is_ok());
    assert!(compile("pub fn helper() {} fn main() { helper(); }").is_ok());
    let ds = errors("fn main() { missing(); }");
    assert_eq!(codes(&ds), vec!["E0102"]);
    assert_eq!(ds[0].what, "nothing named `missing` exists here");
}

#[test]
fn tokens_have_the_shapes_of_the_language() {
    let (toks, diags) = lex("fn main_1 x9 _a héllo 007 \"a b\" val");
    assert!(diags.is_empty());
    let kinds: Vec<TokKind> = toks.into_iter().map(|t| t.kind).collect();
    assert_eq!(
        kinds,
        vec![
            TokKind::KwFn,
            TokKind::Ident("main_1".to_string()),
            TokKind::Ident("x9".to_string()),
            TokKind::Ident("_a".to_string()),
            TokKind::Ident("héllo".to_string()),
            TokKind::Int(7),
            TokKind::Str("a b".to_string()),
            TokKind::KwVal,
            TokKind::Eof,
        ]
    );
}

#[test]
fn checking_twice_changes_nothing() {
    let src = "const A = 1; fn eat(take s: String) {} fn f(x: Shared[Int]) {} \
               fn main() { val s: String = \"a\"; eat(s); val h: Shared[Int] = 1; loop { f(h); } print(A); zz(); }";
    let (toks, lex_diags) = lex(src);
    assert!(lex_diags.is_empty());
    let mut prog = parse(&toks).unwrap();
    let first = check(&mut prog);
    let after_first = format!("{prog:?}");
    let second = check(&mut prog);
    assert_eq!(format!("{prog:?}"), after_first);
    assert_eq!(format!("{first:?}"), format!("{second:?}"));
    assert_eq!(codes(&first), vec!["L0201", "L0202", "E0102"]);
}
