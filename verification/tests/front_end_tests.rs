use lex::ast::{AccessConvention, ConstAttr, Expr, Item, RustConstKind, Stmt, Type};
use lex::diag::{render_all, Diagnostic, Severity, Span};
use lex::lexer::lex;
use lex::parser::parse;
use lex::sema::{check, edit_distance};
use lex::{compile, CompileOutput};

fn errors(src: &str) -> Vec<Diagnostic> {
    match compile(src) {
        Ok(_) => panic!("expected errors for {src:?}"),
        Err(ds) => ds,
    }
}

fn ok(src: &str) -> CompileOutput {
    match compile(src) {
        Ok(out) => out,
        Err(ds) => panic!("unexpected errors: {ds:?}"),
    }
}

fn parse_src(src: &str) -> Result<lex::ast::Program, Diagnostic> {
    let (toks, diags) = lex(src);
    assert!(diags.is_empty(), "{diags:?}");
    parse(&toks)
}

#[test]
fn hello_world_compiles() {
    let out = ok("fn main() { print(\"hi\"); }");
    assert!(out.lints.is_empty());
    assert_eq!(out.program.items.len(), 1);
    match &out.program.items[0] {
        Item::Func(f) => {
            assert_eq!(f.name, "main");
            assert_eq!(f.body.len(), 1);
        },
        _ => panic!("expected a function"),
    }
}

#[test]
fn unknown_function_snapshot() {
    let src = "fn main() {\n    pirnt(\"hi\")\n}\n";
    let ds = errors(src);
    assert_eq!(ds.len(), 1);
    let expected = "error[E0102]: nothing named `pirnt` exists here\n  --> tests/ui/unknown_function.lex:2:5\n    |\n  2 |     pirnt(\"hi\")\n    |     ^^^^^\n why: only functions that have been defined (or built in, like `print`) can be called\n fix: did you mean `print`?\n";
    assert_eq!(render_all("tests/ui/unknown_function.lex", src, &ds), expected);
}

#[test]
fn unknown_function_without_close_name() {
    let ds = errors("fn main() { zzzzzz(); }");
    assert_eq!(ds[0].code, "E0102");
    assert_eq!(ds[0].fix, "define it first (fn zzzzzz() { ... }), or call one that exists");
}

#[test]
fn suggestion_prefers_first_defined_of_equally_close() {
    let ds = errors("fn prinx() {} fn main() { prin(1); }");
    assert_eq!(ds[0].code, "E0102");
    assert_eq!(ds[0].fix, "did you mean `prinx`?");
}

#[test]
fn missing_main_is_e0101() {
    let ds = errors("fn foo() {}");
    assert_eq!(ds.len(), 1);
    assert_eq!(ds[0].code, "E0101");
    assert_eq!(ds[0].what, "this program has no `main` function");
    assert_eq!(ds[0].span, None);
}

#[test]
fn pub_main_is_accepted() {
    ok("pub fn main() {}");
}

#[test]
fn duplicate_function_is_e0105() {
    let ds = errors("fn main() {} fn main() {}");
    assert_eq!(ds.len(), 1);
    assert_eq!(ds[0].code, "E0105");
    assert_eq!(ds[0].what, "`main` is defined twice");
    assert_eq!(ds[0].why, "every function needs a unique name so calls aren't ambiguous");
}

#[test]
fn redefining_print_is_e0106() {
    let ds = errors("fn print() {} fn main() {}");
    assert_eq!(ds.len(), 1);
    assert_eq!(ds[0].code, "E0106");
    assert_eq!(ds[0].what, "the name `print` is built in and can't be redefined");
}

#[test]
fn print_arity_is_e0103() {
    let ds = errors("fn main() { print(); }");
    assert_eq!(ds.len(), 1);
    assert_eq!(ds[0].code, "E0103");
    assert_eq!(ds[0].what, "`print` needs exactly one thing to print");
    assert_eq!(ds[0].fix, "e.g. print(\"hello\")");
}

#[test]
fn argument_count_is_e0104() {
    let ds = errors("fn f() {} fn main() { f(1); }");
    assert_eq!(ds[0].code, "E0104");
    assert_eq!(ds[0].what, "`f` expects 0 arguments, got 1");
    let ds = errors("fn f(x: Int) {} fn main() { f(); }");
    assert_eq!(ds[0].what, "`f` expects 1 argument, got 0");
}

#[test]
fn implicit_clone_is_a_lint() {
    let out = ok("fn eat(take s: String) {} fn main() { val s: String = \"a\"; eat(s); }");
    assert_eq!(out.lints.len(), 1);
    let l = &out.lints[0];
    assert_eq!(l.severity, Severity::Lint);
    assert_eq!(l.code, "L0201");
    assert_eq!(l.what, "implicit clone of `s`; write `take s` to transfer ownership or `.clone()` to silence this warning");
    assert_eq!(l.why, "`eat` expects to take ownership of this value");
    assert_eq!(l.fix, "write `take s` to move, or `s .clone()` to copy explicitly");
    match &out.program.items[1] {
        Item::Func(f) => match &f.body[1] {
            Stmt::Call(c) => assert!(c.args[0].flags.implicit_clone),
            _ => panic!("expected a call"),
        },
        _ => panic!("expected main"),
    }
}

#[test]
fn uncopyable_value_needs_take() {
    let ds = errors("fn eat(take s: NoClone) {} fn main() { eat(s); }");
    assert_eq!(ds.len(), 1);
    assert_eq!(ds[0].code, "E0201");
    assert_eq!(ds[0].what, "`eat` needs `take` here — this value can't be copied");
    assert_eq!(
        ds[0].why,
        "parameter `1` takes ownership; passing `s` without `take` would have to copy it, but this type can't be copied"
    );
    assert_eq!(ds[0].fix, "write `take s` to transfer ownership");
}

#[test]
fn mutable_parameter_needs_mut() {
    let ds = errors("fn f(mut x: Int) {} fn main() { f(x); }");
    assert_eq!(ds[0].code, "E0202");
    assert_eq!(ds[0].what, "parameter `x` requires `mut` at the call site");
    assert_eq!(ds[0].fix, "write `mut x` when calling `f`");
    ok("fn f(mut x: Int) {} fn main() { f(mut x); }");
}

#[test]
fn take_on_reading_parameter_is_e0203() {
    let src = "fn f(x: Int) {} fn main() { f(take x); }";
    let ds = errors(src);
    assert_eq!(ds[0].code, "E0203");
    assert_eq!(ds[0].what, "`take` passed to a parameter that does not consume");
    let start = src.rfind("x)").unwrap();
    assert_eq!(ds[0].span, Some(Span::new(start, start + 1)));
}

#[test]
fn deref_needs_unsafe() {
    let ds = errors("fn main() { val x = *y; }");
    assert_eq!(ds[0].code, "E0208");
    assert_eq!(ds[0].what, "`*` isn't allowed here");
    ok("fn main() { unsafe { val x = *y; } }");
}

#[test]
fn shared_handle_in_loop_is_a_lint() {
    let out = ok("fn f(x: Shared[Int]) {} fn main() { val s: Shared[Int] = 1; loop { f(s); } }");
    assert_eq!(out.lints.len(), 1);
    assert_eq!(out.lints[0].code, "L0202");
    assert_eq!(out.lints[0].what, "auto-cloned `s` inside a loop; consider hoisting or caching");
}

#[test]
fn unlabeled_stored_references_are_e0207() {
    let ds = errors("struct S { ref a: String, ref b: String } fn main() {}");
    assert_eq!(ds[0].code, "E0207");
    ok("struct S { ref[x] a: String, ref[y] b: String } fn main() {}");
}

#[test]
fn duplicate_struct_and_const() {
    let ds = errors("struct S {} struct S {} const C = 1; const C = 2; fn main() {}");
    assert_eq!(ds.len(), 2);
    assert_eq!(ds[0].why, "every struct needs a unique name");
    assert_eq!(ds[1].why, "every const needs a unique name");
}

#[test]
fn consts_become_static_when_needed() {
    let out = ok("const A = 1; @static const B = 2; const M = AtomicU32; const X = BigMutexy; const N = 3; fn main() { print(A); }");
    let kinds: Vec<RustConstKind> = out
        .program
        .items
        .iter()
        .filter_map(|i| match i {
            Item::Const(c) => Some(c.rust_kind),
            _ => None,
        })
        .collect();
    assert_eq!(
        kinds,
        vec![
            RustConstKind::Static,
            RustConstKind::Static,
            RustConstKind::Static,
            RustConstKind::Static,
            RustConstKind::Const
        ]
    );
}

#[test]
fn trailing_semicolon_is_optional() {
    ok("fn main() { print(1) }");
    ok("fn main() { print(1); }");
}

#[test]
fn missing_semicolon_is_e0003() {
    let ds = errors("fn main() { print(\"hi\") print(\"x\"); }");
    assert_eq!(ds[0].code, "E0003");
    assert_eq!(ds[0].what, "expected `;` here, found the name `print`");
    assert_eq!(ds[0].why, "inside a function body, each call, binding, or `return` ends with `;`");
    assert_eq!(ds[0].fix, "add `;` after the call, binding, or `return`");
}

#[test]
fn unclosed_block_is_e0003() {
    let ds = errors("fn main() {");
    assert_eq!(ds[0].what, "expected `}` to close this block, found the end of the file");
}

#[test]
fn top_level_garbage_is_e0003() {
    let ds = errors("x");
    assert_eq!(ds[0].what, "expected `fn`, `struct`, or `const` here, found the name `x`");
    assert_eq!(ds[0].fix, "define a function (fn main() { ... }), struct, or const");
}

#[test]
fn unknown_attribute_is_e0003() {
    let ds = errors("@foo const X = 1; fn main() {}");
    assert_eq!(ds[0].what, "`@foo` isn't a known attribute on a const");
}

#[test]
fn expect_messages_name_what_was_wanted() {
    let ds = errors("fn main(x Int) {}");
    assert_eq!(ds[0].what, "expected `:` after a parameter name, found the name `Int`");
    assert_eq!(ds[0].fix, "use ``:`` after a parameter name");
    let ds = errors("fn 1() {}");
    assert_eq!(ds[0].what, "expected a name after `fn`, found a number");
    let ds = errors("fn main() { foo(1 2); }");
    assert_eq!(ds[0].what, "expected `,` between arguments, found a number");
    let ds = errors("fn main() { 1; }");
    assert_eq!(ds[0].what, "expected a call, a binding, or `return` here, found a number");
    assert_eq!(ds[0].fix, "e.g. print(\"hello\"); or val x = 1;");
    let ds = errors("fn main() { val x = ; }");
    assert_eq!(ds[0].what, "expected a value, found `;`");
    let ds = errors("fn f(x: 1) {}");
    assert_eq!(ds[0].what, "expected a type name, found a number");
}

#[test]
fn lexer_errors_come_first() {
    let ds = errors("fn main() { # } $");
    assert_eq!(ds.len(), 2);
    assert_eq!(ds[0].code, "E0001");
    assert_eq!(ds[1].code, "E0001");
}

#[test]
fn parser_builds_the_whole_tree() {
    let prog = parse_src(
        "pub fn f(mut a: List[Int], take b: Shared[String]) -> view Foo { var c: Bool = *a.b.c; return c; loop { g(mut a, b); } }",
    )
    .unwrap();
    assert_eq!(prog.items.len(), 1);
    let f = match &prog.items[0] {
        Item::Func(f) => f,
        _ => panic!("expected a function"),
    };
    assert!(f.is_pub);
    assert!(f.is_view_return);
    assert!(matches!(&f.return_type, Some(Type::Named(n)) if n == "Foo"));
    assert_eq!(f.params.len(), 2);
    assert_eq!(f.params[0].convention, AccessConvention::Mutate);
    assert!(matches!(&f.params[0].ty, Type::List(inner) if matches!(**inner, Type::Int)));
    assert_eq!(f.params[1].convention, AccessConvention::Move);
    assert!(matches!(&f.params[1].ty, Type::Shared(inner) if matches!(**inner, Type::String)));
    assert_eq!(f.body.len(), 3);
    match &f.body[0] {
        Stmt::Val(b) => {
            assert!(b.mutable);
            assert_eq!(b.name, "c");
            assert!(matches!(b.ty, Some(Type::Bool)));
            match &b.init {
                Expr::Deref(inner, _) => match &**inner {
                    Expr::Member(base, m, _) => {
                        assert_eq!(m, "c");
                        assert!(matches!(&**base, Expr::Member(_, m2, _) if m2 == "b"));
                    },
                    _ => panic!("expected a member"),
                },
                _ => panic!("expected a deref"),
            }
        },
        _ => panic!("expected a binding"),
    }
    assert!(matches!(&f.body[1], Stmt::Return(Expr::Ident(n, _), _) if n == "c"));
    match &f.body[2] {
        Stmt::Loop(inner, _) => match &inner[0] {
            Stmt::Call(c) => {
                assert_eq!(c.name, "g");
                assert_eq!(c.args.len(), 2);
                assert_eq!(c.args[0].convention, AccessConvention::Mutate);
                assert_eq!(c.args[1].convention, AccessConvention::Read);
            },
            _ => panic!("expected a call"),
        },
        _ => panic!("expected a loop"),
    }
}

#[test]
fn parser_reads_structs_and_consts() {
    let prog = parse_src("struct P { x: Int; ref[src] y: String, } @static @inline const K = \"k\";").unwrap();
    match &prog.items[0] {
        Item::Struct(s) => {
            assert_eq!(s.name, "P");
            assert_eq!(s.fields.len(), 2);
            assert!(!s.fields[0].is_stored_ref);
            assert!(s.fields[1].is_stored_ref);
            assert_eq!(s.fields[1].stored_ref_label.as_deref(), Some("src"));
        },
        _ => panic!("expected a struct"),
    }
    match &prog.items[1] {
        Item::Const(c) => {
            assert_eq!(c.name, "K");
            assert_eq!(c.attrs, vec![ConstAttr::ForceStatic, ConstAttr::ForceInline]);
            assert_eq!(c.rust_kind, RustConstKind::Const);
            assert!(matches!(&c.value, Expr::Str(s) if s == "k"));
        },
        _ => panic!("expected a const"),
    }
}

#[test]
fn check_reports_everything_at_once() {
    let mut prog = parse_src("fn print() {} fn f() {} fn f() {} fn g() { h(); print(); }").unwrap();
    let ds = check(&mut prog);
    let codes: Vec<&str> = ds.iter().map(|d| d.code).collect();
    assert_eq!(codes, vec!["E0106", "E0105", "E0101", "E0102", "E0103"]);
}

#[test]
fn edit_distance_values() {
    assert_eq!(edit_distance("kitten", "sitting"), 3);
    assert_eq!(edit_distance("", "abc"), 3);
    assert_eq!(edit_distance("print", "print"), 0);
    assert_eq!(edit_distance("pirnt", "print"), 2);
    assert_eq!(edit_distance("ab", "ba"), 2);
}

#[test]
fn mutable_parameter_needs_mut_for_any_argument() {
    let ds = errors("fn f(mut x: Int) {} fn main() { f(s.count); }");
    assert_eq!(ds.len(), 1);
    assert_eq!(ds[0].code, "E0202");
    assert_eq!(ds[0].what, "this argument requires `mut` at the call site");
    assert_eq!(ds[0].why, "`f` needs to change this value while it borrows it");
    assert_eq!(ds[0].fix, "write `mut` before this argument when calling `f`");
    assert_eq!(ds[0].span, Some(Span::new(34, 35)));
    let ds = errors("fn f(mut x: Int) {} fn main() { f(1); }");
    assert_eq!(ds[0].code, "E0202");
    assert!(compile("fn f(mut x: Int) {} fn main() { f(mut s.count); }").is_ok());
}

#[test]
fn mut_on_a_parameter_without_mut_is_e0204() {
    let ds = errors("fn f(x: Int) {} fn main() { f(mut x); }");
    assert_eq!(ds.len(), 1);
    assert_eq!(ds[0].code, "E0204");
    assert_eq!(ds[0].severity, Severity::Error);
    assert_eq!(ds[0].what, "`mut` passed to a parameter that does not change its value");
    assert_eq!(ds[0].why, "only `mut` parameters accept a value to change at the call site");
    assert_eq!(ds[0].fix, "remove `mut` or change the parameter to `mut`");
    assert_eq!(ds[0].span, Some(Span::new(34, 35)));
    let ds = errors("fn f(take x: Int) {} fn main() { f(mut x); }");
    assert_eq!(ds[0].code, "E0204");
}

#[test]
fn mut_does_not_start_a_binding() {
    let ds = errors("fn main() { mut x = 1; }");
    assert_eq!(ds.len(), 1);
    assert_eq!(ds[0].code, "E0003");
    assert_eq!(ds[0].what, "`mut` can't start a binding");
    assert_eq!(ds[0].why, "a binding that can change is spelled `var`");
    assert_eq!(ds[0].fix, "write `var` instead of `mut`, e.g. var x = 1;");
    assert_eq!(ds[0].span, Some(Span::new(12, 15)));
    assert!(compile("fn main() { var x = 1; }").is_ok());
}

#[test]
fn parser_messages_use_plain_words() {
    let banned = [
        "token", "expression", "statement", "identifier", "parse", "syntax error", "illegal", "invalid",
        "lifetime", "borrow checker",
    ];
    for src in [
        "fn main() { 5 }",
        "fn main() { print(1) print(2); }",
        "fn main() {",
        "x",
        "fn main( {",
        "fn main() { val = 1; }",
        "fn f(x 1) {}",
        "@foo const X = 1;",
        "struct S { a 1 }",
        "fn main() { mut x = 1; }",
    ] {
        let ds = errors(src);
        for d in &ds {
            assert_eq!(d.code, "E0003");
            assert!(d.span.is_some());
            for w in banned {
                let text = format!("{} {} {}", d.what, d.why, d.fix).to_lowercase();
                assert!(!text.contains(w), "{src}: {text}");
            }
        }
    }
    let ds = errors("fn main() { 5 }");
    assert_eq!(ds[0].span, Some(Span::new(12, 13)));
}

#[test]
fn types_and_values_can_be_cloned_and_compared() {
    let t = Type::List(Box::new(Type::Shared(Box::new(Type::Named("S".to_string())))));
    let u = t.clone();
    assert_eq!(t, u);
    assert_ne!(t, Type::List(Box::new(Type::Int)));
    let e = Expr::Member(Box::new(Expr::Deref(Box::new(Expr::Ident("x".to_string(), Span::new(1, 2))), Span::new(0, 1))), "f".to_string(), Span::new(3, 4));
    assert_eq!(format!("{:?}", e.clone()), format!("{e:?}"));
}

#[test]
fn binding_that_starts_with_mut_is_refused_wherever_it_stands() {
    let ds = errors("fn main() { loop { mut y: Int = 2; } }");
    assert_eq!(ds.len(), 1);
    assert_eq!(ds[0].what, "`mut` can't start a binding");
    assert_eq!(ds[0].span, Some(Span::new(19, 22)));
}
