use lex::diag::Span;
use lex::lexer::{describe, lex, TokKind};

fn kinds(src: &str) -> Vec<TokKind> {
    let (toks, diags) = lex(src);
    assert!(diags.is_empty(), "{diags:?}");
    toks.into_iter().map(|t| t.kind).collect()
}

#[test]
fn lexes_a_hello_world() {
    let k = kinds("fn main() { print(\"hi\"); }");
    assert_eq!(
        k,
        vec![
            TokKind::KwFn,
            TokKind::Ident("main".to_string()),
            TokKind::LParen,
            TokKind::RParen,
            TokKind::LBrace,
            TokKind::Ident("print".to_string()),
            TokKind::LParen,
            TokKind::Str("hi".to_string()),
            TokKind::RParen,
            TokKind::Semi,
            TokKind::RBrace,
            TokKind::Eof,
        ]
    );
}

#[test]
fn keywords_are_recognized() {
    let k = kinds("pub val var mut take view ref struct enum const return loop unsafe");
    assert_eq!(
        k,
        vec![
            TokKind::KwPub,
            TokKind::KwVal,
            TokKind::KwVar,
            TokKind::KwMutate,
            TokKind::KwMove,
            TokKind::KwView,
            TokKind::KwStored,
            TokKind::KwStruct,
            TokKind::KwEnum,
            TokKind::KwConst,
            TokKind::KwReturn,
            TokKind::KwLoop,
            TokKind::KwUnsafe,
            TokKind::Eof,
        ]
    );
}

#[test]
fn punctuation_and_arrow() {
    let k = kinds("( ) { } [ ] : , -> ; = . * @");
    assert_eq!(
        k,
        vec![
            TokKind::LParen,
            TokKind::RParen,
            TokKind::LBrace,
            TokKind::RBrace,
            TokKind::LBracket,
            TokKind::RBracket,
            TokKind::Colon,
            TokKind::Comma,
            TokKind::Arrow,
            TokKind::Semi,
            TokKind::Eq,
            TokKind::Dot,
            TokKind::Star,
            TokKind::At,
            TokKind::Eof,
        ]
    );
}

#[test]
fn comments_are_skipped() {
    let k = kinds("// a comment (with \"stuff\")\nfn // more\n");
    assert_eq!(k, vec![TokKind::KwFn, TokKind::Eof]);
}

#[test]
fn spans_are_byte_offsets() {
    let (toks, diags) = lex("é x");
    assert!(diags.is_empty());
    assert_eq!(toks[0].kind, TokKind::Ident("é".to_string()));
    assert_eq!(toks[0].span, Span::new(0, 2));
    assert_eq!(toks[1].span, Span::new(3, 4));
    assert_eq!(toks[2].kind, TokKind::Eof);
    assert_eq!(toks[2].span, Span::new(4, 4));
}

#[test]
fn identifiers_take_underscores_and_digits() {
    let k = kinds("_tmp2 a_b");
    assert_eq!(
        k,
        vec![TokKind::Ident("_tmp2".to_string()), TokKind::Ident("a_b".to_string()), TokKind::Eof]
    );
}

#[test]
fn largest_number_is_accepted() {
    let k = kinds("9223372036854775807 007");
    assert_eq!(k, vec![TokKind::Int(9223372036854775807), TokKind::Int(7), TokKind::Eof]);
}

#[test]
fn too_big_number_is_e0007() {
    let (toks, diags) = lex("9223372036854775808");
    assert_eq!(diags.len(), 1);
    assert_eq!(diags[0].code, "E0007");
    assert_eq!(diags[0].what, "this number is too big");
    assert_eq!(diags[0].span, Some(Span::new(0, 19)));
    assert_eq!(toks.len(), 1);
    assert_eq!(toks[0].kind, TokKind::Eof);
}

#[test]
fn unknown_character_is_e0001() {
    let (_, diags) = lex("fn #");
    assert_eq!(diags.len(), 1);
    assert_eq!(diags[0].code, "E0001");
    assert_eq!(diags[0].what, "the character `#` doesn't mean anything here (yet)");
    assert_eq!(diags[0].fix, "remove it, or use supported syntax");
    assert_eq!(diags[0].span, Some(Span::new(3, 4)));
}

#[test]
fn lone_minus_is_e0001() {
    let (_, diags) = lex("-");
    assert_eq!(diags.len(), 1);
    assert_eq!(diags[0].code, "E0001");
}

#[test]
fn unterminated_text_is_e0002() {
    let (toks, diags) = lex("\"abc\nfn");
    assert_eq!(diags.len(), 1);
    assert_eq!(diags[0].code, "E0002");
    assert_eq!(diags[0].what, "this text never gets a closing quote");
    assert_eq!(diags[0].why, "a piece of text must start and end with a `\"` on the same line");
    assert_eq!(diags[0].fix, "add a closing `\"` before the end of the line");
    assert_eq!(diags[0].span, Some(Span::new(0, 4)));
    assert_eq!(toks[0].kind, TokKind::KwFn);
}

#[test]
fn lexer_reports_every_mistake() {
    let (toks, diags) = lex("# fn $");
    assert_eq!(diags.len(), 2);
    assert_eq!(diags[0].span, Some(Span::new(0, 1)));
    assert_eq!(diags[1].span, Some(Span::new(5, 6)));
    assert_eq!(toks.len(), 2);
    assert_eq!(toks[0].kind, TokKind::KwFn);
}

#[test]
fn describe_names_things_plainly() {
    assert_eq!(describe(&TokKind::KwFn), "the keyword `fn`");
    assert_eq!(describe(&TokKind::KwMove), "the keyword `take`");
    assert_eq!(describe(&TokKind::Ident("x".to_string())), "the name `x`");
    assert_eq!(describe(&TokKind::Str("x".to_string())), "a piece of quoted text");
    assert_eq!(describe(&TokKind::Int(3)), "a number");
    assert_eq!(describe(&TokKind::Arrow), "`->`");
    assert_eq!(describe(&TokKind::Eof), "the end of the file");
}

#[test]
fn empty_source_is_just_the_end() {
    let (toks, diags) = lex("");
    assert!(diags.is_empty());
    assert_eq!(toks.len(), 1);
    assert_eq!(toks[0].kind, TokKind::Eof);
    assert_eq!(toks[0].span, Span::new(0, 0));
}

#[test]
fn unicode_whitespace_separates_words() {
    let (toks, diags) = lex("fn\u{a0}main\u{3000}x\u{2009}y\u{85}z");
    assert!(diags.is_empty(), "{diags:?}");
    assert_eq!(toks.len(), 6);
    assert_eq!(toks[1].kind, TokKind::Ident("main".to_string()));
    assert_eq!(toks[1].span, Span::new(4, 8));
    assert_eq!(toks[2].kind, TokKind::Ident("x".to_string()));
    let (_, diags) = lex("a\u{200b}b");
    assert_eq!(diags.len(), 1);
    assert_eq!(diags[0].code, "E0001");
}
