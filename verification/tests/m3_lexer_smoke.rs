use lex::lexer::{lex, TokKind};

#[test]
fn enum_is_keyword() {
    let (toks, diags) = lex("enum x { A; }");
    assert!(diags.is_empty(), "{diags:?}");
    assert!(matches!(toks[0].kind, TokKind::KwEnum), "{:?}", toks[0].kind);
}
