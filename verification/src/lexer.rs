//! Lexer: source text -> tokens. Every token carries a byte span so that
//! diagnostics anywhere downstream can point at real source.
//!
//! The lexer recovers from mistakes: each bad character, unterminated piece
//! of text or oversized number yields one diagnostic and lexing goes on after
//! it, so one run reports every lexical problem of a file.
use crate::diag::{diags_view, spec_error, Diagnostic, Span, SpecDiag};
use crate::syntax;
use crate::text::{
    byte_offset, char_width_of, lemma_byte_offset_mono, lemma_byte_offset_step,
    lemma_width_sum_is_encoding_len, push_char, push_text, text_eq, width_sum, fits_in_memory,
};
use vstd::prelude::*;

verus! {

#[derive(Debug, Clone, PartialEq)]
pub enum TokKind {
    KwFn,
    KwPub,
    KwVal,
    KwVar,
    KwMutate,
    KwMove,
    KwView,
    KwStored,
    KwStruct,
    KwEnum,
    KwConst,
    KwReturn,
    KwLoop,
    KwUnsafe,
    Ident(String),
    Str(String),
    Int(i64),
    LParen,
    RParen,
    LBrace,
    RBrace,
    LBracket,
    RBracket,
    Colon,
    Comma,
    Arrow,
    Semi,
    Eq,
    Dot,
    Star,
    At,
    Eof,
}

#[derive(Debug, Clone)]
pub struct Token {
    pub kind: TokKind,
    pub span: Span,
}

/// The model of a token kind: names and text are character sequences.
pub enum SpecTokKind {
    KwFn,
    KwPub,
    KwVal,
    KwVar,
    KwMutate,
    KwMove,
    KwView,
    KwStored,
    KwStruct,
    KwEnum,
    KwConst,
    KwReturn,
    KwLoop,
    KwUnsafe,
    Ident(Seq<char>),
    Str(Seq<char>),
    Int(i64),
    LParen,
    RParen,
    LBrace,
    RBrace,
    LBracket,
    RBracket,
    Colon,
    Comma,
    Arrow,
    Semi,
    Eq,
    Dot,
    Star,
    At,
    Eof,
}

pub struct SpecToken {
    pub kind: SpecTokKind,
    pub span: Span,
}

pub open spec fn kind_view(k: TokKind) -> SpecTokKind {
    match k {
        TokKind::KwFn => SpecTokKind::KwFn,
        TokKind::KwPub => SpecTokKind::KwPub,
        TokKind::KwVal => SpecTokKind::KwVal,
        TokKind::KwVar => SpecTokKind::KwVar,
        TokKind::KwMutate => SpecTokKind::KwMutate,
        TokKind::KwMove => SpecTokKind::KwMove,
        TokKind::KwView => SpecTokKind::KwView,
        TokKind::KwStored => SpecTokKind::KwStored,
        TokKind::KwStruct => SpecTokKind::KwStruct,
        TokKind::KwEnum => SpecTokKind::KwEnum,
        TokKind::KwConst => SpecTokKind::KwConst,
        TokKind::KwReturn => SpecTokKind::KwReturn,
        TokKind::KwLoop => SpecTokKind::KwLoop,
        TokKind::KwUnsafe => SpecTokKind::KwUnsafe,
        TokKind::Ident(s) => SpecTokKind::Ident(s@),
        TokKind::Str(s) => SpecTokKind::Str(s@),
        TokKind::Int(n) => SpecTokKind::Int(n),
        TokKind::LParen => SpecTokKind::LParen,
        TokKind::RParen => SpecTokKind::RParen,
        TokKind::LBrace => SpecTokKind::LBrace,
        TokKind::RBrace => SpecTokKind::RBrace,
        TokKind::LBracket => SpecTokKind::LBracket,
        TokKind::RBracket => SpecTokKind::RBracket,
        TokKind::Colon => SpecTokKind::Colon,
        TokKind::Comma => SpecTokKind::Comma,
        TokKind::Arrow => SpecTokKind::Arrow,
        TokKind::Semi => SpecTokKind::Semi,
        TokKind::Eq => SpecTokKind::Eq,
        TokKind::Dot => SpecTokKind::Dot,
        TokKind::Star => SpecTokKind::Star,
        TokKind::At => SpecTokKind::At,
        TokKind::Eof => SpecTokKind::Eof,
    }
}

impl View for TokKind {
    type V = SpecTokKind;

    open spec fn view(&self) -> SpecTokKind {
        kind_view(*self)
    }
}

impl View for Token {
    type V = SpecToken;

    open spec fn view(&self) -> SpecToken {
        SpecToken { kind: self.kind@, span: self.span }
    }
}

pub open spec fn tokens_view(v: Seq<Token>) -> Seq<SpecToken> {
    v.map_values(|t: Token| t@)
}

pub open spec fn opt_kind_view(k: Option<TokKind>) -> Option<SpecTokKind> {
    match k {
        Some(k) => Some(k@),
        None => None,
    }
}

// ---------------------------------------------------------------------
// Describing tokens to people.
// ---------------------------------------------------------------------

pub open spec fn keyword_words(kw: Seq<char>) -> Seq<char> {
    "the keyword `"@ + kw + "`"@
}

/// How a token kind is named in messages.
pub open spec fn describe_spec(k: SpecTokKind) -> Seq<char> {
    match k {
        SpecTokKind::KwFn => keyword_words(syntax::KW_FN@),
        SpecTokKind::KwPub => keyword_words(syntax::KW_PUB@),
        SpecTokKind::KwVal => keyword_words(syntax::KW_VAL@),
        SpecTokKind::KwVar => keyword_words(syntax::KW_VAR@),
        SpecTokKind::KwMutate => keyword_words(syntax::KW_MUTATE@),
        SpecTokKind::KwMove => keyword_words(syntax::KW_MOVE@),
        SpecTokKind::KwView => keyword_words(syntax::KW_VIEW@),
        SpecTokKind::KwStored => keyword_words(syntax::KW_STORED@),
        SpecTokKind::KwStruct => keyword_words(syntax::KW_STRUCT@),
        SpecTokKind::KwEnum => keyword_words(syntax::KW_ENUM@),
        SpecTokKind::KwConst => keyword_words(syntax::KW_CONST@),
        SpecTokKind::KwReturn => keyword_words(syntax::KW_RETURN@),
        SpecTokKind::KwLoop => keyword_words(syntax::KW_LOOP@),
        SpecTokKind::KwUnsafe => keyword_words(syntax::KW_UNSAFE@),
        SpecTokKind::Ident(name) => "the name `"@ + name + "`"@,
        SpecTokKind::Str(_) => "a piece of quoted text"@,
        SpecTokKind::Int(_) => "a number"@,
        SpecTokKind::LParen => "`(`"@,
        SpecTokKind::RParen => "`)`"@,
        SpecTokKind::LBrace => "`{`"@,
        SpecTokKind::RBrace => "`}`"@,
        SpecTokKind::LBracket => "`[`"@,
        SpecTokKind::RBracket => "`]`"@,
        SpecTokKind::Colon => "`:`"@,
        SpecTokKind::Comma => "`,`"@,
        SpecTokKind::Arrow => "`->`"@,
        SpecTokKind::Semi => "`;`"@,
        SpecTokKind::Eq => "`=`"@,
        SpecTokKind::Dot => "`.`"@,
        SpecTokKind::Star => "`*`"@,
        SpecTokKind::At => "`@`"@,
        SpecTokKind::Eof => "the end of the file"@,
    }
}

fn keyword_text(kw: &str) -> (s: String)
    ensures
        s@ == keyword_words(kw@),
{
    let mut s = "the keyword `".to_string();
    push_text(&mut s, kw);
    push_text(&mut s, "`");
    s
}

/// A short, human description of a token, for error messages.
/// Never say "token" to a user; say what the thing is.
pub fn describe(kind: &TokKind) -> (s: String)
    ensures
        s@ == describe_spec(kind@),
{
    match kind {
        TokKind::KwFn => keyword_text(syntax::KW_FN),
        TokKind::KwPub => keyword_text(syntax::KW_PUB),
        TokKind::KwVal => keyword_text(syntax::KW_VAL),
        TokKind::KwVar => keyword_text(syntax::KW_VAR),
        TokKind::KwMutate => keyword_text(syntax::KW_MUTATE),
        TokKind::KwMove => keyword_text(syntax::KW_MOVE),
        TokKind::KwView => keyword_text(syntax::KW_VIEW),
        TokKind::KwStored => keyword_text(syntax::KW_STORED),
        TokKind::KwStruct => keyword_text(syntax::KW_STRUCT),
        TokKind::KwEnum => keyword_text(syntax::KW_ENUM),
        TokKind::KwConst => keyword_text(syntax::KW_CONST),
        TokKind::KwReturn => keyword_text(syntax::KW_RETURN),
        TokKind::KwLoop => keyword_text(syntax::KW_LOOP),
        TokKind::KwUnsafe => keyword_text(syntax::KW_UNSAFE),
        TokKind::Ident(name) => {
            let mut s = "the name `".to_string();
            push_text(&mut s, name.as_str());
            push_text(&mut s, "`");
            s
        },
        TokKind::Str(_) => "a piece of quoted text".to_string(),
        TokKind::Int(_) => "a number".to_string(),
        TokKind::LParen => "`(`".to_string(),
        TokKind::RParen => "`)`".to_string(),
        TokKind::LBrace => "`{`".to_string(),
        TokKind::RBrace => "`}`".to_string(),
        TokKind::LBracket => "`[`".to_string(),
        TokKind::RBracket => "`]`".to_string(),
        TokKind::Colon => "`:`".to_string(),
        TokKind::Comma => "`,`".to_string(),
        TokKind::Arrow => "`->`".to_string(),
        TokKind::Semi => "`;`".to_string(),
        TokKind::Eq => "`=`".to_string(),
        TokKind::Dot => "`.`".to_string(),
        TokKind::Star => "`*`".to_string(),
        TokKind::At => "`@`".to_string(),
        TokKind::Eof => "the end of the file".to_string(),
    }
}

/// The keyword spelled `name`, if it is one.
pub open spec fn keyword_spec(name: Seq<char>) -> Option<SpecTokKind> {
    if name == syntax::KW_FN@ {
        Some(SpecTokKind::KwFn)
    } else if name == syntax::KW_PUB@ {
        Some(SpecTokKind::KwPub)
    } else if name == syntax::KW_VAL@ {
        Some(SpecTokKind::KwVal)
    } else if name == syntax::KW_VAR@ {
        Some(SpecTokKind::KwVar)
    } else if name == syntax::KW_MUTATE@ {
        Some(SpecTokKind::KwMutate)
    } else if name == syntax::KW_MOVE@ {
        Some(SpecTokKind::KwMove)
    } else if name == syntax::KW_VIEW@ {
        Some(SpecTokKind::KwView)
    } else if name == syntax::KW_STORED@ {
        Some(SpecTokKind::KwStored)
    } else if name == syntax::KW_STRUCT@ {
        Some(SpecTokKind::KwStruct)
    } else if name == syntax::KW_ENUM@ {
        Some(SpecTokKind::KwEnum)
    } else if name == syntax::KW_CONST@ {
        Some(SpecTokKind::KwConst)
    } else if name == syntax::KW_RETURN@ {
        Some(SpecTokKind::KwReturn)
    } else if name == syntax::KW_LOOP@ {
        Some(SpecTokKind::KwLoop)
    } else if name == syntax::KW_UNSAFE@ {
        Some(SpecTokKind::KwUnsafe)
    } else {
        None
    }
}

fn keyword(name: &str) -> (k: Option<TokKind>)
    ensures
        opt_kind_view(k) == keyword_spec(name@),
{
    if text_eq(name, syntax::KW_FN) {
        Some(TokKind::KwFn)
    } else if text_eq(name, syntax::KW_PUB) {
        Some(TokKind::KwPub)
    } else if text_eq(name, syntax::KW_VAL) {
        Some(TokKind::KwVal)
    } else if text_eq(name, syntax::KW_VAR) {
        Some(TokKind::KwVar)
    } else if text_eq(name, syntax::KW_MUTATE) {
        Some(TokKind::KwMutate)
    } else if text_eq(name, syntax::KW_MOVE) {
        Some(TokKind::KwMove)
    } else if text_eq(name, syntax::KW_VIEW) {
        Some(TokKind::KwView)
    } else if text_eq(name, syntax::KW_STORED) {
        Some(TokKind::KwStored)
    } else if text_eq(name, syntax::KW_STRUCT) {
        Some(TokKind::KwStruct)
    } else if text_eq(name, syntax::KW_ENUM) {
        Some(TokKind::KwEnum)
    } else if text_eq(name, syntax::KW_CONST) {
        Some(TokKind::KwConst)
    } else if text_eq(name, syntax::KW_RETURN) {
        Some(TokKind::KwReturn)
    } else if text_eq(name, syntax::KW_LOOP) {
        Some(TokKind::KwLoop)
    } else if text_eq(name, syntax::KW_UNSAFE) {
        Some(TokKind::KwUnsafe)
    } else {
        None
    }
}

// ---------------------------------------------------------------------
// Character classes.
// ---------------------------------------------------------------------

/// Whether `c` has the Unicode White_Space property: the 25 code points
/// U+0009..U+000D, U+0020, U+0085, U+00A0, U+1680, U+2000..U+200A, U+2028,
/// U+2029, U+202F, U+205F and U+3000.
pub open spec fn unicode_whitespace(c: char) -> bool {
    ('\u{9}' <= c && c <= '\u{d}') || c == ' ' || c == '\u{85}' || c == '\u{a0}' || c == '\u{1680}'
        || ('\u{2000}' <= c && c <= '\u{200a}') || c == '\u{2028}' || c == '\u{2029}' || c == '\u{202f}'
        || c == '\u{205f}' || c == '\u{3000}'
}

/// Whether `c` has the Unicode Alphabetic property.
pub uninterp spec fn unicode_alphabetic(c: char) -> bool;

/// Whether `c` is Unicode alphabetic or numeric.
pub uninterp spec fn unicode_alphanumeric(c: char) -> bool;

/// An ASCII letter.
pub open spec fn ascii_letter(c: char) -> bool {
    ('a' <= c && c <= 'z') || ('A' <= c && c <= 'Z')
}

/// Whether `c` is a letter: among ASCII characters the letters `a`..`z` and
/// `A`..`Z`, beyond ASCII the Unicode Alphabetic property.
pub open spec fn letter(c: char) -> bool {
    if c <= '\u{7f}' {
        ascii_letter(c)
    } else {
        unicode_alphabetic(c)
    }
}

/// Whether `c` is a letter or a digit: among ASCII characters the letters
/// and `0`..`9`, beyond ASCII Unicode Alphabetic or numeric.
pub open spec fn letter_or_digit(c: char) -> bool {
    if c <= '\u{7f}' {
        ascii_letter(c) || ('0' <= c && c <= '9')
    } else {
        unicode_alphanumeric(c)
    }
}

/// Whether `c` is whitespace, as std's `char::is_whitespace` decides it.
fn is_whitespace(c: char) -> (b: bool)
    ensures
        b == unicode_whitespace(c),
{
    ('\u{9}' <= c && c <= '\u{d}') || c == ' ' || c == '\u{85}' || c == '\u{a0}' || c == '\u{1680}'
        || ('\u{2000}' <= c && c <= '\u{200a}') || c == '\u{2028}' || c == '\u{2029}' || c == '\u{202f}'
        || c == '\u{205f}' || c == '\u{3000}'
}

/// std `char::is_alphabetic`. The claim: its answer is a function of `c`
/// alone, named `unicode_alphabetic`, and among ASCII characters exactly the
/// letters `a`..`z` and `A`..`Z` are alphabetic; the Unicode tables for the
/// other characters are not restated.
#[verifier::external_body]
fn is_alphabetic(c: char) -> (b: bool)
    ensures
        b == unicode_alphabetic(c),
        c <= '\u{7f}' ==> (b <==> ('a' <= c && c <= 'z') || ('A' <= c && c <= 'Z')),
{
    c.is_alphabetic()
}

/// std `char::is_alphanumeric`. The claim: its answer is a function of `c`
/// alone, named `unicode_alphanumeric`; (as std documents it: alphabetic or
/// numeric) it holds of every alphabetic character; and among ASCII
/// characters exactly the letters and the digits `0`..`9` are alphanumeric.
/// The Unicode tables for the other characters are not restated.
#[verifier::external_body]
fn is_alphanumeric(c: char) -> (b: bool)
    ensures
        b == unicode_alphanumeric(c),
        unicode_alphabetic(c) ==> b,
        c <= '\u{7f}' ==> (b <==> ('a' <= c && c <= 'z') || ('A' <= c && c <= 'Z') || ('0' <= c && c <= '9')),
{
    c.is_alphanumeric()
}

/// One character of the source, with its byte offset and the classes the
/// lexer asks about.
#[derive(Debug, Clone, Copy)]
pub struct SourceChar {
    pub ch: char,
    pub start: usize,
    pub whitespace: bool,
    pub alphabetic: bool,
    pub alphanumeric: bool,
}

/// The classified `i`-th character of `s`.
pub open spec fn classify(s: Seq<char>, i: int) -> SourceChar {
    SourceChar {
        ch: s[i],
        start: byte_offset(s, i) as usize,
        whitespace: unicode_whitespace(s[i]),
        alphabetic: letter(s[i]),
        alphanumeric: letter_or_digit(s[i]),
    }
}

/// The first `n` classified characters of `s`.
pub open spec fn source_prefix(s: Seq<char>, n: nat) -> Seq<SourceChar>
    decreases n,
{
    if n == 0 {
        Seq::empty()
    } else {
        source_prefix(s, (n - 1) as nat).push(classify(s, n - 1))
    }
}

/// The classified characters of a source text.
pub open spec fn source_model(s: Seq<char>) -> Seq<SourceChar> {
    source_prefix(s, s.len())
}

pub proof fn lemma_source_prefix(s: Seq<char>, n: nat)
    ensures
        source_prefix(s, n).len() == n,
        forall|i: int| 0 <= i < n ==> #[trigger] source_prefix(s, n)[i] == classify(s, i),
    decreases n,
{
    if n > 0 {
        lemma_source_prefix(s, (n - 1) as nat);
    }
}

/// What the lexer needs of its input: an alphabetic character is
/// alphanumeric, as it is for every real character.
pub open spec fn wf_source(cs: Seq<SourceChar>) -> bool {
    forall|i: int| 0 <= i < cs.len() ==> #[trigger] cs[i].alphabetic ==> cs[i].alphanumeric
}

// ---------------------------------------------------------------------
// The lexing function, stated over classified characters.
// ---------------------------------------------------------------------

pub open spec fn char_at(cs: Seq<SourceChar>, i: int) -> char {
    if 0 <= i < cs.len() {
        cs[i].ch
    } else {
        '\0'
    }
}

pub open spec fn pos_at(cs: Seq<SourceChar>, end: usize, i: int) -> usize {
    if 0 <= i < cs.len() {
        cs[i].start
    } else {
        end
    }
}

/// The first index at or after `i` whose character fails `p`.
pub open spec fn skip_while(cs: Seq<SourceChar>, i: int, p: spec_fn(SourceChar) -> bool) -> int
    decreases cs.len() - i,
{
    if 0 <= i < cs.len() && p(cs[i]) {
        skip_while(cs, i + 1, p)
    } else {
        i
    }
}

pub open spec fn not_newline() -> spec_fn(SourceChar) -> bool {
    |c: SourceChar| c.ch != '\n'
}

pub open spec fn inside_text() -> spec_fn(SourceChar) -> bool {
    |c: SourceChar| c.ch != '"' && c.ch != '\n'
}

pub open spec fn is_digit(c: char) -> bool {
    '0' <= c && c <= '9'
}

pub open spec fn digit_class() -> spec_fn(SourceChar) -> bool {
    |c: SourceChar| is_digit(c.ch)
}

pub open spec fn word_class() -> spec_fn(SourceChar) -> bool {
    |c: SourceChar| c.alphanumeric || c.ch == '_'
}

/// The characters of `cs[i..j]`.
pub open spec fn text_of(cs: Seq<SourceChar>, i: int, j: int) -> Seq<char> {
    Seq::new((j - i) as nat, |k: int| cs[i + k].ch)
}

/// The value of the decimal digits `cs[i..j]`.
pub open spec fn digits_value(cs: Seq<SourceChar>, i: int, j: int) -> int
    decreases j - i,
{
    if j <= i {
        0
    } else {
        digits_value(cs, i, j - 1) * 10 + (cs[j - 1].ch as int - '0' as int)
    }
}

/// The token made of the single character `c`, if there is one.
pub open spec fn single_char_kind(c: char) -> Option<SpecTokKind> {
    if c == '(' {
        Some(SpecTokKind::LParen)
    } else if c == ')' {
        Some(SpecTokKind::RParen)
    } else if c == '{' {
        Some(SpecTokKind::LBrace)
    } else if c == '}' {
        Some(SpecTokKind::RBrace)
    } else if c == '[' {
        Some(SpecTokKind::LBracket)
    } else if c == ']' {
        Some(SpecTokKind::RBracket)
    } else if c == ':' {
        Some(SpecTokKind::Colon)
    } else if c == ',' {
        Some(SpecTokKind::Comma)
    } else if c == ';' {
        Some(SpecTokKind::Semi)
    } else if c == '=' {
        Some(SpecTokKind::Eq)
    } else if c == '.' {
        Some(SpecTokKind::Dot)
    } else if c == '*' {
        Some(SpecTokKind::Star)
    } else if c == '@' {
        Some(SpecTokKind::At)
    } else {
        None
    }
}

pub open spec fn unterminated_text(span: Span) -> SpecDiag {
    spec_error(
        "E0002"@,
        "this text never gets a closing quote"@,
        "a piece of text must start and end with a `\"` on the same line"@,
        "add a closing `\"` before the end of the line"@,
        Some(span),
    )
}

pub open spec fn number_too_big(span: Span) -> SpecDiag {
    spec_error(
        "E0007"@,
        "this number is too big"@,
        "numbers currently top out at 9223372036854775807 (a 64-bit integer)"@,
        "use a smaller number"@,
        Some(span),
    )
}

pub open spec fn unknown_char(c: char, span: Span) -> SpecDiag {
    spec_error(
        "E0001"@,
        "the character `"@.push(c) + "` doesn't mean anything here (yet)"@,
        "check the language reference for what's supported so far"@,
        "remove it, or use supported syntax"@,
        Some(span),
    )
}

/// One step of the lexer at index `i` (which is in range): where the next
/// step starts, and the token or diagnostic this step yields, if any.
pub open spec fn lex_step(cs: Seq<SourceChar>, end: usize, i: int) -> (
    int,
    Option<SpecToken>,
    Option<SpecDiag>,
) {
    let c = cs[i].ch;
    let start = pos_at(cs, end, i);
    if cs[i].whitespace {
        (i + 1, None, None)
    } else if c == '/' && char_at(cs, i + 1) == '/' {
        (skip_while(cs, i, not_newline()), None, None)
    } else if single_char_kind(c) is Some {
        (
            i + 1,
            Some(
                SpecToken {
                    kind: single_char_kind(c)->0,
                    span: Span { start, end: pos_at(cs, end, i + 1) },
                },
            ),
            None,
        )
    } else if c == '-' && char_at(cs, i + 1) == '>' {
        (
            i + 2,
            Some(SpecToken { kind: SpecTokKind::Arrow, span: Span { start, end: pos_at(cs, end, i + 2) } }),
            None,
        )
    } else if c == '"' {
        let j = skip_while(cs, i + 1, inside_text());
        if j < cs.len() && cs[j].ch == '"' {
            (
                j + 1,
                Some(
                    SpecToken {
                        kind: SpecTokKind::Str(text_of(cs, i + 1, j)),
                        span: Span { start, end: pos_at(cs, end, j + 1) },
                    },
                ),
                None,
            )
        } else {
            (j, None, Some(unterminated_text(Span { start, end: pos_at(cs, end, j) })))
        }
    } else if is_digit(c) {
        let j = skip_while(cs, i, digit_class());
        let span = Span { start, end: pos_at(cs, end, j) };
        let v = digits_value(cs, i, j);
        if v > i64::MAX {
            (j, None, Some(number_too_big(span)))
        } else {
            (j, Some(SpecToken { kind: SpecTokKind::Int(v as i64), span }), None)
        }
    } else if cs[i].alphabetic || c == '_' {
        let j = skip_while(cs, i, word_class());
        let name = text_of(cs, i, j);
        let kind = match keyword_spec(name) {
            Some(k) => k,
            None => SpecTokKind::Ident(name),
        };
        (j, Some(SpecToken { kind, span: Span { start, end: pos_at(cs, end, j) } }), None)
    } else {
        (i + 1, None, Some(unknown_char(c, Span { start, end: pos_at(cs, end, i + 1) })))
    }
}

pub open spec fn opt_seq<A>(o: Option<A>) -> Seq<A> {
    match o {
        Some(a) => seq![a],
        None => Seq::empty(),
    }
}

/// The tokens and diagnostics that lexing `cs` from index `i` yields. The
/// tokens always end with one end-of-file token at `end`.
pub open spec fn lex_from(cs: Seq<SourceChar>, end: usize, i: int) -> (Seq<SpecToken>, Seq<SpecDiag>)
    decreases cs.len() - i,
{
    if i < 0 || i >= cs.len() {
        (seq![SpecToken { kind: SpecTokKind::Eof, span: Span { start: end, end } }], Seq::empty())
    } else {
        let (j, t, d) = lex_step(cs, end, i);
        if i < j <= cs.len() {
            let rest = lex_from(cs, end, j);
            (opt_seq(t) + rest.0, opt_seq(d) + rest.1)
        } else {
            (seq![SpecToken { kind: SpecTokKind::Eof, span: Span { start: end, end } }], Seq::empty())
        }
    }
}

/// The result of lexing the classified characters `cs`, whose text ends at
/// byte `end`.
pub open spec fn lex_chars_spec(cs: Seq<SourceChar>, end: usize) -> (Seq<SpecToken>, Seq<SpecDiag>) {
    lex_from(cs, end, 0)
}

/// The result of lexing the text `s`.
pub open spec fn lex_spec(s: Seq<char>) -> (Seq<SpecToken>, Seq<SpecDiag>) {
    lex_chars_spec(source_model(s), width_sum(s) as usize)
}

// ---------------------------------------------------------------------
// Lemmas.
// ---------------------------------------------------------------------

pub proof fn lemma_skip_while_bounds(cs: Seq<SourceChar>, i: int, p: spec_fn(SourceChar) -> bool)
    requires
        0 <= i,
    ensures
        i <= skip_while(cs, i, p),
        i <= cs.len() ==> skip_while(cs, i, p) <= cs.len(),
        skip_while(cs, i, p) < cs.len() ==> !p(cs[skip_while(cs, i, p)]),
    decreases cs.len() - i,
{
    if 0 <= i < cs.len() && p(cs[i]) {
        lemma_skip_while_bounds(cs, i + 1, p);
    }
}

/// Every step moves forward, and no further than the end.
pub proof fn lemma_lex_step_advances(cs: Seq<SourceChar>, end: usize, i: int)
    requires
        wf_source(cs),
        0 <= i < cs.len(),
    ensures
        i < lex_step(cs, end, i).0 <= cs.len(),
{
    lemma_skip_while_bounds(cs, i, not_newline());
    lemma_skip_while_bounds(cs, i + 1, not_newline());
    lemma_skip_while_bounds(cs, i + 1, inside_text());
    lemma_skip_while_bounds(cs, i, digit_class());
    lemma_skip_while_bounds(cs, i + 1, digit_class());
    lemma_skip_while_bounds(cs, i, word_class());
    lemma_skip_while_bounds(cs, i + 1, word_class());
    assert(cs[i].alphabetic ==> cs[i].alphanumeric);
}

/// Lexing always ends in exactly one end-of-file token, at the end of the
/// text, and yields no other end-of-file token.
pub proof fn lemma_lex_from_ends_with_eof(cs: Seq<SourceChar>, end: usize, i: int)
    ensures
        lex_from(cs, end, i).0.len() > 0,
        lex_from(cs, end, i).0.last() == (SpecToken { kind: SpecTokKind::Eof, span: Span { start: end, end } }),
        forall|k: int|
            0 <= k < lex_from(cs, end, i).0.len() - 1 ==> !(#[trigger] lex_from(cs, end, i).0[k].kind is Eof),
    decreases cs.len() - i,
{
    if !(i < 0 || i >= cs.len()) {
        let (j, t, d) = lex_step(cs, end, i);
        if i < j <= cs.len() {
            lemma_lex_from_ends_with_eof(cs, end, j);
            let rest = lex_from(cs, end, j);
            match t {
                Some(tok) => {
                    assert(!(tok.kind is Eof));
                    assert forall|k: int| 0 <= k < (opt_seq(t) + rest.0).len() - 1 implies !(#[trigger] (opt_seq(t) + rest.0)[k].kind is Eof) by {
                        if k > 0 {
                            assert((opt_seq(t) + rest.0)[k] == rest.0[k - 1]);
                        }
                    }
                },
                None => {
                    assert(opt_seq(t) + rest.0 =~= rest.0);
                },
            }
        }
    }
}

proof fn lemma_push_concat<A>(a: Seq<A>, x: A, b: Seq<A>)
    ensures
        a.push(x) + b == a + (seq![x] + b),
{
    assert(a.push(x) + b =~= a + (seq![x] + b));
}

pub proof fn lemma_digits_value_nonneg(cs: Seq<SourceChar>, i: int, j: int)
    requires
        0 <= i <= j <= cs.len(),
        forall|k: int| i <= k < j ==> is_digit(#[trigger] cs[k].ch),
    ensures
        digits_value(cs, i, j) >= 0,
    decreases j - i,
{
    if j > i {
        lemma_digits_value_nonneg(cs, i, j - 1);
    }
}

// ---------------------------------------------------------------------
// The lexer.
// ---------------------------------------------------------------------

/// One step of the lexer at `i`; see `lex_step`.
fn lex_one(cs: &[SourceChar], end: usize, i: usize) -> (r: (usize, Option<Token>, Option<Diagnostic>))
    requires
        wf_source(cs@),
        i < cs@.len(),
    ensures
        r.0 == lex_step(cs@, end, i as int).0,
        match r.1 {
            Some(t) => lex_step(cs@, end, i as int).1 == Some(t@),
            None => lex_step(cs@, end, i as int).1 is None,
        },
        match r.2 {
            Some(d) => lex_step(cs@, end, i as int).2 == Some(d@),
            None => lex_step(cs@, end, i as int).2 is None,
        },
{
    let n = cs.len();
    let c = cs[i].ch;
    let start = cs[i].start;
    let next_pos = if i + 1 < n { cs[i + 1].start } else { end };
    let next_ch = if i + 1 < n { cs[i + 1].ch } else { '\0' };
    if cs[i].whitespace {
        return (i + 1, None, None);
    }
    if c == '/' && next_ch == '/' {
        let mut j = i;
        while j < n && cs[j].ch != '\n'
            invariant
                i <= j <= n,
                n == cs@.len(),
                skip_while(cs@, i as int, not_newline()) == skip_while(cs@, j as int, not_newline()),
            decreases n - j,
        {
            j += 1;
        }
        return (j, None, None);
    }
    let single = if c == '(' {
        Some(TokKind::LParen)
    } else if c == ')' {
        Some(TokKind::RParen)
    } else if c == '{' {
        Some(TokKind::LBrace)
    } else if c == '}' {
        Some(TokKind::RBrace)
    } else if c == '[' {
        Some(TokKind::LBracket)
    } else if c == ']' {
        Some(TokKind::RBracket)
    } else if c == ':' {
        Some(TokKind::Colon)
    } else if c == ',' {
        Some(TokKind::Comma)
    } else if c == ';' {
        Some(TokKind::Semi)
    } else if c == '=' {
        Some(TokKind::Eq)
    } else if c == '.' {
        Some(TokKind::Dot)
    } else if c == '*' {
        Some(TokKind::Star)
    } else if c == '@' {
        Some(TokKind::At)
    } else {
        None
    };
    if let Some(kind) = single {
        return (i + 1, Some(Token { kind, span: Span::new(start, next_pos) }), None);
    }
    if c == '-' && next_ch == '>' {
        let after = if i + 2 < n { cs[i + 2].start } else { end };
        return (i + 2, Some(Token { kind: TokKind::Arrow, span: Span::new(start, after) }), None);
    }
    if c == '"' {
        let mut text = String::new();
        let mut j = i + 1;
        while j < n && cs[j].ch != '"' && cs[j].ch != '\n'
            invariant
                i + 1 <= j <= n,
                n == cs@.len(),
                skip_while(cs@, i + 1, inside_text()) == skip_while(cs@, j as int, inside_text()),
                text@ == text_of(cs@, i + 1, j as int),
            decreases n - j,
        {
            push_char(&mut text, cs[j].ch);
            assert(text_of(cs@, i + 1, j + 1) =~= text_of(cs@, i + 1, j as int).push(cs@[j as int].ch));
            j += 1;
        }
        if j < n && cs[j].ch == '"' {
            let after = if j + 1 < n { cs[j + 1].start } else { end };
            return (j + 1, Some(Token { kind: TokKind::Str(text), span: Span::new(start, after) }), None);
        }
        let stop = if j < n { cs[j].start } else { end };
        let d = Diagnostic::error(
            "E0002",
            "this text never gets a closing quote".to_string(),
            "a piece of text must start and end with a `\"` on the same line".to_string(),
            "add a closing `\"` before the end of the line".to_string(),
            Some(Span::new(start, stop)),
        );
        return (j, None, Some(d));
    }
    if '0' <= c && c <= '9' {
        let mut v: i64 = 0;
        let mut overflow = false;
        let mut j = i;
        while j < n && '0' <= cs[j].ch && cs[j].ch <= '9'
            invariant
                i <= j <= n,
                n == cs@.len(),
                skip_while(cs@, i as int, digit_class()) == skip_while(cs@, j as int, digit_class()),
                forall|k: int| i <= k < j ==> is_digit(#[trigger] cs@[k].ch),
                !overflow ==> v == digits_value(cs@, i as int, j as int),
                overflow ==> digits_value(cs@, i as int, j as int) > i64::MAX,
            decreases n - j,
        {
            let d: i64 = (cs[j].ch as u32 - '0' as u32) as i64;
            proof {
                lemma_digits_value_nonneg(cs@, i as int, j as int);
            }
            match v.checked_mul(10) {
                Some(m) => match m.checked_add(d) {
                    Some(s) => {
                        v = s;
                    },
                    None => {
                        overflow = true;
                    },
                },
                None => {
                    overflow = true;
                },
            }
            j += 1;
        }
        let stop = if j < n { cs[j].start } else { end };
        let span = Span::new(start, stop);
        if overflow {
            let d = Diagnostic::error(
                "E0007",
                "this number is too big".to_string(),
                "numbers currently top out at 9223372036854775807 (a 64-bit integer)".to_string(),
                "use a smaller number".to_string(),
                Some(span),
            );
            return (j, None, Some(d));
        }
        return (j, Some(Token { kind: TokKind::Int(v), span }), None);
    }
    if cs[i].alphabetic || c == '_' {
        let mut name = String::new();
        let mut j = i;
        while j < n && (cs[j].alphanumeric || cs[j].ch == '_')
            invariant
                i <= j <= n,
                n == cs@.len(),
                skip_while(cs@, i as int, word_class()) == skip_while(cs@, j as int, word_class()),
                name@ == text_of(cs@, i as int, j as int),
            decreases n - j,
        {
            push_char(&mut name, cs[j].ch);
            assert(text_of(cs@, i as int, j + 1) =~= text_of(cs@, i as int, j as int).push(cs@[j as int].ch));
            j += 1;
        }
        let stop = if j < n { cs[j].start } else { end };
        let kind = match keyword(name.as_str()) {
            Some(k) => k,
            None => TokKind::Ident(name),
        };
        return (j, Some(Token { kind, span: Span::new(start, stop) }), None);
    }
    let mut what = "the character `".to_string();
    push_char(&mut what, c);
    push_text(&mut what, "` doesn't mean anything here (yet)");
    let d = Diagnostic::error(
        "E0001",
        what,
        "check the language reference for what's supported so far".to_string(),
        "remove it, or use supported syntax".to_string(),
        Some(Span::new(start, next_pos)),
    );
    (i + 1, None, Some(d))
}

/// Lexes already classified characters whose text ends at byte `end`.
pub fn lex_chars(cs: &[SourceChar], end: usize) -> (r: (Vec<Token>, Vec<Diagnostic>))
    requires
        wf_source(cs@),
    ensures
        (tokens_view(r.0@), diags_view(r.1@)) == lex_chars_spec(cs@, end),
{
    let n = cs.len();
    let mut toks: Vec<Token> = Vec::new();
    let mut diags: Vec<Diagnostic> = Vec::new();
    let mut i: usize = 0;
    while i < n
        invariant
            0 <= i <= n,
            n == cs@.len(),
            wf_source(cs@),
            tokens_view(toks@) + lex_from(cs@, end, i as int).0 == lex_from(cs@, end, 0).0,
            diags_view(diags@) + lex_from(cs@, end, i as int).1 == lex_from(cs@, end, 0).1,
        decreases n - i,
    {
        let (j, t, d) = lex_one(cs, end, i);
        proof {
            lemma_lex_step_advances(cs@, end, i as int);
        }
        let ghost old_toks = tokens_view(toks@);
        let ghost old_diags = diags_view(diags@);
        let ghost rest = lex_from(cs@, end, j as int);
        match t {
            Some(t) => {
                let ghost tv = t@;
                toks.push(t);
                proof {
                    assert(tokens_view(toks@) =~= old_toks.push(tv));
                    lemma_push_concat(old_toks, tv, rest.0);
                }
            },
            None => {
                assert(tokens_view(toks@) =~= old_toks);
                assert(opt_seq(lex_step(cs@, end, i as int).1) =~= Seq::<SpecToken>::empty());
                assert(Seq::<SpecToken>::empty() + rest.0 =~= rest.0);
            },
        }
        match d {
            Some(d) => {
                let ghost dv = d@;
                diags.push(d);
                proof {
                    assert(diags_view(diags@) =~= old_diags.push(dv));
                    lemma_push_concat(old_diags, dv, rest.1);
                }
            },
            None => {
                assert(diags_view(diags@) =~= old_diags);
                assert(opt_seq(lex_step(cs@, end, i as int).2) =~= Seq::<SpecDiag>::empty());
                assert(Seq::<SpecDiag>::empty() + rest.1 =~= rest.1);
            },
        }
        i = j;
    }
    let ghost before = tokens_view(toks@);
    toks.push(Token { kind: TokKind::Eof, span: Span::new(end, end) });
    assert(tokens_view(toks@) =~= before + lex_from(cs@, end, n as int).0);
    assert(diags_view(diags@) =~= diags_view(diags@) + lex_from(cs@, end, n as int).1);
    (toks, diags)
}

/// Classifies the characters of `src` and records where each one starts.
pub fn source_chars(src: &str) -> (r: (Vec<SourceChar>, usize))
    requires
        fits_in_memory(src@),
    ensures
        r.0@ == source_model(src@),
        r.1 == width_sum(src@),
        wf_source(r.0@),
{
    proof {
        lemma_width_sum_is_encoding_len(src@);
    }
    let mut cs: Vec<SourceChar> = Vec::new();
    let mut off: usize = 0;
    for c in it: src.chars()
        invariant
            it.seq() == src@,
            width_sum(src@) <= isize::MAX,
            0 <= it.index() <= src@.len(),
            cs@ == source_prefix(src@, it.index() as nat),
            wf_source(cs@),
            off == byte_offset(src@, it.index() as int),
    {
        let ghost k = it.index() as int;
        proof {
            lemma_byte_offset_step(src@, k);
            lemma_byte_offset_mono(src@, k + 1, src@.len() as int);
            assert(src@.take(src@.len() as int) =~= src@);
        }
        assert(c == src@[k]);
        let w = char_width_of(c);
        let sc = SourceChar {
            ch: c,
            start: off,
            whitespace: is_whitespace(c),
            alphabetic: is_alphabetic(c),
            alphanumeric: is_alphanumeric(c),
        };
        assert(byte_offset(src@, k) <= isize::MAX);
        cs.push(sc);
        off = off + w;
        assert(cs@ == source_prefix(src@, (k + 1) as nat));
    }
    assert(src@.take(src@.len() as int) =~= src@);
    (cs, off)
}

/// Lexes `src`: the tokens (always ending in one end-of-file token) and one
/// diagnostic for each lexical mistake, in source order.
pub fn lex(src: &str) -> (r: (Vec<Token>, Vec<Diagnostic>))
    requires
        fits_in_memory(src@),
    ensures
        (tokens_view(r.0@), diags_view(r.1@)) == lex_spec(src@),
{
    let (cs, end) = source_chars(src);
    lex_chars(cs.as_slice(), end)
}

} // verus!
