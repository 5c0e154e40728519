//! Parser: tokens -> AST. Hand-written recursive descent.
//!
//! The contract of each parsing function is stated over the model of the
//! token sequence: `spec_*` functions below say, for a position, what is
//! parsed there and where parsing stops, or which diagnostic is reported.
use crate::ast::{
    items_view, lemma_stmts_view_push, args_view, fields_view, params_view, stmts_view, AccessConvention, Binding, Call, CallArg,
    CallArgFlags, ConstAttr, ConstDef, Expr, Field, Func, Item, Param, Program, RustConstKind,
    SpecBinding, SpecCall, SpecCallArg, SpecConstDef, SpecExpr, SpecField, SpecFunc, SpecItem,
    SpecParam, SpecProgram, SpecStmt, SpecStructDef, SpecType, Stmt, StructDef, Type,
};
use crate::diag::{spec_error, Diagnostic, Severity, Span, SpecDiag};
use crate::lexer::{describe, describe_spec, tokens_view, SpecTokKind, SpecToken, TokKind, Token};
use crate::syntax;
use crate::text::{push_text, text_eq};
use vstd::prelude::*;

verus! {

/// The result of parsing at a position: what was parsed and where parsing
/// goes on, or the diagnostic that stops it.
pub type PResult<T> = Result<(T, int), SpecDiag>;

/// A token sequence the parser accepts: it is not empty and ends with the
/// end-of-file token, as the lexer's output always does.
/// `r` parsed `v` and goes on at `p`.
pub open spec fn ok_at<T>(r: PResult<T>, v: T, p: int) -> bool {
    r == Ok::<(T, int), SpecDiag>((v, p))
}

/// `r` is the diagnostic `d`.
pub open spec fn err_is<T>(r: PResult<T>, d: SpecDiag) -> bool {
    r == Err::<(T, int), SpecDiag>(d)
}

/// Parsing the whole goes on as parsing the rest does, after `done`.
pub open spec fn cont<T>(whole: PResult<Seq<T>>, done: Seq<T>, rest: PResult<Seq<T>>) -> bool {
    match rest {
        Ok((r, pe)) => whole == Ok::<(Seq<T>, int), SpecDiag>((done + r, pe)),
        Err(d) => whole == Err::<(Seq<T>, int), SpecDiag>(d),
    }
}

/// One more piece `x` parsed in front of the rest.
pub open spec fn prepend<T>(x: T, rest: PResult<Seq<T>>) -> PResult<Seq<T>> {
    match rest {
        Ok((r, pe)) => Ok((seq![x] + r, pe)),
        Err(d) => Err(d),
    }
}

pub proof fn lemma_cont_push<T>(whole: PResult<Seq<T>>, done: Seq<T>, x: T, rest: PResult<Seq<T>>)
    requires
        cont(whole, done, prepend(x, rest)),
    ensures
        cont(whole, done.push(x), rest),
{
    match rest {
        Ok((r, pe)) => {
            assert(done + (seq![x] + r) =~= done.push(x) + r);
        },
        Err(d) => {},
    }
}

pub proof fn lemma_cont_last<T>(whole: PResult<Seq<T>>, done: Seq<T>, x: T, pe: int)
    requires
        cont(whole, done, Ok((seq![x], pe))),
    ensures
        whole == Ok::<(Seq<T>, int), SpecDiag>((done.push(x), pe)),
{
    assert(done + seq![x] =~= done.push(x));
}

pub open spec fn wf_tokens(ts: Seq<SpecToken>) -> bool {
    ts.len() > 0 && ts[ts.len() - 1].kind is Eof
}

pub open spec fn peek(ts: Seq<SpecToken>, p: int) -> SpecToken {
    ts[p]
}

/// Where the parser stands after consuming the token at `p`: it never moves
/// past the last token.
pub open spec fn bump_pos(ts: Seq<SpecToken>, p: int) -> int {
    if p < ts.len() - 1 {
        p + 1
    } else {
        p
    }
}

/// Which variant a token kind is, payload aside.
pub open spec fn variant_index(k: SpecTokKind) -> nat {
    match k {
        SpecTokKind::KwFn => 0,
        SpecTokKind::KwPub => 1,
        SpecTokKind::KwVal => 2,
        SpecTokKind::KwVar => 3,
        SpecTokKind::KwMutate => 4,
        SpecTokKind::KwMove => 5,
        SpecTokKind::KwView => 6,
        SpecTokKind::KwStored => 7,
        SpecTokKind::KwStruct => 8,
        SpecTokKind::KwEnum => 9,
        SpecTokKind::KwConst => 10,
        SpecTokKind::KwReturn => 11,
        SpecTokKind::KwLoop => 12,
        SpecTokKind::KwUnsafe => 13,
        SpecTokKind::Ident(_) => 14,
        SpecTokKind::Str(_) => 15,
        SpecTokKind::Int(_) => 16,
        SpecTokKind::LParen => 17,
        SpecTokKind::RParen => 18,
        SpecTokKind::LBrace => 19,
        SpecTokKind::RBrace => 20,
        SpecTokKind::LBracket => 21,
        SpecTokKind::RBracket => 22,
        SpecTokKind::Colon => 23,
        SpecTokKind::Comma => 24,
        SpecTokKind::Arrow => 25,
        SpecTokKind::Semi => 26,
        SpecTokKind::Eq => 27,
        SpecTokKind::Dot => 28,
        SpecTokKind::Star => 29,
        SpecTokKind::At => 30,
        SpecTokKind::Eof => 31,
    }
}

/// A diagnostic that no parse of a well-formed token sequence yields; it
/// stands where a parsing step would not move forward.
pub open spec fn stuck() -> SpecDiag {
    spec_error(Seq::empty(), Seq::empty(), Seq::empty(), Seq::empty(), None)
}

/// How every diagnostic of the parser reaches its caller: an E0003 error
/// that points at a place in the text.
pub open spec fn parse_error_shape(d: SpecDiag) -> bool {
    d.severity == Severity::Error && d.code == "E0003"@ && d.span is Some
}

pub open spec fn e0003(what: Seq<char>, why: Seq<char>, fix: Seq<char>, span: Span) -> SpecDiag {
    spec_error("E0003"@, what, why, fix, Some(span))
}

/// `expect_kw`: the token at `p` must be of the variant of `want`.
pub open spec fn spec_expect(ts: Seq<SpecToken>, p: int, want: SpecTokKind, where_: Seq<char>) -> PResult<()> {
    if variant_index(peek(ts, p).kind) == variant_index(want) {
        Ok(((), bump_pos(ts, p)))
    } else {
        Err(
            e0003(
                "expected "@ + describe_spec(want) + " "@ + where_ + ", found "@ + describe_spec(peek(ts, p).kind),
                "the structure here isn't what the compiler expected"@,
                "use `"@ + describe_spec(want) + "` "@ + where_,
                peek(ts, p).span,
            ),
        )
    }
}

/// `expect_ident`: the token at `p` must be a name.
pub open spec fn spec_expect_ident(ts: Seq<SpecToken>, p: int, where_: Seq<char>) -> PResult<(Seq<char>, Span)> {
    let t = peek(ts, p);
    match t.kind {
        SpecTokKind::Ident(name) => Ok(((name, t.span), bump_pos(ts, p))),
        _ => Err(
            e0003(
                "expected a name "@ + where_ + ", found "@ + describe_spec(t.kind),
                "names start with a letter or `_`"@,
                "e.g. `main`, `count`, `_tmp`"@,
                t.span,
            ),
        ),
    }
}

/// Whether `p2` is a position at or after `p`, inside the tokens.
pub open spec fn onward(ts: Seq<SpecToken>, p: int, p2: int) -> bool {
    p <= p2 < ts.len()
}

/// Whether `p2` is a position after `p`, inside the tokens.
pub open spec fn forward(ts: Seq<SpecToken>, p: int, p2: int) -> bool {
    p < p2 < ts.len()
}

pub open spec fn spec_type(ts: Seq<SpecToken>, p: int) -> PResult<(SpecType, Span)>
    decreases ts.len() - p, 1int,
{
    let start = peek(ts, p).span;
    match peek(ts, p).kind {
        SpecTokKind::Ident(name) => {
            let p1 = bump_pos(ts, p);
            if name == syntax::TYPE_INT@ {
                Ok(((SpecType::Int, start), p1))
            } else if name == syntax::TYPE_FLOAT@ {
                Ok(((SpecType::Float, start), p1))
            } else if name == syntax::TYPE_BOOL@ {
                Ok(((SpecType::Bool, start), p1))
            } else if name == syntax::TYPE_STRING@ {
                Ok(((SpecType::Str, start), p1))
            } else if name == syntax::TYPE_LIST@ || name == syntax::TYPE_SHARED@ {
                let is_list = name == syntax::TYPE_LIST@;
                let open_where = if is_list { "after `List`"@ } else { "after `Shared`"@ };
                let close_where = if is_list {
                    "after a list element type"@
                } else {
                    "after a shared element type"@
                };
                match spec_expect(ts, p1, SpecTokKind::LBracket, open_where) {
                    Err(d) => Err(d),
                    Ok((_, p2)) => if forward(ts, p, p2) {
                        match spec_type(ts, p2) {
                            Err(d) => Err(d),
                            Ok(((inner, _), p3)) => match spec_expect(ts, p3, SpecTokKind::RBracket, close_where) {
                                Err(d) => Err(d),
                                Ok((_, p4)) => {
                                    let ty = if is_list {
                                        SpecType::List(Box::new(inner))
                                    } else {
                                        SpecType::Shared(Box::new(inner))
                                    };
                                    Ok(((ty, start), p4))
                                },
                            },
                        }
                    } else {
                        Err(stuck())
                    },
                }
            } else {
                Ok(((SpecType::Named(name), start), p1))
            }
        },
        other => Err(
            e0003(
                "expected a type name, found "@ + describe_spec(other),
                "types look like `Int`, `String`, or `List[Int]`"@,
                "e.g. `x: Int` or `items: List[String]`"@,
                peek(ts, p).span,
            ),
        ),
    }
}

pub open spec fn spec_expr_primary(ts: Seq<SpecToken>, p: int) -> PResult<SpecExpr> {
    let t = peek(ts, p);
    match t.kind {
        SpecTokKind::Str(s) => Ok((SpecExpr::Str(s), bump_pos(ts, p))),
        SpecTokKind::Int(n) => Ok((SpecExpr::Int(n), bump_pos(ts, p))),
        SpecTokKind::Ident(name) => Ok((SpecExpr::Ident(name, t.span), bump_pos(ts, p))),
        other => Err(
            e0003(
                "expected a value, found "@ + describe_spec(other),
                "a value can be a name, a number, or quoted text"@,
                "e.g. `x`, `42`, or `\"hello\"`"@,
                t.span,
            ),
        ),
    }
}

/// The `.member` accesses that follow `base` from `p` on.
pub open spec fn spec_members(ts: Seq<SpecToken>, base: SpecExpr, p: int) -> PResult<SpecExpr>
    decreases ts.len() - p, 1int,
{
    if 0 <= p < ts.len() && peek(ts, p).kind is Dot {
        let p1 = bump_pos(ts, p);
        match spec_expect_ident(ts, p1, "after `.`"@) {
            Err(d) => Err(d),
            Ok(((member, span), p2)) => if forward(ts, p, p2) {
                spec_members(ts, SpecExpr::Member(Box::new(base), member, span), p2)
            } else {
                Err(stuck())
            },
        }
    } else {
        Ok((base, p))
    }
}

pub open spec fn spec_expr(ts: Seq<SpecToken>, p: int) -> PResult<SpecExpr>
    decreases ts.len() - p, 2int,
{
    if 0 <= p < ts.len() && peek(ts, p).kind is Star {
        let span = peek(ts, p).span;
        let p1 = bump_pos(ts, p);
        if forward(ts, p, p1) {
            match spec_expr(ts, p1) {
                Err(d) => Err(d),
                Ok((inner, p2)) => Ok((SpecExpr::Deref(Box::new(inner), span), p2)),
            }
        } else {
            Err(stuck())
        }
    } else if 0 <= p < ts.len() {
        match spec_expr_primary(ts, p) {
            Err(d) => Err(d),
            Ok((base, p1)) => if onward(ts, p, p1) {
                spec_members(ts, base, p1)
            } else {
                Err(stuck())
            },
        }
    } else {
        Err(stuck())
    }
}

/// The access keyword in front of a parameter or an argument, if any, and
/// where parsing goes on.
pub open spec fn spec_access_prefix(ts: Seq<SpecToken>, p: int) -> (AccessConvention, int) {
    match peek(ts, p).kind {
        SpecTokKind::KwMutate => (AccessConvention::Mutate, bump_pos(ts, p)),
        SpecTokKind::KwMove => (AccessConvention::Move, bump_pos(ts, p)),
        _ => (AccessConvention::Read, p),
    }
}

pub open spec fn spec_call_arg(ts: Seq<SpecToken>, p: int) -> PResult<SpecCallArg>
    decreases ts.len() - p, 3int,
{
    let (convention, p1) = spec_access_prefix(ts, p);
    if onward(ts, p, p1) {
        let span = peek(ts, p1).span;
        match spec_expr(ts, p1) {
            Err(d) => Err(d),
            Ok((expr, p2)) => Ok(
                (
                    SpecCallArg { convention, expr, span, implicit_clone: false, shared_auto_clone: false },
                    p2,
                ),
            ),
        }
    } else {
        Err(stuck())
    }
}

/// The arguments of a call from `p` on, up to (not including) the `)`.
pub open spec fn spec_args(ts: Seq<SpecToken>, p: int) -> PResult<Seq<SpecCallArg>>
    decreases ts.len() - p, 4int,
{
    if 0 <= p < ts.len() {
        match spec_call_arg(ts, p) {
            Err(d) => Err(d),
            Ok((arg, p1)) => if !onward(ts, p, p1) {
                Err(stuck())
            } else if peek(ts, p1).kind is RParen {
                Ok((seq![arg], p1))
            } else {
                match spec_expect(ts, p1, SpecTokKind::Comma, "between arguments"@) {
                    Err(d) => Err(d),
                    Ok((_, p2)) => if forward(ts, p, p2) {
                        match spec_args(ts, p2) {
                            Err(d) => Err(d),
                            Ok((rest, p3)) => Ok((seq![arg] + rest, p3)),
                        }
                    } else {
                        Err(stuck())
                    },
                }
            },
        }
    } else {
        Err(stuck())
    }
}

pub open spec fn spec_call(ts: Seq<SpecToken>, p: int) -> PResult<SpecCall>
    decreases ts.len() - p, 5int,
{
    match spec_expect_ident(ts, p, "to call a function"@) {
        Err(d) => Err(d),
        Ok(((name, name_span), p1)) => match spec_expect(
            ts,
            p1,
            SpecTokKind::LParen,
            "after `"@ + name + "` to call it"@,
        ) {
            Err(d) => Err(d),
            Ok((_, p2)) => {
                let args = if peek(ts, p2).kind is RParen {
                    Ok((Seq::<SpecCallArg>::empty(), p2))
                } else if onward(ts, p, p2) {
                    spec_args(ts, p2)
                } else {
                    Err(stuck())
                };
                match args {
                    Err(d) => Err(d),
                    Ok((args, p3)) => if 0 <= p3 < ts.len() {
                        match spec_expect(ts, p3, SpecTokKind::RParen, "to finish the call"@) {
                            Err(d) => Err(d),
                            Ok((_, p4)) => Ok((SpecCall { name, name_span, args }, p4)),
                        }
                    } else {
                        Err(stuck())
                    },
                }
            },
        },
    }
}

/// A binding that starts with `val` or `var`; one that starts with `mut`
/// is refused, since a binding that can change is spelled `var`.
pub open spec fn spec_binding(ts: Seq<SpecToken>, p: int) -> PResult<SpecBinding>
    decreases ts.len() - p, 5int,
{
    if peek(ts, p).kind is KwMutate {
        Err(mut_binding_error(peek(ts, p).span))
    } else {
        spec_binding_after_keyword(ts, p)
    }
}

/// A binding from its `val` or `var` keyword on.
pub open spec fn spec_binding_after_keyword(ts: Seq<SpecToken>, p: int) -> PResult<SpecBinding>
    decreases ts.len() - p, 4int,
{
    let mutable = match peek(ts, p).kind {
        SpecTokKind::KwVal => false,
        _ => true,
    };
    let p1 = bump_pos(ts, p);
    match spec_expect_ident(ts, p1, "after a binding keyword"@) {
        Err(d) => Err(d),
        Ok(((name, name_span), p2)) => {
            let ty = if peek(ts, p2).kind is Colon {
                if onward(ts, p, bump_pos(ts, p2)) {
                    match spec_type(ts, bump_pos(ts, p2)) {
                        Err(d) => Err(d),
                        Ok(((t, _), p3)) => Ok((Some(t), p3)),
                    }
                } else {
                    Err(stuck())
                }
            } else {
                Ok((None, p2))
            };
            match ty {
                Err(d) => Err(d),
                Ok((ty, p3)) => if 0 <= p3 < ts.len() {
                    match spec_expect(ts, p3, SpecTokKind::Eq, "in a binding"@) {
                        Err(d) => Err(d),
                        Ok((_, p4)) => if onward(ts, p, p4) {
                            match spec_expr(ts, p4) {
                                Err(d) => Err(d),
                                Ok((init, p5)) => Ok((SpecBinding { mutable, name, name_span, ty, init }, p5)),
                            }
                        } else {
                            Err(stuck())
                        },
                    }
                } else {
                    Err(stuck())
                },
            }
        },
    }
}

/// `finish_stmt`: a statement ends with `;`, or right before a `}`.
pub open spec fn spec_finish_stmt(ts: Seq<SpecToken>, p: int) -> PResult<()> {
    match peek(ts, p).kind {
        SpecTokKind::Semi => Ok(((), bump_pos(ts, p))),
        SpecTokKind::RBrace => Ok(((), p)),
        other => Err(
            e0003(
                "expected `"@ + syntax::STMT_SEP@ + "` here, found "@ + describe_spec(other),
                "inside a function body, each call, binding, or `return` ends with `"@ + syntax::STMT_SEP@ + "`"@,
                "add `"@ + syntax::STMT_SEP@ + "` after the call, binding, or `return`"@,
                peek(ts, p).span,
            ),
        ),
    }
}

/// A parsed piece followed by `finish_stmt`.
pub open spec fn then_finish<T>(ts: Seq<SpecToken>, r: PResult<T>) -> PResult<T> {
    match r {
        Err(d) => Err(d),
        Ok((v, p1)) => if 0 <= p1 < ts.len() {
            match spec_finish_stmt(ts, p1) {
                Err(d) => Err(d),
                Ok((_, p2)) => Ok((v, p2)),
            }
        } else {
            Err(stuck())
        },
    }
}

pub open spec fn stmt_error(other: SpecTokKind, span: Span) -> SpecDiag {
    e0003(
        "expected a call, a binding, or `return` here, found "@ + describe_spec(other),
        "inside a function body, write a call, binding, or `return`"@,
        "e.g. "@ + syntax::BUILTIN_PRINT@ + "(\"hello\"); or "@ + syntax::KW_VAL@ + " x = 1;"@,
        span,
    )
}

/// A binding may not start with `mut`: a binding that can change is
/// spelled `var`.
pub open spec fn mut_binding_error(span: Span) -> SpecDiag {
    e0003(
        "`"@ + syntax::KW_MUTATE@ + "` can't start a binding"@,
        "a binding that can change is spelled `"@ + syntax::KW_VAR@ + "`"@,
        "write `"@ + syntax::KW_VAR@ + "` instead of `"@ + syntax::KW_MUTATE@ + "`, e.g. "@ + syntax::KW_VAR@ + " x = 1;"@,
        span,
    )
}

pub open spec fn spec_stmt(ts: Seq<SpecToken>, p: int) -> PResult<SpecStmt>
    decreases ts.len() - p, 7int,
{
    let t = peek(ts, p);
    let p1 = bump_pos(ts, p);
    match t.kind {
        SpecTokKind::KwVal | SpecTokKind::KwVar | SpecTokKind::KwMutate => match then_finish(ts, spec_binding(ts, p)) {
            Err(d) => Err(d),
            Ok((b, p2)) => Ok((SpecStmt::Val(b), p2)),
        },
        SpecTokKind::KwReturn => if onward(ts, p, p1) {
            match then_finish(ts, spec_expr(ts, p1)) {
                Err(d) => Err(d),
                Ok((e, p2)) => Ok((SpecStmt::Return(e, t.span), p2)),
            }
        } else {
            Err(stuck())
        },
        SpecTokKind::KwLoop | SpecTokKind::KwUnsafe => {
            let is_loop = t.kind is KwLoop;
            let where_ = if is_loop { "after `loop`"@ } else { "after `unsafe`"@ };
            match spec_expect(ts, p1, SpecTokKind::LBrace, where_) {
                Err(d) => Err(d),
                Ok((_, p2)) => if forward(ts, p, p2) {
                    match spec_block(ts, p2) {
                        Err(d) => Err(d),
                        Ok((inner, p3)) => if is_loop {
                            Ok((SpecStmt::Loop(inner, t.span), p3))
                        } else {
                            Ok((SpecStmt::Unsafe(inner, t.span), p3))
                        },
                    }
                } else {
                    Err(stuck())
                },
            }
        },
        SpecTokKind::Ident(_) => match then_finish(ts, spec_call(ts, p)) {
            Err(d) => Err(d),
            Ok((c, p2)) => Ok((SpecStmt::Call(c), p2)),
        },
        other => Err(stmt_error(other, t.span)),
    }
}

/// The statements of a block from `p` on, through its closing `}`.
pub open spec fn spec_block(ts: Seq<SpecToken>, p: int) -> PResult<Seq<SpecStmt>>
    decreases ts.len() - p, 8int,
{
    if !(0 <= p < ts.len()) {
        Err(stuck())
    } else {
        match peek(ts, p).kind {
            SpecTokKind::RBrace => Ok((Seq::empty(), bump_pos(ts, p))),
            SpecTokKind::Eof => Err(
                e0003(
                    "expected `}` to close this block, found the end of the file"@,
                    "every `{` needs a matching `}`"@,
                    "add a closing `}`"@,
                    peek(ts, p).span,
                ),
            ),
            _ => match spec_stmt(ts, p) {
                Err(d) => Err(d),
                Ok((s, p1)) => if forward(ts, p, p1) {
                    match spec_block(ts, p1) {
                        Err(d) => Err(d),
                        Ok((rest, p2)) => Ok((seq![s] + rest, p2)),
                    }
                } else {
                    Err(stuck())
                },
            },
        }
    }
}

pub open spec fn spec_param(ts: Seq<SpecToken>, p: int) -> PResult<SpecParam> {
    let (convention, p1) = spec_access_prefix(ts, p);
    match spec_expect_ident(ts, p1, "for a parameter name"@) {
        Err(d) => Err(d),
        Ok(((name, name_span), p2)) => match spec_expect(ts, p2, SpecTokKind::Colon, "after a parameter name"@) {
            Err(d) => Err(d),
            Ok((_, p3)) => match spec_type(ts, p3) {
                Err(d) => Err(d),
                Ok(((ty, ty_span), p4)) => Ok((SpecParam { convention, name, name_span, ty, ty_span }, p4)),
            },
        },
    }
}

/// The parameters of a function from `p` on, up to (not including) the `)`.
pub open spec fn spec_params(ts: Seq<SpecToken>, p: int) -> PResult<Seq<SpecParam>>
    decreases ts.len() - p,
{
    if 0 <= p < ts.len() {
        match spec_param(ts, p) {
            Err(d) => Err(d),
            Ok((param, p1)) => if !(0 <= p1 < ts.len()) {
                Err(stuck())
            } else if peek(ts, p1).kind is RParen {
                Ok((seq![param], p1))
            } else {
                match spec_expect(ts, p1, SpecTokKind::Comma, "between parameters"@) {
                    Err(d) => Err(d),
                    Ok((_, p2)) => if forward(ts, p, p2) {
                        match spec_params(ts, p2) {
                            Err(d) => Err(d),
                            Ok((rest, p3)) => Ok((seq![param] + rest, p3)),
                        }
                    } else {
                        Err(stuck())
                    },
                }
            },
        }
    } else {
        Err(stuck())
    }
}

/// The parameter list of a function from `p` on, up to (not including) the `)`.
pub open spec fn spec_param_list(ts: Seq<SpecToken>, p: int) -> PResult<Seq<SpecParam>> {
    if peek(ts, p).kind is RParen {
        Ok((Seq::empty(), p))
    } else {
        spec_params(ts, p)
    }
}

/// The `-> [view] Type` part of a function, if present.
pub open spec fn spec_return_type(ts: Seq<SpecToken>, p: int) -> PResult<(Option<SpecType>, bool)> {
    if peek(ts, p).kind is Arrow {
        let p6 = bump_pos(ts, p);
        let is_view = peek(ts, p6).kind is KwView;
        let p7 = if is_view { bump_pos(ts, p6) } else { p6 };
        match spec_type(ts, p7) {
            Err(d) => Err(d),
            Ok(((ty, _), p8)) => Ok(((Some(ty), is_view), p8)),
        }
    } else {
        Ok(((None, false), p))
    }
}

pub open spec fn spec_func(ts: Seq<SpecToken>, p: int) -> PResult<SpecFunc>
    decreases ts.len() - p, 9int,
{
    let is_pub = peek(ts, p).kind is KwPub;
    let p0 = if is_pub { bump_pos(ts, p) } else { p };
    match spec_expect(ts, p0, SpecTokKind::KwFn, "to start a function definition"@) {
        Err(d) => Err(d),
        Ok((_, p1)) => match spec_expect_ident(ts, p1, "after `fn`"@) {
            Err(d) => Err(d),
            Ok(((name, name_span), p2)) => match spec_expect(ts, p2, SpecTokKind::LParen, "after the function name"@) {
                Err(d) => Err(d),
                Ok((_, p3)) => {
                    match spec_param_list(ts, p3) {
                        Err(d) => Err(d),
                        Ok((params, p4)) => if !(0 <= p4 < ts.len()) {
                            Err(stuck())
                        } else {
                            match spec_expect(ts, p4, SpecTokKind::RParen, "to close the parameter list"@) {
                                Err(d) => Err(d),
                                Ok((_, p5)) => {
                                    match spec_return_type(ts, p5) {
                                        Err(d) => Err(d),
                                        Ok(((return_type, is_view_return), p9)) => if !(0 <= p9 < ts.len()) {
                                            Err(stuck())
                                        } else {
                                            match spec_expect(ts, p9, SpecTokKind::LBrace, "to open the function body"@) {
                                                Err(d) => Err(d),
                                                Ok((_, p10)) => if onward(ts, p, p10) {
                                                    match spec_block(ts, p10) {
                                                        Err(d) => Err(d),
                                                        Ok((body, p11)) => Ok(
                                                            (
                                                                SpecFunc {
                                                                    is_pub,
                                                                    name,
                                                                    name_span,
                                                                    params,
                                                                    return_type,
                                                                    is_view_return,
                                                                    body,
                                                                },
                                                                p11,
                                                            ),
                                                        ),
                                                    }
                                                } else {
                                                    Err(stuck())
                                                },
                                            }
                                        },
                                    }
                                },
                            }
                        },
                    }
                },
            },
        },
    }
}

pub open spec fn spec_field(ts: Seq<SpecToken>, p: int) -> PResult<SpecField> {
    let is_stored_ref = peek(ts, p).kind is KwStored;
    let p1 = if is_stored_ref { bump_pos(ts, p) } else { p };
    let label = if is_stored_ref && peek(ts, p1).kind is LBracket {
        let p2 = bump_pos(ts, p1);
        match spec_expect_ident(ts, p2, "inside `ref[...]`"@) {
            Err(d) => Err(d),
            Ok(((label, _), p3)) => match spec_expect(ts, p3, SpecTokKind::RBracket, "after a ref label"@) {
                Err(d) => Err(d),
                Ok((_, p4)) => Ok((Some(label), p4)),
            },
        }
    } else {
        Ok((None, p1))
    };
    match label {
        Err(d) => Err(d),
        Ok((stored_ref_label, p5)) => match spec_expect_ident(ts, p5, "for a field name"@) {
            Err(d) => Err(d),
            Ok(((name, name_span), p6)) => match spec_expect(ts, p6, SpecTokKind::Colon, "after a field name"@) {
                Err(d) => Err(d),
                Ok((_, p7)) => match spec_type(ts, p7) {
                    Err(d) => Err(d),
                    Ok(((ty, ty_span), p8)) => Ok(
                        (SpecField { is_stored_ref, stored_ref_label, name, name_span, ty, ty_span }, p8),
                    ),
                },
            },
        },
    }
}

/// The fields of a struct from `p` on, up to (not including) the `}`.
pub open spec fn spec_fields(ts: Seq<SpecToken>, p: int) -> PResult<Seq<SpecField>>
    decreases ts.len() - p,
{
    if !(0 <= p < ts.len()) {
        Err(stuck())
    } else if peek(ts, p).kind is RBrace {
        Ok((Seq::empty(), p))
    } else {
        match spec_field(ts, p) {
            Err(d) => Err(d),
            Ok((field, p1)) => if !(0 <= p1 < ts.len()) {
                Err(stuck())
            } else {
                let p2 = if peek(ts, p1).kind is Comma || peek(ts, p1).kind is Semi {
                    bump_pos(ts, p1)
                } else {
                    p1
                };
                if forward(ts, p, p2) {
                    match spec_fields(ts, p2) {
                        Err(d) => Err(d),
                        Ok((rest, p3)) => Ok((seq![field] + rest, p3)),
                    }
                } else {
                    Err(stuck())
                }
            },
        }
    }
}

pub open spec fn spec_struct_def(ts: Seq<SpecToken>, p: int, nested: bool) -> PResult<SpecStructDef> {
    let is_pub = if nested { false } else { peek(ts, p).kind is KwPub };
    let p0 = if is_pub { bump_pos(ts, p) } else { p };
    match spec_expect(ts, p0, SpecTokKind::KwStruct, "to start a struct definition"@) {
        Err(d) => Err(d),
        Ok((_, p1)) => match spec_expect_ident(ts, p1, "after `struct`"@) {
            Err(d) => Err(d),
            Ok(((name, name_span), p2)) => match spec_expect(ts, p2, SpecTokKind::LBrace, "to open the struct body"@) {
                Err(d) => Err(d),
                Ok((_, p3)) => match spec_fields(ts, p3) {
                    Err(d) => Err(d),
                    Ok((fields, p4)) => Ok((SpecStructDef { is_pub, name, name_span, fields }, bump_pos(ts, p4))),
                },
            },
        },
    }
}

pub open spec fn unknown_attr(name: Seq<char>, span: Span) -> SpecDiag {
    e0003(
        "`@"@ + name + "` isn't a known attribute on a const"@,
        "only `@static` and `@inline` are supported on const declarations"@,
        "remove the attribute or use `@static` or `@inline`"@,
        span,
    )
}

/// The `@` attributes in front of a const from `p` on.
pub open spec fn spec_attrs(ts: Seq<SpecToken>, p: int) -> PResult<Seq<ConstAttr>>
    decreases ts.len() - p,
{
    if 0 <= p < ts.len() && peek(ts, p).kind is At {
        let p1 = bump_pos(ts, p);
        match spec_expect_ident(ts, p1, "after `@`"@) {
            Err(d) => Err(d),
            Ok(((name, _), p2)) => {
                let attr = if name == "static"@ {
                    Some(ConstAttr::ForceStatic)
                } else if name == "inline"@ {
                    Some(ConstAttr::ForceInline)
                } else {
                    None
                };
                match attr {
                    None => Err(unknown_attr(name, peek(ts, p2).span)),
                    Some(a) => if forward(ts, p, p2) {
                        match spec_attrs(ts, p2) {
                            Err(d) => Err(d),
                            Ok((rest, p3)) => Ok((seq![a] + rest, p3)),
                        }
                    } else {
                        Err(stuck())
                    },
                }
            },
        }
    } else {
        Ok((Seq::empty(), p))
    }
}

pub open spec fn spec_const_def(ts: Seq<SpecToken>, p: int) -> PResult<SpecConstDef> {
    match spec_attrs(ts, p) {
        Err(d) => Err(d),
        Ok((attrs, p1)) => if !(0 <= p1 < ts.len()) {
            Err(stuck())
        } else {
            match spec_expect(ts, p1, SpecTokKind::KwConst, "to start a const declaration"@) {
                Err(d) => Err(d),
                Ok((_, p2)) => match spec_expect_ident(ts, p2, "after `const`"@) {
                    Err(d) => Err(d),
                    Ok(((name, name_span), p3)) => match spec_expect(ts, p3, SpecTokKind::Eq, "after the const name"@) {
                        Err(d) => Err(d),
                        Ok((_, p4)) => match spec_expr(ts, p4) {
                            Err(d) => Err(d),
                            Ok((value, p5)) => if !(0 <= p5 < ts.len()) {
                                Err(stuck())
                            } else {
                                match spec_expect(ts, p5, SpecTokKind::Semi, "after a const value"@) {
                                    Err(d) => Err(d),
                                    Ok((_, p6)) => Ok(
                                        (
                                            SpecConstDef {
                                                name,
                                                name_span,
                                                value,
                                                attrs,
                                                rust_kind: RustConstKind::Const,
                                            },
                                            p6,
                                        ),
                                    ),
                                }
                            },
                        },
                    },
                },
            }
        },
    }
}

pub open spec fn top_level_error(other: SpecTokKind, span: Span) -> SpecDiag {
    e0003(
        "expected `"@ + syntax::KW_FN@ + "`, `"@ + syntax::KW_STRUCT@ + "`, or `"@ + syntax::KW_CONST@
            + "` here, found "@ + describe_spec(other),
        "at the top level of a file, only definitions can appear"@,
        "define a function ("@ + syntax::KW_FN@ + " main() { ... }), struct, or const"@,
        span,
    )
}

/// The item that starts at `p` and where parsing goes on, or nothing at the
/// end of the file.
pub open spec fn spec_item(ts: Seq<SpecToken>, p: int) -> Result<Option<(SpecItem, int)>, SpecDiag> {
    let t = peek(ts, p);
    match t.kind {
        SpecTokKind::Eof => Ok(None),
        SpecTokKind::KwFn | SpecTokKind::KwPub => match spec_func(ts, p) {
            Err(d) => Err(d),
            Ok((f, p1)) => Ok(Some((SpecItem::Func(f), p1))),
        },
        SpecTokKind::KwStruct => match spec_struct_def(ts, p, false) {
            Err(d) => Err(d),
            Ok((s, p1)) => Ok(Some((SpecItem::Struct(s), p1))),
        },
        SpecTokKind::KwConst | SpecTokKind::At => match spec_const_def(ts, p) {
            Err(d) => Err(d),
            Ok((c, p1)) => Ok(Some((SpecItem::Const(c), p1))),
        },
        other => Err(top_level_error(other, t.span)),
    }
}

/// The items of a file from `p` on, up to the end-of-file token.
pub open spec fn spec_items(ts: Seq<SpecToken>, p: int) -> Result<Seq<SpecItem>, SpecDiag>
    decreases ts.len() - p,
{
    if !(0 <= p < ts.len()) {
        Err(stuck())
    } else {
        match spec_item(ts, p) {
            Err(d) => Err(d),
            Ok(None) => Ok(Seq::empty()),
            Ok(Some((it, p1))) => if forward(ts, p, p1) {
                match spec_items(ts, p1) {
                    Err(d) => Err(d),
                    Ok(rest) => Ok(seq![it] + rest),
                }
            } else {
                Err(stuck())
            },
        }
    }
}

/// The program that the tokens `ts` spell, or the first diagnostic.
pub open spec fn parse_spec(ts: Seq<SpecToken>) -> Result<SpecProgram, SpecDiag> {
    match spec_items(ts, 0) {
        Err(d) => Err(d),
        Ok(items) => Ok(SpecProgram { items }),
    }
}

} // verus!

verus! {

// ---------------------------------------------------------------------
// The parser.
// ---------------------------------------------------------------------

/// A copy of a token kind with the same model.
fn copy_kind(k: &TokKind) -> (r: TokKind)
    ensures
        r@ == k@,
{
    match k {
        TokKind::KwFn => TokKind::KwFn,
        TokKind::KwPub => TokKind::KwPub,
        TokKind::KwVal => TokKind::KwVal,
        TokKind::KwVar => TokKind::KwVar,
        TokKind::KwMutate => TokKind::KwMutate,
        TokKind::KwMove => TokKind::KwMove,
        TokKind::KwView => TokKind::KwView,
        TokKind::KwStored => TokKind::KwStored,
        TokKind::KwStruct => TokKind::KwStruct,
        TokKind::KwEnum => TokKind::KwEnum,
        TokKind::KwConst => TokKind::KwConst,
        TokKind::KwReturn => TokKind::KwReturn,
        TokKind::KwLoop => TokKind::KwLoop,
        TokKind::KwUnsafe => TokKind::KwUnsafe,
        TokKind::Ident(s) => TokKind::Ident(s.clone()),
        TokKind::Str(s) => TokKind::Str(s.clone()),
        TokKind::Int(n) => TokKind::Int(*n),
        TokKind::LParen => TokKind::LParen,
        TokKind::RParen => TokKind::RParen,
        TokKind::LBrace => TokKind::LBrace,
        TokKind::RBrace => TokKind::RBrace,
        TokKind::LBracket => TokKind::LBracket,
        TokKind::RBracket => TokKind::RBracket,
        TokKind::Colon => TokKind::Colon,
        TokKind::Comma => TokKind::Comma,
        TokKind::Arrow => TokKind::Arrow,
        TokKind::Semi => TokKind::Semi,
        TokKind::Eq => TokKind::Eq,
        TokKind::Dot => TokKind::Dot,
        TokKind::Star => TokKind::Star,
        TokKind::At => TokKind::At,
        TokKind::Eof => TokKind::Eof,
    }
}

/// Which variant a token kind is, payload aside.
fn variant_of(k: &TokKind) -> (r: u8)
    ensures
        r == variant_index(k@),
{
    match k {
        TokKind::KwFn => 0,
        TokKind::KwPub => 1,
        TokKind::KwVal => 2,
        TokKind::KwVar => 3,
        TokKind::KwMutate => 4,
        TokKind::KwMove => 5,
        TokKind::KwView => 6,
        TokKind::KwStored => 7,
        TokKind::KwStruct => 8,
        TokKind::KwEnum => 9,
        TokKind::KwConst => 10,
        TokKind::KwReturn => 11,
        TokKind::KwLoop => 12,
        TokKind::KwUnsafe => 13,
        TokKind::Ident(_) => 14,
        TokKind::Str(_) => 15,
        TokKind::Int(_) => 16,
        TokKind::LParen => 17,
        TokKind::RParen => 18,
        TokKind::LBrace => 19,
        TokKind::RBrace => 20,
        TokKind::LBracket => 21,
        TokKind::RBracket => 22,
        TokKind::Colon => 23,
        TokKind::Comma => 24,
        TokKind::Arrow => 25,
        TokKind::Semi => 26,
        TokKind::Eq => 27,
        TokKind::Dot => 28,
        TokKind::Star => 29,
        TokKind::At => 30,
        TokKind::Eof => 31,
    }
}

fn error3(what: String, why: &str, fix: String, span: Span) -> (d: Diagnostic)
    ensures
        d@ == e0003(what@, why@, fix@, span),
{
    Diagnostic::error("E0003", what, why.to_string(), fix, Some(span))
}

struct Parser<'a> {
    toks: &'a [Token],
    pos: usize,
}

impl<'a> Parser<'a> {
    spec fn ts(&self) -> Seq<SpecToken> {
        tokens_view(self.toks@)
    }

    spec fn wf(&self) -> bool {
        wf_tokens(self.ts()) && self.pos < self.toks@.len()
    }

    fn peek(&self) -> (t: &Token)
        requires
            self.wf(),
        ensures
            t@ == peek(self.ts(), self.pos as int),
    {
        &self.toks[self.pos]
    }

    fn bump(&mut self) -> (t: Token)
        requires
            old(self).wf(),
        ensures
            final(self).wf(),
            final(self).toks == old(self).toks,
            t@ == peek(old(self).ts(), old(self).pos as int),
            final(self).pos == bump_pos(old(self).ts(), old(self).pos as int),
    {
        let cur = self.peek();
        let t = Token { kind: copy_kind(&cur.kind), span: cur.span };
        if self.pos < self.toks.len() - 1 {
            self.pos += 1;
        }
        t
    }

    fn expect_kw(&mut self, want: TokKind, where_: &str) -> (r: Result<(), Diagnostic>)
        requires
            old(self).wf(),
        ensures
            final(self).wf(),
            final(self).toks == old(self).toks,
            old(self).pos <= final(self).pos,
            match r {
                Ok(_) => ok_at(spec_expect(old(self).ts(), old(self).pos as int, want@, where_@), (), final(self).pos as int),
                Err(d) => err_is(spec_expect(old(self).ts(), old(self).pos as int, want@, where_@), d@) && parse_error_shape(d@),
            },
    {
        if variant_of(&self.peek().kind) == variant_of(&want) {
            self.bump();
            Ok(())
        } else {
            let wanted = describe(&want);
            let found = describe(&self.peek().kind);
            let mut what = "expected ".to_string();
            push_text(&mut what, wanted.as_str());
            push_text(&mut what, " ");
            push_text(&mut what, where_);
            push_text(&mut what, ", found ");
            push_text(&mut what, found.as_str());
            let mut fix = "use `".to_string();
            push_text(&mut fix, wanted.as_str());
            push_text(&mut fix, "` ");
            push_text(&mut fix, where_);
            Err(error3(what, "the structure here isn't what the compiler expected", fix, self.peek().span))
        }
    }

    fn expect(&mut self, want: TokKind, where_: &str) -> (r: Result<(), Diagnostic>)
        requires
            old(self).wf(),
        ensures
            final(self).wf(),
            final(self).toks == old(self).toks,
            old(self).pos <= final(self).pos,
            match r {
                Ok(_) => ok_at(spec_expect(old(self).ts(), old(self).pos as int, want@, where_@), (), final(self).pos as int),
                Err(d) => err_is(spec_expect(old(self).ts(), old(self).pos as int, want@, where_@), d@) && parse_error_shape(d@),
            },
    {
        self.expect_kw(want, where_)
    }

    fn expect_ident(&mut self, where_: &str) -> (r: Result<(String, Span), Diagnostic>)
        requires
            old(self).wf(),
        ensures
            final(self).wf(),
            final(self).toks == old(self).toks,
            old(self).pos <= final(self).pos,
            match r {
                Ok((name, span)) => ok_at(spec_expect_ident(old(self).ts(), old(self).pos as int, where_@), (name@, span), final(self).pos as int),
                Err(d) => err_is(spec_expect_ident(old(self).ts(), old(self).pos as int, where_@), d@) && parse_error_shape(d@),
            },
    {
        let t = self.bump();
        match t.kind {
            TokKind::Ident(name) => Ok((name, t.span)),
            kind => {
                let found = describe(&kind);
                let mut what = "expected a name ".to_string();
                push_text(&mut what, where_);
                push_text(&mut what, ", found ");
                push_text(&mut what, found.as_str());
                Err(error3(what, "names start with a letter or `_`", "e.g. `main`, `count`, `_tmp`".to_string(), t.span))
            },
        }
    }

    fn type_(&mut self) -> (r: Result<(Type, Span), Diagnostic>)
        requires
            old(self).wf(),
        ensures
            final(self).wf(),
            final(self).toks == old(self).toks,
            old(self).pos <= final(self).pos,
            r is Ok ==> old(self).pos < final(self).pos,
            match r {
                Ok((ty, sp)) => ok_at(spec_type(old(self).ts(), old(self).pos as int), (ty@, sp), final(self).pos as int),
                Err(d) => err_is(spec_type(old(self).ts(), old(self).pos as int), d@) && parse_error_shape(d@),
            },
        decreases old(self).toks@.len() - old(self).pos,
    {
        let start = self.peek().span;
        let k = copy_kind(&self.peek().kind);
        match k {
            TokKind::Ident(name) => {
                self.bump();
                if text_eq(name.as_str(), syntax::TYPE_INT) {
                    Ok((Type::Int, start))
                } else if text_eq(name.as_str(), syntax::TYPE_FLOAT) {
                    Ok((Type::Float, start))
                } else if text_eq(name.as_str(), syntax::TYPE_BOOL) {
                    Ok((Type::Bool, start))
                } else if text_eq(name.as_str(), syntax::TYPE_STRING) {
                    Ok((Type::String, start))
                } else if text_eq(name.as_str(), syntax::TYPE_LIST) || text_eq(name.as_str(), syntax::TYPE_SHARED) {
                    let is_list = text_eq(name.as_str(), syntax::TYPE_LIST);
                    let opened = if is_list {
                        self.expect(TokKind::LBracket, "after `List`")
                    } else {
                        self.expect(TokKind::LBracket, "after `Shared`")
                    };
                    if let Err(d) = opened {
                        return Err(d);
                    }
                    let inner = match self.type_() {
                        Ok((t, _)) => t,
                        Err(d) => return Err(d),
                    };
                    let closed = if is_list {
                        self.expect(TokKind::RBracket, "after a list element type")
                    } else {
                        self.expect(TokKind::RBracket, "after a shared element type")
                    };
                    if let Err(d) = closed {
                        return Err(d);
                    }
                    if is_list {
                        Ok((Type::List(Box::new(inner)), start))
                    } else {
                        Ok((Type::Shared(Box::new(inner)), start))
                    }
                } else {
                    Ok((Type::Named(name), start))
                }
            },
            other => {
                let mut what = "expected a type name, found ".to_string();
                let found = describe(&other);
                push_text(&mut what, found.as_str());
                Err(
                    error3(
                        what,
                        "types look like `Int`, `String`, or `List[Int]`",
                        "e.g. `x: Int` or `items: List[String]`".to_string(),
                        self.peek().span,
                    ),
                )
            },
        }
    }

    fn expr_primary(&mut self) -> (r: Result<Expr, Diagnostic>)
        requires
            old(self).wf(),
        ensures
            final(self).wf(),
            final(self).toks == old(self).toks,
            old(self).pos <= final(self).pos,
            r is Ok ==> old(self).pos < final(self).pos,
            match r {
                Ok(e) => ok_at(spec_expr_primary(old(self).ts(), old(self).pos as int), e@, final(self).pos as int),
                Err(d) => err_is(spec_expr_primary(old(self).ts(), old(self).pos as int), d@) && parse_error_shape(d@),
            },
    {
        let k = copy_kind(&self.peek().kind);
        match k {
            TokKind::Str(s) => {
                self.bump();
                Ok(Expr::Str(s))
            },
            TokKind::Int(n) => {
                self.bump();
                Ok(Expr::Int(n))
            },
            TokKind::Ident(name) => {
                let span = self.bump().span;
                Ok(Expr::Ident(name, span))
            },
            other => {
                let mut what = "expected a value, found ".to_string();
                let found = describe(&other);
                push_text(&mut what, found.as_str());
                Err(
                    error3(
                        what,
                        "a value can be a name, a number, or quoted text",
                        "e.g. `x`, `42`, or `\"hello\"`".to_string(),
                        self.peek().span,
                    ),
                )
            },
        }
    }

    fn expr(&mut self) -> (r: Result<Expr, Diagnostic>)
        requires
            old(self).wf(),
        ensures
            final(self).wf(),
            final(self).toks == old(self).toks,
            old(self).pos <= final(self).pos,
            r is Ok ==> old(self).pos < final(self).pos,
            match r {
                Ok(e) => ok_at(spec_expr(old(self).ts(), old(self).pos as int), e@, final(self).pos as int),
                Err(d) => err_is(spec_expr(old(self).ts(), old(self).pos as int), d@) && parse_error_shape(d@),
            },
        decreases old(self).toks@.len() - old(self).pos,
    {
        if variant_of(&self.peek().kind) == 29 {
            let span = self.bump().span;
            let inner = match self.expr() {
                Ok(e) => e,
                Err(d) => return Err(d),
            };
            return Ok(Expr::Deref(Box::new(inner), span));
        }
        let mut expr = match self.expr_primary() {
            Ok(e) => e,
            Err(d) => return Err(d),
        };
        let ghost p1 = self.pos as int;
        while variant_of(&self.peek().kind) == 28
            invariant
                self.wf(),
                self.toks == old(self).toks,
                old(self).pos < p1 <= self.pos,
                spec_expr(self.ts(), old(self).pos as int) == spec_members(self.ts(), expr@, self.pos as int),
            decreases self.toks@.len() - self.pos,
        {
            let ghost q = self.pos as int;
            assert(peek(self.ts(), q).kind is Dot);
            self.bump();
            let (member, span) = match self.expect_ident("after `.`") {
                Ok(m) => m,
                Err(d) => {
                    assert(spec_members(self.ts(), expr@, q) == Err::<(SpecExpr, int), SpecDiag>(d@));
                    return Err(d);
                },
            };
            expr = Expr::Member(Box::new(expr), member, span);
        }
        Ok(expr)
    }

    fn parse_access_prefix(&mut self) -> (r: Result<AccessConvention, Diagnostic>)
        requires
            old(self).wf(),
        ensures
            final(self).wf(),
            final(self).toks == old(self).toks,
            old(self).pos <= final(self).pos,
            match r {
                Ok(c) => spec_access_prefix(old(self).ts(), old(self).pos as int) == (c, final(self).pos as int),
                Err(_) => false,
            },
    {
        let v = variant_of(&self.peek().kind);
        if v == 4 {
            self.bump();
            Ok(AccessConvention::Mutate)
        } else if v == 5 {
            self.bump();
            Ok(AccessConvention::Move)
        } else {
            Ok(AccessConvention::Read)
        }
    }

    fn call_arg(&mut self) -> (r: Result<CallArg, Diagnostic>)
        requires
            old(self).wf(),
        ensures
            final(self).wf(),
            final(self).toks == old(self).toks,
            old(self).pos <= final(self).pos,
            r is Ok ==> old(self).pos < final(self).pos,
            match r {
                Ok(a) => ok_at(spec_call_arg(old(self).ts(), old(self).pos as int), a@, final(self).pos as int),
                Err(d) => err_is(spec_call_arg(old(self).ts(), old(self).pos as int), d@) && parse_error_shape(d@),
            },
    {
        let convention = match self.parse_access_prefix() {
            Ok(c) => c,
            Err(d) => return Err(d),
        };
        let span = self.peek().span;
        let expr = match self.expr() {
            Ok(e) => e,
            Err(d) => return Err(d),
        };
        Ok(
            CallArg {
                convention,
                expr,
                span,
                flags: CallArgFlags { implicit_clone: false, shared_auto_clone: false },
            },
        )
    }

    fn call(&mut self) -> (r: Result<Call, Diagnostic>)
        requires
            old(self).wf(),
        ensures
            final(self).wf(),
            final(self).toks == old(self).toks,
            old(self).pos <= final(self).pos,
            r is Ok ==> old(self).pos < final(self).pos,
            match r {
                Ok(c) => ok_at(spec_call(old(self).ts(), old(self).pos as int), c@, final(self).pos as int),
                Err(d) => err_is(spec_call(old(self).ts(), old(self).pos as int), d@) && parse_error_shape(d@),
            },
    {
        let ghost ts = self.ts();
        let ghost p0 = self.pos as int;
        let (name, name_span) = match self.expect_ident("to call a function") {
            Ok(n) => n,
            Err(d) => return Err(d),
        };
        let mut where_ = "after `".to_string();
        push_text(&mut where_, name.as_str());
        push_text(&mut where_, "` to call it");
        let ghost p1 = self.pos as int;
        if let Err(d) = self.expect(TokKind::LParen, where_.as_str()) {
            return Err(d);
        }
        let ghost p2 = self.pos as int;
        let mut args: Vec<CallArg> = Vec::new();
        if variant_of(&self.peek().kind) != 18 {
            loop
                invariant_except_break
                    self.wf(),
                    self.toks == old(self).toks,
                    p2 <= self.pos,
                    ts == self.ts(),
                    p0 == old(self).pos,
                    p0 < p2,
                    !(peek(ts, p2).kind is RParen),
                    spec_expect_ident(ts, p0, "to call a function"@) == Ok::<((Seq<char>, Span), int), SpecDiag>(((name@, name_span), p1)),
                    spec_expect(ts, p1, SpecTokKind::LParen, "after `"@ + name@ + "` to call it"@) == Ok::<((), int), SpecDiag>(((), p2)),
                    cont(spec_args(ts, p2), args_view(args@), spec_args(ts, self.pos as int)),
                ensures
                    self.wf(),
                    self.toks == old(self).toks,
                    p2 < self.pos,
                    ts == self.ts(),
                    spec_args(ts, p2) == Ok::<(Seq<SpecCallArg>, int), SpecDiag>((args_view(args@), self.pos as int)),
                decreases self.toks@.len() - self.pos,
            {
                let ghost q = self.pos as int;
                let arg = match self.call_arg() {
                    Ok(a) => a,
                    Err(d) => return Err(d),
                };
                let ghost av = arg@;
                let ghost done = args_view(args@);
                args.push(arg);
                assert(args_view(args@) =~= done.push(av));
                if variant_of(&self.peek().kind) == 18 {
                    proof {
                        lemma_cont_last(spec_args(ts, p2), done, av, self.pos as int);
                    }
                    break;
                }
                if let Err(d) = self.expect(TokKind::Comma, "between arguments") {
                    return Err(d);
                }
                proof {
                    lemma_cont_push(spec_args(ts, p2), done, av, spec_args(ts, self.pos as int));
                }
            }
        } else {
            assert(args_view(args@) =~= Seq::<SpecCallArg>::empty());
        }
        if let Err(d) = self.expect(TokKind::RParen, "to finish the call") {
            return Err(d);
        }
        Ok(Call { name, name_span, args })
    }

    fn binding(&mut self) -> (r: Result<Binding, Diagnostic>)
        requires
            old(self).wf(),
            peek(old(self).ts(), old(self).pos as int).kind is KwVal
                || peek(old(self).ts(), old(self).pos as int).kind is KwVar
                || peek(old(self).ts(), old(self).pos as int).kind is KwMutate,
        ensures
            final(self).wf(),
            final(self).toks == old(self).toks,
            old(self).pos <= final(self).pos,
            r is Ok ==> old(self).pos < final(self).pos,
            match r {
                Ok(b) => ok_at(spec_binding(old(self).ts(), old(self).pos as int), b@, final(self).pos as int),
                Err(d) => err_is(spec_binding(old(self).ts(), old(self).pos as int), d@) && parse_error_shape(d@),
            },
            peek(old(self).ts(), old(self).pos as int).kind is KwMutate ==> r is Err
                && r->Err_0@ == mut_binding_error(peek(old(self).ts(), old(self).pos as int).span),
    {
        if variant_of(&self.peek().kind) == 4 {
            let mut what = "`".to_string();
            push_text(&mut what, syntax::KW_MUTATE);
            push_text(&mut what, "` can't start a binding");
            let mut why = "a binding that can change is spelled `".to_string();
            push_text(&mut why, syntax::KW_VAR);
            push_text(&mut why, "`");
            let mut fix = "write `".to_string();
            push_text(&mut fix, syntax::KW_VAR);
            push_text(&mut fix, "` instead of `");
            push_text(&mut fix, syntax::KW_MUTATE);
            push_text(&mut fix, "`, e.g. ");
            push_text(&mut fix, syntax::KW_VAR);
            push_text(&mut fix, " x = 1;");
            let span = self.peek().span;
            return Err(Diagnostic::error("E0003", what, why, fix, Some(span)));
        }
        let mutable = variant_of(&self.peek().kind) != 2;
        self.bump();
        let (name, name_span) = match self.expect_ident("after a binding keyword") {
            Ok(n) => n,
            Err(d) => return Err(d),
        };
        let ty = if variant_of(&self.peek().kind) == 23 {
            self.bump();
            match self.type_() {
                Ok((t, _)) => Some(t),
                Err(d) => return Err(d),
            }
        } else {
            None
        };
        if let Err(d) = self.expect(TokKind::Eq, "in a binding") {
            return Err(d);
        }
        let init = match self.expr() {
            Ok(e) => e,
            Err(d) => return Err(d),
        };
        Ok(Binding { mutable, name, name_span, ty, init })
    }

    fn finish_stmt(&mut self) -> (r: Result<(), Diagnostic>)
        requires
            old(self).wf(),
        ensures
            final(self).wf(),
            final(self).toks == old(self).toks,
            old(self).pos <= final(self).pos,
            match r {
                Ok(_) => ok_at(spec_finish_stmt(old(self).ts(), old(self).pos as int), (), final(self).pos as int),
                Err(d) => err_is(spec_finish_stmt(old(self).ts(), old(self).pos as int), d@) && parse_error_shape(d@),
            },
    {
        let v = variant_of(&self.peek().kind);
        if v == 26 {
            self.bump();
            Ok(())
        } else if v == 20 {
            Ok(())
        } else {
            let found = describe(&self.peek().kind);
            let mut what = "expected `".to_string();
            push_text(&mut what, syntax::STMT_SEP);
            push_text(&mut what, "` here, found ");
            push_text(&mut what, found.as_str());
            let mut why = "inside a function body, each call, binding, or `return` ends with `".to_string();
            push_text(&mut why, syntax::STMT_SEP);
            push_text(&mut why, "`");
            let mut fix = "add `".to_string();
            push_text(&mut fix, syntax::STMT_SEP);
            push_text(&mut fix, "` after the call, binding, or `return`");
            Err(Diagnostic::error("E0003", what, why, fix, Some(self.peek().span)))
        }
    }

    fn stmt(&mut self) -> (r: Result<Stmt, Diagnostic>)
        requires
            old(self).wf(),
        ensures
            final(self).wf(),
            final(self).toks == old(self).toks,
            old(self).pos <= final(self).pos,
            r is Ok ==> old(self).pos < final(self).pos,
            match r {
                Ok(s) => ok_at(spec_stmt(old(self).ts(), old(self).pos as int), s@, final(self).pos as int),
                Err(d) => err_is(spec_stmt(old(self).ts(), old(self).pos as int), d@) && parse_error_shape(d@),
            },
        decreases old(self).toks@.len() - old(self).pos, 7int,
    {
        let v = variant_of(&self.peek().kind);
        if v == 2 || v == 3 || v == 4 {
            let b = match self.binding() {
                Ok(b) => b,
                Err(d) => return Err(d),
            };
            if let Err(d) = self.finish_stmt() {
                return Err(d);
            }
            Ok(Stmt::Val(b))
        } else if v == 11 {
            let span = self.bump().span;
            let e = match self.expr() {
                Ok(e) => e,
                Err(d) => return Err(d),
            };
            if let Err(d) = self.finish_stmt() {
                return Err(d);
            }
            Ok(Stmt::Return(e, span))
        } else if v == 12 || v == 13 {
            let span = self.bump().span;
            let opened = if v == 12 {
                self.expect(TokKind::LBrace, "after `loop`")
            } else {
                self.expect(TokKind::LBrace, "after `unsafe`")
            };
            if let Err(d) = opened {
                return Err(d);
            }
            let inner = match self.block_stmts() {
                Ok(b) => b,
                Err(d) => return Err(d),
            };
            if v == 12 {
                Ok(Stmt::Loop(inner, span))
            } else {
                Ok(Stmt::Unsafe(inner, span))
            }
        } else if v == 14 {
            let c = match self.call() {
                Ok(c) => c,
                Err(d) => return Err(d),
            };
            if let Err(d) = self.finish_stmt() {
                return Err(d);
            }
            Ok(Stmt::Call(c))
        } else {
            let found = describe(&self.peek().kind);
            let mut what = "expected a call, a binding, or `return` here, found ".to_string();
            push_text(&mut what, found.as_str());
            let mut fix = "e.g. ".to_string();
            push_text(&mut fix, syntax::BUILTIN_PRINT);
            push_text(&mut fix, "(\"hello\"); or ");
            push_text(&mut fix, syntax::KW_VAL);
            push_text(&mut fix, " x = 1;");
            Err(error3(what, "inside a function body, write a call, binding, or `return`", fix, self.peek().span))
        }
    }

    fn block_stmts(&mut self) -> (r: Result<Vec<Stmt>, Diagnostic>)
        requires
            old(self).wf(),
        ensures
            final(self).wf(),
            final(self).toks == old(self).toks,
            old(self).pos <= final(self).pos,
            r is Ok ==> old(self).pos < final(self).pos,
            match r {
                Ok(b) => ok_at(spec_block(old(self).ts(), old(self).pos as int), stmts_view(b@), final(self).pos as int),
                Err(d) => err_is(spec_block(old(self).ts(), old(self).pos as int), d@) && parse_error_shape(d@),
            },
        decreases old(self).toks@.len() - old(self).pos, 8int,
    {
        let ghost ts = self.ts();
        let ghost p0 = self.pos as int;
        let mut body: Vec<Stmt> = Vec::new();
        loop
            invariant
                self.wf(),
                self.toks == old(self).toks,
                p0 <= self.pos,
                ts == self.ts(),
                p0 == old(self).pos,
                cont(spec_block(ts, p0), stmts_view(body@), spec_block(ts, self.pos as int)),
            decreases self.toks@.len() - self.pos,
        {
            let v = variant_of(&self.peek().kind);
            if v == 20 {
                self.bump();
                assert(stmts_view(body@) + Seq::<SpecStmt>::empty() =~= stmts_view(body@));
                return Ok(body);
            } else if v == 31 {
                return Err(
                    error3(
                        "expected `}` to close this block, found the end of the file".to_string(),
                        "every `{` needs a matching `}`",
                        "add a closing `}`".to_string(),
                        self.peek().span,
                    ),
                );
            }
            let ghost q = self.pos as int;
            let s = match self.stmt() {
                Ok(s) => s,
                Err(d) => return Err(d),
            };
            let ghost sv = s@;
            let ghost done = stmts_view(body@);
            proof {
                lemma_stmts_view_push(body@, s);
            }
            body.push(s);
            proof {
                lemma_cont_push(spec_block(ts, p0), done, sv, spec_block(ts, self.pos as int));
            }
        }
    }

    fn param(&mut self) -> (r: Result<Param, Diagnostic>)
        requires
            old(self).wf(),
        ensures
            final(self).wf(),
            final(self).toks == old(self).toks,
            old(self).pos <= final(self).pos,
            r is Ok ==> old(self).pos < final(self).pos,
            match r {
                Ok(p) => ok_at(spec_param(old(self).ts(), old(self).pos as int), p@, final(self).pos as int),
                Err(d) => err_is(spec_param(old(self).ts(), old(self).pos as int), d@) && parse_error_shape(d@),
            },
    {
        let convention = match self.parse_access_prefix() {
            Ok(c) => c,
            Err(d) => return Err(d),
        };
        let (name, name_span) = match self.expect_ident("for a parameter name") {
            Ok(n) => n,
            Err(d) => return Err(d),
        };
        if let Err(d) = self.expect(TokKind::Colon, "after a parameter name") {
            return Err(d);
        }
        let (ty, ty_span) = match self.type_() {
            Ok(t) => t,
            Err(d) => return Err(d),
        };
        Ok(Param { convention, name, name_span, ty, ty_span })
    }

    fn param_list(&mut self) -> (r: Result<Vec<Param>, Diagnostic>)
        requires
            old(self).wf(),
        ensures
            final(self).wf(),
            final(self).toks == old(self).toks,
            old(self).pos <= final(self).pos,
            match r {
                Ok(ps) => ok_at(spec_param_list(old(self).ts(), old(self).pos as int), params_view(ps@), final(self).pos as int),
                Err(d) => err_is(spec_param_list(old(self).ts(), old(self).pos as int), d@) && parse_error_shape(d@),
            },
    {
        let ghost ts = self.ts();
        let ghost p3 = self.pos as int;
        let mut params: Vec<Param> = Vec::new();
        if variant_of(&self.peek().kind) == 18 {
            assert(params_view(params@) =~= Seq::<SpecParam>::empty());
            return Ok(params);
        }
        loop
            invariant
                self.wf(),
                self.toks == old(self).toks,
                p3 <= self.pos,
                p3 == old(self).pos,
                ts == self.ts(),
                !(peek(ts, p3).kind is RParen),
                cont(spec_params(ts, p3), params_view(params@), spec_params(ts, self.pos as int)),
            decreases self.toks@.len() - self.pos,
        {
            let prm = match self.param() {
                Ok(x) => x,
                Err(d) => return Err(d),
            };
            let ghost pv = prm@;
            let ghost done = params_view(params@);
            params.push(prm);
            assert(params_view(params@) =~= done.push(pv));
            if variant_of(&self.peek().kind) == 18 {
                proof {
                    lemma_cont_last(spec_params(ts, p3), done, pv, self.pos as int);
                }
                return Ok(params);
            }
            if let Err(d) = self.expect(TokKind::Comma, "between parameters") {
                return Err(d);
            }
            proof {
                lemma_cont_push(spec_params(ts, p3), done, pv, spec_params(ts, self.pos as int));
            }
        }
    }

    fn return_type(&mut self) -> (r: Result<(Option<Type>, bool), Diagnostic>)
        requires
            old(self).wf(),
        ensures
            final(self).wf(),
            final(self).toks == old(self).toks,
            old(self).pos <= final(self).pos,
            match r {
                Ok((t, v)) => ok_at(spec_return_type(old(self).ts(), old(self).pos as int), (crate::ast::opt_type_view(t), v), final(self).pos as int),
                Err(d) => err_is(spec_return_type(old(self).ts(), old(self).pos as int), d@) && parse_error_shape(d@),
            },
    {
        if variant_of(&self.peek().kind) == 25 {
            self.bump();
            let mut is_view_return = false;
            if variant_of(&self.peek().kind) == 6 {
                is_view_return = true;
                self.bump();
            }
            let (ty, _) = match self.type_() {
                Ok(t) => t,
                Err(d) => return Err(d),
            };
            Ok((Some(ty), is_view_return))
        } else {
            Ok((None, false))
        }
    }

    fn func(&mut self) -> (r: Result<Func, Diagnostic>)
        requires
            old(self).wf(),
        ensures
            final(self).wf(),
            final(self).toks == old(self).toks,
            old(self).pos <= final(self).pos,
            r is Ok ==> old(self).pos < final(self).pos,
            match r {
                Ok(f) => ok_at(spec_func(old(self).ts(), old(self).pos as int), f@, final(self).pos as int),
                Err(d) => err_is(spec_func(old(self).ts(), old(self).pos as int), d@) && parse_error_shape(d@),
            },
    {
        let is_pub = variant_of(&self.peek().kind) == 1;
        if is_pub {
            self.bump();
        }
        if let Err(d) = self.expect_kw(TokKind::KwFn, "to start a function definition") {
            return Err(d);
        }
        let (name, name_span) = match self.expect_ident("after `fn`") {
            Ok(n) => n,
            Err(d) => return Err(d),
        };
        if let Err(d) = self.expect(TokKind::LParen, "after the function name") {
            return Err(d);
        }
        let params = match self.param_list() {
            Ok(ps) => ps,
            Err(d) => return Err(d),
        };
        if let Err(d) = self.expect(TokKind::RParen, "to close the parameter list") {
            return Err(d);
        }
        let (return_type, is_view_return) = match self.return_type() {
            Ok(x) => x,
            Err(d) => return Err(d),
        };
        if let Err(d) = self.expect(TokKind::LBrace, "to open the function body") {
            return Err(d);
        }
        let body = match self.block_stmts() {
            Ok(b) => b,
            Err(d) => return Err(d),
        };
        Ok(Func { is_pub, name, name_span, params, return_type, is_view_return, body })
    }

    fn field(&mut self) -> (r: Result<Field, Diagnostic>)
        requires
            old(self).wf(),
        ensures
            final(self).wf(),
            final(self).toks == old(self).toks,
            old(self).pos <= final(self).pos,
            r is Ok ==> old(self).pos < final(self).pos,
            match r {
                Ok(f) => ok_at(spec_field(old(self).ts(), old(self).pos as int), f@, final(self).pos as int),
                Err(d) => err_is(spec_field(old(self).ts(), old(self).pos as int), d@) && parse_error_shape(d@),
            },
    {
        let mut is_stored_ref = false;
        let mut stored_ref_label: Option<String> = None;
        if variant_of(&self.peek().kind) == 7 {
            is_stored_ref = true;
            self.bump();
            if variant_of(&self.peek().kind) == 21 {
                self.bump();
                let (label, _) = match self.expect_ident("inside `ref[...]`") {
                    Ok(l) => l,
                    Err(d) => return Err(d),
                };
                stored_ref_label = Some(label);
                if let Err(d) = self.expect(TokKind::RBracket, "after a ref label") {
                    return Err(d);
                }
            }
        }
        let (name, name_span) = match self.expect_ident("for a field name") {
            Ok(n) => n,
            Err(d) => return Err(d),
        };
        if let Err(d) = self.expect(TokKind::Colon, "after a field name") {
            return Err(d);
        }
        let (ty, ty_span) = match self.type_() {
            Ok(t) => t,
            Err(d) => return Err(d),
        };
        Ok(Field { is_stored_ref, stored_ref_label, name, name_span, ty, ty_span })
    }

    fn fields_list(&mut self) -> (r: Result<Vec<Field>, Diagnostic>)
        requires
            old(self).wf(),
        ensures
            final(self).wf(),
            final(self).toks == old(self).toks,
            old(self).pos <= final(self).pos,
            match r {
                Ok(fs) => ok_at(spec_fields(old(self).ts(), old(self).pos as int), fields_view(fs@), final(self).pos as int),
                Err(d) => err_is(spec_fields(old(self).ts(), old(self).pos as int), d@) && parse_error_shape(d@),
            },
    {
        let ghost ts = self.ts();
        let ghost p0 = self.pos as int;
        let mut fields: Vec<Field> = Vec::new();
        loop
            invariant
                self.wf(),
                self.toks == old(self).toks,
                p0 <= self.pos,
                p0 == old(self).pos,
                ts == self.ts(),
                cont(spec_fields(ts, p0), fields_view(fields@), spec_fields(ts, self.pos as int)),
            decreases self.toks@.len() - self.pos,
        {
            if variant_of(&self.peek().kind) == 20 {
                assert(fields_view(fields@) + Seq::<SpecField>::empty() =~= fields_view(fields@));
                return Ok(fields);
            }
            let f = match self.field() {
                Ok(f) => f,
                Err(d) => return Err(d),
            };
            let ghost fv = f@;
            let ghost done = fields_view(fields@);
            fields.push(f);
            assert(fields_view(fields@) =~= done.push(fv));
            let v = variant_of(&self.peek().kind);
            if v == 24 || v == 26 {
                self.bump();
            }
            proof {
                lemma_cont_push(spec_fields(ts, p0), done, fv, spec_fields(ts, self.pos as int));
            }
        }
    }

    fn struct_def(&mut self, nested: bool) -> (r: Result<StructDef, Diagnostic>)
        requires
            old(self).wf(),
        ensures
            final(self).wf(),
            final(self).toks == old(self).toks,
            old(self).pos <= final(self).pos,
            r is Ok ==> old(self).pos < final(self).pos,
            match r {
                Ok(sd) => ok_at(spec_struct_def(old(self).ts(), old(self).pos as int, nested), sd@, final(self).pos as int),
                Err(d) => err_is(spec_struct_def(old(self).ts(), old(self).pos as int, nested), d@) && parse_error_shape(d@),
            },
    {
        let is_pub = if nested {
            false
        } else {
            variant_of(&self.peek().kind) == 1
        };
        if is_pub {
            self.bump();
        }
        if let Err(d) = self.expect_kw(TokKind::KwStruct, "to start a struct definition") {
            return Err(d);
        }
        let (name, name_span) = match self.expect_ident("after `struct`") {
            Ok(n) => n,
            Err(d) => return Err(d),
        };
        if let Err(d) = self.expect(TokKind::LBrace, "to open the struct body") {
            return Err(d);
        }
        let fields = match self.fields_list() {
            Ok(fs) => fs,
            Err(d) => return Err(d),
        };
        self.bump();
        Ok(StructDef { is_pub, name, name_span, fields })
    }

    fn attrs_list(&mut self) -> (r: Result<Vec<ConstAttr>, Diagnostic>)
        requires
            old(self).wf(),
        ensures
            final(self).wf(),
            final(self).toks == old(self).toks,
            old(self).pos <= final(self).pos,
            match r {
                Ok(a) => ok_at(spec_attrs(old(self).ts(), old(self).pos as int), a@, final(self).pos as int),
                Err(d) => err_is(spec_attrs(old(self).ts(), old(self).pos as int), d@) && parse_error_shape(d@),
            },
    {
        let ghost ts = self.ts();
        let ghost p0 = self.pos as int;
        let mut attrs: Vec<ConstAttr> = Vec::new();
        while variant_of(&self.peek().kind) == 30
            invariant
                self.wf(),
                self.toks == old(self).toks,
                p0 <= self.pos,
                p0 == old(self).pos,
                ts == self.ts(),
                cont(spec_attrs(ts, p0), attrs@, spec_attrs(ts, self.pos as int)),
            decreases self.toks@.len() - self.pos,
        {
            self.bump();
            let (attr_name, _) = match self.expect_ident("after `@`") {
                Ok(n) => n,
                Err(d) => return Err(d),
            };
            let a = if text_eq(attr_name.as_str(), "static") {
                ConstAttr::ForceStatic
            } else if text_eq(attr_name.as_str(), "inline") {
                ConstAttr::ForceInline
            } else {
                let mut what = "`@".to_string();
                push_text(&mut what, attr_name.as_str());
                push_text(&mut what, "` isn't a known attribute on a const");
                return Err(
                    error3(
                        what,
                        "only `@static` and `@inline` are supported on const declarations",
                        "remove the attribute or use `@static` or `@inline`".to_string(),
                        self.peek().span,
                    ),
                );
            };
            let ghost done = attrs@;
            attrs.push(a);
            proof {
                lemma_cont_push(spec_attrs(ts, p0), done, a, spec_attrs(ts, self.pos as int));
            }
        }
        assert(attrs@ + Seq::<ConstAttr>::empty() =~= attrs@);
        Ok(attrs)
    }

    fn const_def(&mut self) -> (r: Result<ConstDef, Diagnostic>)
        requires
            old(self).wf(),
        ensures
            final(self).wf(),
            final(self).toks == old(self).toks,
            old(self).pos <= final(self).pos,
            r is Ok ==> old(self).pos < final(self).pos,
            match r {
                Ok(c) => ok_at(spec_const_def(old(self).ts(), old(self).pos as int), c@, final(self).pos as int),
                Err(d) => err_is(spec_const_def(old(self).ts(), old(self).pos as int), d@) && parse_error_shape(d@),
            },
    {
        let attrs = match self.attrs_list() {
            Ok(a) => a,
            Err(d) => return Err(d),
        };
        if let Err(d) = self.expect_kw(TokKind::KwConst, "to start a const declaration") {
            return Err(d);
        }
        let (name, name_span) = match self.expect_ident("after `const`") {
            Ok(n) => n,
            Err(d) => return Err(d),
        };
        if let Err(d) = self.expect(TokKind::Eq, "after the const name") {
            return Err(d);
        }
        let value = match self.expr() {
            Ok(e) => e,
            Err(d) => return Err(d),
        };
        if let Err(d) = self.expect(TokKind::Semi, "after a const value") {
            return Err(d);
        }
        Ok(ConstDef { name, name_span, value, attrs, rust_kind: RustConstKind::Const })
    }

    fn item(&mut self) -> (r: Result<Option<Item>, Diagnostic>)
        requires
            old(self).wf(),
        ensures
            final(self).wf(),
            final(self).toks == old(self).toks,
            match r {
                Ok(Some(it)) => old(self).pos < final(self).pos && spec_item(old(self).ts(), old(self).pos as int)
                    == Ok::<Option<(SpecItem, int)>, SpecDiag>(Some((it@, final(self).pos as int))),
                Ok(None) => spec_item(old(self).ts(), old(self).pos as int) == Ok::<Option<(SpecItem, int)>, SpecDiag>(None),
                Err(d) => spec_item(old(self).ts(), old(self).pos as int) == Err::<Option<(SpecItem, int)>, SpecDiag>(d@)
                    && parse_error_shape(d@),
            },
    {
        let v = variant_of(&self.peek().kind);
        if v == 31 {
            Ok(None)
        } else if v == 0 || v == 1 {
            match self.func() {
                Ok(f) => Ok(Some(Item::Func(f))),
                Err(d) => Err(d),
            }
        } else if v == 8 {
            match self.struct_def(false) {
                Ok(sd) => Ok(Some(Item::Struct(sd))),
                Err(d) => Err(d),
            }
        } else if v == 10 || v == 30 {
            match self.const_def() {
                Ok(c) => Ok(Some(Item::Const(c))),
                Err(d) => Err(d),
            }
        } else {
            let found = describe(&self.peek().kind);
            let mut what = "expected `".to_string();
            push_text(&mut what, syntax::KW_FN);
            push_text(&mut what, "`, `");
            push_text(&mut what, syntax::KW_STRUCT);
            push_text(&mut what, "`, or `");
            push_text(&mut what, syntax::KW_CONST);
            push_text(&mut what, "` here, found ");
            push_text(&mut what, found.as_str());
            let mut fix = "define a function (".to_string();
            push_text(&mut fix, syntax::KW_FN);
            push_text(&mut fix, " main() { ... }), struct, or const");
            Err(error3(what, "at the top level of a file, only definitions can appear", fix, self.peek().span))
        }
    }

    fn program(&mut self) -> (r: Result<Program, Diagnostic>)
        requires
            old(self).wf(),
        ensures
            match r {
                Ok(p) => spec_items(old(self).ts(), old(self).pos as int) == Ok::<Seq<SpecItem>, SpecDiag>(p@.items),
                Err(d) => spec_items(old(self).ts(), old(self).pos as int) == Err::<Seq<SpecItem>, SpecDiag>(d@)
                    && parse_error_shape(d@),
            },
    {
        let ghost ts = self.ts();
        let ghost p0 = self.pos as int;
        let mut items: Vec<Item> = Vec::new();
        loop
            invariant
                self.wf(),
                self.toks == old(self).toks,
                p0 <= self.pos,
                p0 == old(self).pos,
                ts == self.ts(),
                match spec_items(ts, self.pos as int) {
                    Ok(rest) => spec_items(ts, p0) == Ok::<Seq<SpecItem>, SpecDiag>(items_view(items@) + rest),
                    Err(d) => spec_items(ts, p0) == Err::<Seq<SpecItem>, SpecDiag>(d),
                },
            decreases self.toks@.len() - self.pos,
        {
            let ghost done = items_view(items@);
            let item = match self.item() {
                Ok(Some(it)) => it,
                Ok(None) => {
                    assert(done + Seq::<SpecItem>::empty() =~= done);
                    return Ok(Program { items });
                },
                Err(d) => return Err(d),
            };
            let ghost iv = item@;
            items.push(item);
            proof {
                assert(items_view(items@) =~= done.push(iv));
                match spec_items(ts, self.pos as int) {
                    Ok(rest) => {
                        assert(done + (seq![iv] + rest) =~= done.push(iv) + rest);
                    },
                    Err(d) => {},
                }
            }
        }
    }
}

/// Parses a token sequence that ends with the end-of-file token (as the
/// lexer's output does): the program, or the first diagnostic.
pub fn parse(toks: &[Token]) -> (r: Result<Program, Diagnostic>)
    requires
        wf_tokens(tokens_view(toks@)),
    ensures
        match r {
            Ok(p) => parse_spec(tokens_view(toks@)) == Ok::<SpecProgram, SpecDiag>(p@),
            Err(d) => parse_spec(tokens_view(toks@)) == Err::<SpecProgram, SpecDiag>(d@)
                && parse_error_shape(d@),
        },
{
    let mut p = Parser { toks, pos: 0 };
    p.program()
}

} // verus!
