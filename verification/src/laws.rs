//! Properties that hold of the front end as a whole, stated over the
//! models that the functions' contracts use, and proved.
use crate::ast::{
    SpecCall, SpecCallArg, SpecConstDef, SpecExpr, SpecFunc, SpecItem, SpecProgram, SpecStmt,
};
use crate::diag::{render_spec, severity_label, Severity, Span, SpecDiag};
use crate::lexer::{
    digit_class, inside_text, is_digit, keyword_spec, lemma_digits_value_nonneg,
    lemma_lex_from_ends_with_eof, lemma_skip_while_bounds, lemma_source_prefix, lex_from, lex_spec,
    lex_step, opt_seq, pos_at, skip_while, source_model, text_of, letter,
    letter_or_digit, word_class, SourceChar, SpecTokKind, SpecToken,
};
use crate::parser::{
    bump_pos, forward, onward, parse_spec, peek, spec_access_prefix, spec_args, spec_attrs,
    spec_binding, spec_block, spec_call, spec_call_arg, spec_expect, spec_expect_ident, spec_expr,
    spec_expr_primary, spec_field, spec_fields, spec_func, spec_item, spec_items, spec_members,
    spec_param, spec_param_list, spec_params, spec_return_type, spec_stmt, spec_type, stuck,
    wf_tokens, PResult,
};
use crate::sema::{
    best_candidate, builtin_redefined, check_arg_spec, check_args_from, check_call_spec,
    check_expr_spec, check_item_spec, check_items_spec, check_spec, check_stmt_spec,
    check_stmts_spec, convention_check, declare, declare_all, defined_twice, edit_distance_spec,
    find_func_from, has_func, lev, loop_check, no_main, SpecSig, Tables,
};
use crate::syntax;
use crate::text::{lemma_byte_offset_mono, width_sum};
use crate::{compile_spec, with_severity};
use vstd::prelude::*;

verus! {

/// Lexing any text yields at least one token; the last one is the
/// end-of-file token, placed at the end of the text, and no other token
/// is an end-of-file token.
pub proof fn law_lex_ends_with_eof(s: Seq<char>)
    ensures
        lex_spec(s).0.len() > 0,
        lex_spec(s).0.last() == (SpecToken {
            kind: SpecTokKind::Eof,
            span: Span { start: width_sum(s) as usize, end: width_sum(s) as usize },
        }),
        forall|k: int| 0 <= k < lex_spec(s).0.len() - 1 ==> !(#[trigger] lex_spec(s).0[k].kind is Eof),
{
    lemma_lex_from_ends_with_eof(source_model(s), width_sum(s) as usize, 0);
}

/// What the lexer yields is always what the parser accepts.
pub proof fn law_lexer_output_is_parser_input(s: Seq<char>)
    ensures
        wf_tokens(lex_spec(s).0),
{
    law_lex_ends_with_eof(s);
}

/// Byte positions that never go backwards along the characters.
spec fn positions_in_order(cs: Seq<SourceChar>, end: usize) -> bool {
    forall|i: int, j: int| 0 <= i <= j <= cs.len() ==> #[trigger] pos_at(cs, end, i) <= #[trigger] pos_at(cs, end, j)
}

/// Every step of the lexer covers the bytes from where it starts to where
/// the next step starts.
proof fn lemma_step_span(cs: Seq<SourceChar>, end: usize, i: int)
    requires
        0 <= i < cs.len(),
    ensures
        ({
            let (j, t, d) = lex_step(cs, end, i);
            &&& t is Some ==> t->0.span == (Span { start: pos_at(cs, end, i), end: pos_at(cs, end, j) })
            &&& d is Some ==> d->0.span == Some(Span { start: pos_at(cs, end, i), end: pos_at(cs, end, j) })
            &&& t is Some ==> !(t->0.kind is Eof)
            &&& d is Some ==> d->0.severity == Severity::Error
        }),
{
}

proof fn lemma_lex_from_spans(cs: Seq<SourceChar>, end: usize, i: int)
    requires
        positions_in_order(cs, end),
        0 <= i <= cs.len(),
    ensures
        ({
            let (toks, diags) = lex_from(cs, end, i);
            &&& forall|k: int| 0 <= k < toks.len() ==> pos_at(cs, end, i) <= #[trigger] toks[k].span.start
                <= toks[k].span.end <= end
            &&& forall|k: int| 0 <= k < toks.len() - 1 ==> #[trigger] toks[k].span.end <= toks[k + 1].span.start
            &&& forall|k: int| 0 <= k < diags.len() ==> (#[trigger] diags[k]).span is Some
                && pos_at(cs, end, i) <= diags[k].span->0.start <= diags[k].span->0.end <= end
                && diags[k].severity == Severity::Error
        }),
    decreases cs.len() - i,
{
    assert(pos_at(cs, end, cs.len() as int) == end);
    let (j, t, d) = lex_step(cs, end, i);
    if i < cs.len() && i < j <= cs.len() {
        lemma_step_span(cs, end, i);
        lemma_lex_from_spans(cs, end, j);
        lemma_lex_from_ends_with_eof(cs, end, j);
        let rest = lex_from(cs, end, j);
        let toks = opt_seq(t) + rest.0;
        let diags = opt_seq(d) + rest.1;
        assert(pos_at(cs, end, i) <= pos_at(cs, end, j));
        assert(pos_at(cs, end, j) <= pos_at(cs, end, cs.len() as int));
        assert forall|k: int| 0 <= k < toks.len() implies pos_at(cs, end, i) <= #[trigger] toks[k].span.start
            <= toks[k].span.end <= end by {
            if t is Some && k == 0 {
            } else if t is Some {
                assert(toks[k] == rest.0[k - 1]);
            } else {
                assert(toks[k] == rest.0[k]);
            }
        }
        assert forall|k: int| 0 <= k < toks.len() - 1 implies #[trigger] toks[k].span.end <= toks[k + 1].span.start by {
            if t is Some && k == 0 {
                assert(toks[1] == rest.0[0]);
            } else if t is Some {
                assert(toks[k] == rest.0[k - 1]);
                assert(toks[k + 1] == rest.0[k]);
            } else {
                assert(toks[k] == rest.0[k]);
                assert(toks[k + 1] == rest.0[k + 1]);
            }
        }
        assert forall|k: int| 0 <= k < diags.len() implies (#[trigger] diags[k]).span is Some
            && pos_at(cs, end, i) <= diags[k].span->0.start <= diags[k].span->0.end <= end
            && diags[k].severity == Severity::Error by {
            if d is Some && k == 0 {
            } else if d is Some {
                assert(diags[k] == rest.1[k - 1]);
            } else {
                assert(diags[k] == rest.1[k]);
            }
        }
    }
}

proof fn lemma_source_positions(s: Seq<char>)
    requires
        crate::text::fits_in_memory(s),
    ensures
        positions_in_order(source_model(s), width_sum(s) as usize),
{
    let cs = source_model(s);
    let end = width_sum(s) as usize;
    lemma_source_prefix(s, s.len());
    crate::text::lemma_width_sum_is_encoding_len(s);
    assert(s.take(s.len() as int) =~= s);
    assert forall|i: int, j: int| 0 <= i <= j <= cs.len() implies #[trigger] pos_at(cs, end, i) <= #[trigger] pos_at(cs, end, j) by {
        lemma_byte_offset_mono(s, i, j);
        lemma_byte_offset_mono(s, j, s.len() as int);
        lemma_byte_offset_mono(s, i, s.len() as int);
        if i < cs.len() {
            assert(cs[i] == crate::lexer::classify(s, i));
        }
        if j < cs.len() {
            assert(cs[j] == crate::lexer::classify(s, j));
        }
    }
}

/// Every token's span lies within the text, starts no later than it ends,
/// and the spans follow one another in order; every lexer diagnostic is an
/// error whose span lies within the text.
pub proof fn law_lex_spans_in_order(s: Seq<char>)
    requires
        crate::text::fits_in_memory(s),
    ensures
        ({
            let (toks, diags) = lex_spec(s);
            &&& forall|k: int| 0 <= k < toks.len() ==> (#[trigger] toks[k]).span.start <= toks[k].span.end <= width_sum(s)
            &&& forall|k: int| 0 <= k < toks.len() - 1 ==> #[trigger] toks[k].span.end <= toks[k + 1].span.start
            &&& forall|k: int| 0 <= k < diags.len() ==> (#[trigger] diags[k]).span is Some
                && diags[k].span->0.start <= diags[k].span->0.end <= width_sum(s)
                && diags[k].severity == Severity::Error
        }),
{
    lemma_source_positions(s);
    crate::text::lemma_width_sum_is_encoding_len(s);
    lemma_lex_from_spans(source_model(s), width_sum(s) as usize, 0);
}

/// What a token holds is of the shape the language gives it: a name is
/// not empty, starts with a letter or `_`, goes on with letters, digits and
/// `_`, and is not a keyword; a number is not negative; quoted text holds
/// no `"` and no line break.
pub open spec fn token_shaped(t: SpecToken) -> bool {
    match t.kind {
        SpecTokKind::Ident(name) => {
            &&& name.len() > 0
            &&& letter(name[0]) || name[0] == '_'
            &&& forall|k: int| 0 <= k < name.len() ==> letter_or_digit(#[trigger] name[k]) || name[k] == '_'
            &&& keyword_spec(name) is None
        },
        SpecTokKind::Int(n) => n >= 0,
        SpecTokKind::Str(text) => forall|k: int| 0 <= k < text.len() ==> #[trigger] text[k] != '"' && text[k] != '\n',
        _ => true,
    }
}

/// The classes recorded with each character are those of the character.
spec fn classified(cs: Seq<SourceChar>) -> bool {
    forall|i: int| 0 <= i < cs.len() ==> (#[trigger] cs[i]).alphabetic == letter(cs[i].ch)
        && cs[i].alphanumeric == letter_or_digit(cs[i].ch)
}

proof fn lemma_skip_while_all(cs: Seq<SourceChar>, i: int, p: spec_fn(SourceChar) -> bool)
    requires
        0 <= i,
    ensures
        forall|k: int| i <= k < skip_while(cs, i, p) ==> p(#[trigger] cs[k]),
    decreases cs.len() - i,
{
    if 0 <= i < cs.len() && p(cs[i]) {
        lemma_skip_while_all(cs, i + 1, p);
    }
}

proof fn lemma_step_shaped(cs: Seq<SourceChar>, end: usize, i: int)
    requires
        classified(cs),
        0 <= i < cs.len(),
        i < lex_step(cs, end, i).0,
    ensures
        lex_step(cs, end, i).1 is Some ==> token_shaped(lex_step(cs, end, i).1->0),
{
    let c = cs[i].ch;
    if !cs[i].whitespace && !(c == '/' && crate::lexer::char_at(cs, i + 1) == '/')
        && crate::lexer::single_char_kind(c) is None && !(c == '-' && crate::lexer::char_at(cs, i + 1) == '>') {
        if c == '"' {
            let j = skip_while(cs, i + 1, inside_text());
            lemma_skip_while_all(cs, i + 1, inside_text());
            lemma_skip_while_bounds(cs, i + 1, inside_text());
            let text = text_of(cs, i + 1, j);
            assert forall|k: int| 0 <= k < text.len() implies #[trigger] text[k] != '"' && text[k] != '\n' by {
                assert(inside_text()(cs[i + 1 + k]));
            }
        } else if is_digit(c) {
            let j = skip_while(cs, i, digit_class());
            lemma_skip_while_all(cs, i, digit_class());
            lemma_skip_while_bounds(cs, i, digit_class());
            assert forall|k: int| i <= k < j implies is_digit(#[trigger] cs[k].ch) by {
                assert(digit_class()(cs[k]));
            }
            lemma_digits_value_nonneg(cs, i, j);
        } else if cs[i].alphabetic || c == '_' {
            let j = skip_while(cs, i, word_class());
            lemma_skip_while_all(cs, i, word_class());
            lemma_skip_while_bounds(cs, i, word_class());
            let name = text_of(cs, i, j);
            assert(name[0] == c);
            assert forall|k: int| 0 <= k < name.len() implies letter_or_digit(#[trigger] name[k]) || name[k] == '_' by {
                assert(word_class()(cs[i + k]));
            }
        }
    }
}

proof fn lemma_lex_from_shaped(cs: Seq<SourceChar>, end: usize, i: int)
    requires
        classified(cs),
    ensures
        forall|k: int| 0 <= k < lex_from(cs, end, i).0.len() ==> token_shaped(#[trigger] lex_from(cs, end, i).0[k]),
    decreases cs.len() - i,
{
    if !(i < 0 || i >= cs.len()) {
        let (j, t, d) = lex_step(cs, end, i);
        if i < j <= cs.len() {
            lemma_lex_from_shaped(cs, end, j);
            lemma_step_shaped(cs, end, i);
            let rest = lex_from(cs, end, j).0;
            let toks = opt_seq(t) + rest;
            assert forall|k: int| 0 <= k < toks.len() implies token_shaped(#[trigger] toks[k]) by {
                if t is Some && k == 0 {
                } else if t is Some {
                    assert(toks[k] == rest[k - 1]);
                } else {
                    assert(toks[k] == rest[k]);
                }
            }
        }
    }
}

/// Every token the lexer yields has the shape the language gives it: names
/// are words that are not keywords, numbers are not negative, and quoted
/// text holds no `"` and no line break.
pub proof fn law_tokens_are_shaped(s: Seq<char>)
    ensures
        forall|k: int| 0 <= k < lex_spec(s).0.len() ==> token_shaped(#[trigger] lex_spec(s).0[k]),
{
    let cs = source_model(s);
    lemma_source_prefix(s, s.len());
    assert forall|i: int| 0 <= i < cs.len() implies (#[trigger] cs[i]).alphabetic == letter(cs[i].ch)
        && cs[i].alphanumeric == letter_or_digit(cs[i].ch) by {
        assert(cs[i] == crate::lexer::classify(s, i));
    }
    lemma_lex_from_shaped(cs, width_sum(s) as usize, 0);
}

// ---------------------------------------------------------------------
// Edit distance and suggestions.
// ---------------------------------------------------------------------

proof fn lemma_lev_same(a: Seq<char>, i: nat)
    ensures
        lev(a, a, i, i) == 0,
    decreases i,
{
    if i > 0 {
        lemma_lev_same(a, (i - 1) as nat);
    }
}

proof fn lemma_lev_symmetric(a: Seq<char>, b: Seq<char>, i: nat, j: nat)
    ensures
        lev(a, b, i, j) == lev(b, a, j, i),
    decreases i + j,
{
    if i > 0 && j > 0 {
        lemma_lev_symmetric(a, b, (i - 1) as nat, j);
        lemma_lev_symmetric(a, b, i, (j - 1) as nat);
        lemma_lev_symmetric(a, b, (i - 1) as nat, (j - 1) as nat);
    }
}

proof fn lemma_lev_at_least_gap(a: Seq<char>, b: Seq<char>, i: nat, j: nat)
    ensures
        lev(a, b, i, j) >= i - j,
        lev(a, b, i, j) >= j - i,
    decreases i + j,
{
    if i > 0 && j > 0 {
        lemma_lev_at_least_gap(a, b, (i - 1) as nat, j);
        lemma_lev_at_least_gap(a, b, i, (j - 1) as nat);
        lemma_lev_at_least_gap(a, b, (i - 1) as nat, (j - 1) as nat);
    }
}

proof fn lemma_lev_zero(a: Seq<char>, b: Seq<char>, i: nat)
    requires
        i <= a.len(),
        i <= b.len(),
        lev(a, b, i, i) == 0,
    ensures
        a.take(i as int) == b.take(i as int),
    decreases i,
{
    if i > 0 {
        let k = (i - 1) as nat;
        lemma_lev_at_least_gap(a, b, k, i);
        lemma_lev_at_least_gap(a, b, i, k);
        lemma_lev_zero(a, b, k);
        assert(a.take(i as int) =~= a.take(k as int).push(a[k as int]));
        assert(b.take(i as int) =~= b.take(k as int).push(b[k as int]));
    }
}

/// The edit distance between two names is zero exactly when they are the
/// same name, it is the same whichever way round it is measured, and it is
/// no less than the difference of their lengths and no more than the
/// longer length.
pub proof fn law_edit_distance_metric(a: Seq<char>, b: Seq<char>)
    ensures
        edit_distance_spec(a, b) == 0 <==> a == b,
        edit_distance_spec(a, b) == edit_distance_spec(b, a),
        edit_distance_spec(a, b) >= a.len() - b.len(),
        edit_distance_spec(a, b) >= b.len() - a.len(),
        edit_distance_spec(a, b) <= if a.len() >= b.len() { a.len() } else { b.len() },
{
    lemma_lev_symmetric(a, b, a.len(), b.len());
    lemma_lev_at_least_gap(a, b, a.len(), b.len());
    crate::sema::lemma_lev_bound(a, b, a.len(), b.len());
    if a == b {
        lemma_lev_same(a, a.len());
    }
    if edit_distance_spec(a, b) == 0 {
        lemma_lev_zero(a, b, a.len());
        assert(a.take(a.len() as int) =~= a);
        assert(b.take(b.len() as int) =~= b);
    }
}

/// A suggestion, when there is one, is a candidate within edit distance 2
/// of the name; no candidate is closer, and none before it is as close.
/// There is no suggestion exactly when every candidate is farther than 2.
pub proof fn law_suggestion_is_closest(name: Seq<char>, cands: Seq<Seq<char>>)
    ensures
        match best_candidate(name, cands) {
            Some((c, d)) => {
                &&& d == edit_distance_spec(name, c)
                &&& d <= 2
                &&& exists|i: int|
                    0 <= i < cands.len() && cands[i] == c && (forall|k: int|
                        0 <= k < i ==> edit_distance_spec(name, #[trigger] cands[k]) > d)
                &&& forall|k: int| 0 <= k < cands.len() ==> edit_distance_spec(name, #[trigger] cands[k]) >= d
            },
            None => forall|k: int| 0 <= k < cands.len() ==> edit_distance_spec(name, #[trigger] cands[k]) > 2,
        },
    decreases cands.len(),
{
    if cands.len() > 0 {
        let init = cands.drop_last();
        law_suggestion_is_closest(name, init);
        let c = cands.last();
        let d = edit_distance_spec(name, c);
        assert(forall|k: int| 0 <= k < init.len() ==> #[trigger] init[k] == cands[k]);
        match best_candidate(name, init) {
            Some((bc, bd)) => {
                if d <= 2 && d < bd {
                    assert(cands[cands.len() - 1] == c);
                    assert forall|k: int| 0 <= k < cands.len() - 1 implies edit_distance_spec(name, #[trigger] cands[k]) > d by {
                        assert(init[k] == cands[k]);
                    }
                } else {
                    let i = choose|i: int|
                        0 <= i < init.len() && init[i] == bc && (forall|k: int|
                            0 <= k < i ==> edit_distance_spec(name, #[trigger] init[k]) > bd);
                    assert(cands[i] == bc);
                    assert forall|k: int| 0 <= k < i implies edit_distance_spec(name, #[trigger] cands[k]) > bd by {
                        assert(init[k] == cands[k]);
                    }
                    assert forall|k: int| 0 <= k < cands.len() implies edit_distance_spec(name, #[trigger] cands[k]) >= bd by {
                        if k < init.len() {
                            assert(init[k] == cands[k]);
                        }
                    }
                }
            },
            None => {
                if d <= 2 {
                    assert(cands[cands.len() - 1] == c);
                    assert forall|k: int| 0 <= k < cands.len() - 1 implies edit_distance_spec(name, #[trigger] cands[k]) > d by {
                        assert(init[k] == cands[k]);
                    }
                } else {
                    assert forall|k: int| 0 <= k < cands.len() implies edit_distance_spec(name, #[trigger] cands[k]) > 2 by {
                        if k < init.len() {
                            assert(init[k] == cands[k]);
                        }
                    }
                }
            },
        }
    }
}

// ---------------------------------------------------------------------
// The checker.
// ---------------------------------------------------------------------

/// Every diagnostic in `ds` points at a place in the text.
spec fn all_located(ds: Seq<SpecDiag>) -> bool {
    forall|k: int| 0 <= k < ds.len() ==> (#[trigger] ds[k]).span is Some
}

proof fn lemma_located_concat(a: Seq<SpecDiag>, b: Seq<SpecDiag>)
    requires
        all_located(a),
        all_located(b),
    ensures
        all_located(a + b),
{
    assert forall|k: int| 0 <= k < (a + b).len() implies (#[trigger] (a + b)[k]).span is Some by {
        if k < a.len() {
            assert((a + b)[k] == a[k]);
        } else {
            assert((a + b)[k] == b[k - a.len()]);
        }
    }
}

proof fn lemma_expr_located(e: SpecExpr, in_unsafe: bool)
    ensures
        all_located(check_expr_spec(e, in_unsafe)),
    decreases e,
{
    match e {
        SpecExpr::Deref(inner, _) => lemma_expr_located(*inner, in_unsafe),
        SpecExpr::Member(inner, _, _) => lemma_expr_located(*inner, in_unsafe),
        _ => {},
    }
}

proof fn lemma_args_located(
    call: Seq<char>,
    args: Seq<SpecCallArg>,
    k: nat,
    params: Seq<(crate::ast::AccessConvention, crate::ast::SpecType)>,
    locals: Seq<(Seq<char>, crate::ast::SpecType)>,
    in_loop: bool,
    in_unsafe: bool,
)
    ensures
        all_located(check_args_from(call, args, k, params, locals, in_loop, in_unsafe).1),
    decreases args.len() - k,
{
    if k < args.len() {
        let arg = args[k as int];
        lemma_expr_located(arg.expr, in_unsafe);
        if k < params.len() {
            let (a2, d2) = convention_check(call, k, arg, params[k as int]);
            let (a3, d3) = loop_check(a2, locals, in_loop);
            lemma_located_concat(check_expr_spec(arg.expr, in_unsafe), d2);
            lemma_located_concat(check_expr_spec(arg.expr, in_unsafe) + d2, d3);
        }
        lemma_args_located(call, args, k + 1, params, locals, in_loop, in_unsafe);
        let (a, d) = check_arg_spec(call, k, arg, params, locals, in_loop, in_unsafe);
        let (rest, rd) = check_args_from(call, args, k + 1, params, locals, in_loop, in_unsafe);
        lemma_located_concat(d, rd);
    }
}

proof fn lemma_call_located(
    c: SpecCall,
    funcs: Seq<(Seq<char>, SpecSig)>,
    locals: Seq<(Seq<char>, crate::ast::SpecType)>,
    in_loop: bool,
    in_unsafe: bool,
)
    ensures
        all_located(check_call_spec(c, funcs, locals, in_loop, in_unsafe).1),
{
    if c.name == syntax::BUILTIN_PRINT@ {
        if c.args.len() == 1 {
            lemma_expr_located(c.args[0].expr, in_unsafe);
        }
    } else {
        match crate::sema::lookup_func(funcs, c.name) {
            None => {},
            Some(sig) => {
                let d0 = if c.args.len() != sig.params.len() {
                    seq![crate::sema::arity_mismatch(c.name, sig.params.len(), c.args.len(), c.name_span)]
                } else {
                    Seq::empty()
                };
                lemma_args_located(c.name, c.args, 0, sig.params, locals, in_loop, in_unsafe);
                lemma_located_concat(d0, check_args_from(c.name, c.args, 0, sig.params, locals, in_loop, in_unsafe).1);
            },
        }
    }
}

proof fn lemma_stmt_located(
    s: SpecStmt,
    funcs: Seq<(Seq<char>, SpecSig)>,
    locals: Seq<(Seq<char>, crate::ast::SpecType)>,
    in_loop: bool,
    in_unsafe: bool,
)
    ensures
        all_located(check_stmt_spec(s, funcs, locals, in_loop, in_unsafe).diags),
    decreases s,
{
    match s {
        SpecStmt::Val(b) => lemma_expr_located(b.init, in_unsafe),
        SpecStmt::Return(e, _) => lemma_expr_located(e, in_unsafe),
        SpecStmt::Loop(inner, _) => lemma_stmts_located(inner, funcs, locals, true, in_unsafe),
        SpecStmt::Unsafe(inner, _) => lemma_stmts_located(inner, funcs, locals, in_loop, true),
        SpecStmt::Call(c) => lemma_call_located(c, funcs, locals, in_loop, in_unsafe),
    }
}

proof fn lemma_stmts_located(
    ss: Seq<SpecStmt>,
    funcs: Seq<(Seq<char>, SpecSig)>,
    locals: Seq<(Seq<char>, crate::ast::SpecType)>,
    in_loop: bool,
    in_unsafe: bool,
)
    ensures
        all_located(check_stmts_spec(ss, funcs, locals, in_loop, in_unsafe).diags),
    decreases ss,
{
    if ss.len() > 0 {
        let first = check_stmt_spec(ss[0], funcs, locals, in_loop, in_unsafe);
        lemma_stmt_located(ss[0], funcs, locals, in_loop, in_unsafe);
        lemma_stmts_located(ss.subrange(1, ss.len() as int), funcs, first.locals, in_loop, in_unsafe);
        lemma_located_concat(
            first.diags,
            check_stmts_spec(ss.subrange(1, ss.len() as int), funcs, first.locals, in_loop, in_unsafe).diags,
        );
    }
}

proof fn lemma_items_located(items: Seq<SpecItem>, funcs: Seq<(Seq<char>, SpecSig)>, taken: Seq<Seq<char>>)
    ensures
        all_located(check_items_spec(items, funcs, taken).1),
    decreases items.len(),
{
    if items.len() > 0 {
        lemma_items_located(items.drop_last(), funcs, taken);
        match items.last() {
            SpecItem::Func(f) => {
                let locals = f.params.map_values(|p: crate::ast::SpecParam| (p.name, p.ty));
                lemma_stmts_located(f.body, funcs, locals, false, false);
            },
            _ => {},
        }
        lemma_located_concat(
            check_items_spec(items.drop_last(), funcs, taken).1,
            check_item_spec(items.last(), funcs, taken).1,
        );
    }
}

proof fn lemma_declare_located(items: Seq<SpecItem>)
    ensures
        all_located(declare_all(items).diags),
    decreases items.len(),
{
    if items.len() > 0 {
        lemma_declare_located(items.drop_last());
    }
}

proof fn lemma_find_push(funcs: Seq<(Seq<char>, SpecSig)>, e: (Seq<char>, SpecSig), name: Seq<char>, k: int)
    requires
        0 <= k <= funcs.len(),
    ensures
        find_func_from(funcs.push(e), name, k) is Some <==> (find_func_from(funcs, name, k) is Some || e.0 == name),
    decreases funcs.len() - k,
{
    if k < funcs.len() {
        assert(funcs.push(e)[k] == funcs[k]);
        lemma_find_push(funcs, e, name, k + 1);
    } else {
        assert(funcs.push(e)[k] == e);
        assert(find_func_from(funcs.push(e), name, k + 1) is None);
    }
}

/// Whether a function named `name` other than the built-in has been
/// defined among `items`.
pub open spec fn defines_func(items: Seq<SpecItem>, name: Seq<char>) -> bool {
    exists|k: int| 0 <= k < items.len() && #[trigger] items[k] is Func && items[k]->Func_0.name == name
}

proof fn lemma_declare_has_func(t: Tables, item: SpecItem, name: Seq<char>)
    ensures
        has_func(declare(t, item).funcs, name) <==> (has_func(t.funcs, name) || (item is Func
            && item->Func_0.name == name && name != syntax::BUILTIN_PRINT@)),
{
    match item {
        SpecItem::Func(f) => {
            if f.name != syntax::BUILTIN_PRINT@ && !has_func(t.funcs, f.name) {
                lemma_find_push(t.funcs, (f.name, crate::sema::sig_of(f)), name, 0);
            }
        },
        _ => {},
    }
}

proof fn lemma_declare_all_has_func(items: Seq<SpecItem>, name: Seq<char>)
    ensures
        has_func(declare_all(items).funcs, name) <==> (defines_func(items, name) && name != syntax::BUILTIN_PRINT@),
    decreases items.len(),
{
    if items.len() > 0 {
        let init = items.drop_last();
        lemma_declare_all_has_func(init, name);
        lemma_declare_has_func(declare_all(init), items.last(), name);
        if defines_func(items, name) {
            let k = choose|k: int| 0 <= k < items.len() && #[trigger] items[k] is Func && items[k]->Func_0.name == name;
            if k < init.len() {
                assert(init[k] == items[k]);
            }
        }
        if defines_func(init, name) {
            let k = choose|k: int| 0 <= k < init.len() && #[trigger] init[k] is Func && init[k]->Func_0.name == name;
            assert(init[k] == items[k]);
        }
        if items.last() is Func && items.last()->Func_0.name == name {
            assert(items[items.len() - 1] == items.last());
        }
    } else {
        assert(!defines_func(items, name));
    }
}

/// Within one file every function can be called from every body, whether
/// it is defined before or after the caller and whether or not it is `pub`:
/// a call of a name other than `print` resolves exactly when a function of
/// that name is defined somewhere in the file, and is reported as unknown
/// (with its suggestion) exactly when none is.
pub proof fn law_calls_resolve_across_file(
    prog: SpecProgram,
    c: SpecCall,
    locals: Seq<(Seq<char>, crate::ast::SpecType)>,
    in_loop: bool,
    in_unsafe: bool,
)
    requires
        c.name != syntax::BUILTIN_PRINT@,
    ensures
        crate::sema::lookup_func(declare_all(prog.items).funcs, c.name) is Some <==> defines_func(prog.items, c.name),
        !defines_func(prog.items, c.name) ==> check_call_spec(c, declare_all(prog.items).funcs, locals, in_loop, in_unsafe).1
            == seq![crate::sema::unknown_function(c.name, declare_all(prog.items).funcs, c.name_span)],
{
    lemma_declare_all_has_func(prog.items, c.name);
}

/// A program must define `main`: the checker reports the missing-`main`
/// error exactly when no function is named `main`.
pub proof fn law_main_required(prog: SpecProgram)
    ensures
        check_spec(prog).1.contains(no_main()) <==> !defines_func(prog.items, "main"@),
{
    let t = declare_all(prog.items);
    let taken = crate::sema::items_refs(prog.items, t.consts);
    let d_bodies = check_items_spec(prog.items, t.funcs, taken).1;
    reveal_strlit("main");
    reveal_strlit("print");
    assert("main"@ != syntax::BUILTIN_PRINT@) by {
        assert("main"@[0] != syntax::BUILTIN_PRINT@[0]);
    }
    lemma_declare_all_has_func(prog.items, "main"@);
    lemma_declare_located(prog.items);
    lemma_items_located(prog.items, t.funcs, taken);
    let ds = check_spec(prog).1;
    if defines_func(prog.items, "main"@) {
        assert(ds == t.diags + d_bodies);
        lemma_located_concat(t.diags, d_bodies);
        if ds.contains(no_main()) {
            let k = choose|k: int| 0 <= k < ds.len() && ds[k] == no_main();
            assert(ds[k].span is Some);
        }
    } else {
        assert(ds[t.diags.len() as int] == no_main());
    }
}

proof fn lemma_declare_keeps_diags(t: Tables, item: SpecItem)
    ensures
        declare(t, item).diags.len() >= t.diags.len(),
        declare(t, item).diags.subrange(0, t.diags.len() as int) == t.diags,
{
    let d = declare(t, item).diags;
    assert(d.subrange(0, t.diags.len() as int) =~= t.diags);
}

proof fn lemma_declare_prefix(items: Seq<SpecItem>, i: int)
    requires
        0 <= i <= items.len(),
    ensures
        declare_all(items).diags.len() >= declare_all(items.take(i)).diags.len(),
        declare_all(items).diags.subrange(0, declare_all(items.take(i)).diags.len() as int) == declare_all(
            items.take(i),
        ).diags,
    decreases items.len(),
{
    if i == items.len() {
        assert(items.take(i) =~= items);
        assert(declare_all(items).diags.subrange(0, declare_all(items).diags.len() as int) =~= declare_all(items).diags);
    } else {
        let init = items.drop_last();
        lemma_declare_prefix(init, i);
        assert(init.take(i) =~= items.take(i));
        lemma_declare_keeps_diags(declare_all(init), items.last());
        let a = declare_all(items.take(i)).diags;
        let b = declare_all(init).diags;
        let c = declare_all(items).diags;
        assert(c.subrange(0, a.len() as int) =~= b.subrange(0, a.len() as int)) by {
            assert(c.subrange(0, b.len() as int) == b);
            assert forall|k: int| 0 <= k < a.len() implies c.subrange(0, a.len() as int)[k] == b.subrange(
                0,
                a.len() as int,
            )[k] by {
                assert(c.subrange(0, b.len() as int)[k] == b[k]);
            }
        }
    }
}

/// The definition problems found on reaching item `j` are among the
/// checker's diagnostics.
proof fn lemma_declared_at(prog: SpecProgram, j: int, d: SpecDiag)
    requires
        0 <= j < prog.items.len(),
        declare(declare_all(prog.items.take(j)), prog.items[j]).diags.contains(d),
    ensures
        check_spec(prog).1.contains(d),
{
    let items = prog.items;
    assert(items.take(j + 1).drop_last() =~= items.take(j));
    assert(items.take(j + 1).last() == items[j]);
    lemma_declare_prefix(items, j + 1);
    let pre = declare_all(items.take(j + 1)).diags;
    let all = declare_all(items).diags;
    let k = choose|k: int| 0 <= k < pre.len() && pre[k] == d;
    assert(all.subrange(0, pre.len() as int)[k] == pre[k]);
    assert(all[k] == d);
    let ds = check_spec(prog).1;
    assert(ds[k] == all[k]);
}

/// Function names are unique: a function that reuses the name of an
/// earlier one (other than the built-in) is reported at its own name.
pub proof fn law_duplicate_function_reported(prog: SpecProgram, i: int, j: int)
    requires
        0 <= i < j < prog.items.len(),
        prog.items[i] is Func,
        prog.items[j] is Func,
        prog.items[i]->Func_0.name == prog.items[j]->Func_0.name,
        prog.items[j]->Func_0.name != syntax::BUILTIN_PRINT@,
    ensures
        check_spec(prog).1.contains(
            defined_twice(
                prog.items[j]->Func_0.name,
                "every function needs a unique name so calls aren't ambiguous"@,
                prog.items[j]->Func_0.name_span,
            ),
        ),
{
    let items = prog.items;
    let name = items[j]->Func_0.name;
    let pre = items.take(j);
    assert(pre[i] == items[i]);
    assert(defines_func(pre, name));
    lemma_declare_all_has_func(pre, name);
    let t = declare_all(pre);
    let d = defined_twice(name, "every function needs a unique name so calls aren't ambiguous"@, items[j]->Func_0.name_span);
    assert(declare(t, items[j]).diags[t.diags.len() as int] == d);
    lemma_declared_at(prog, j, d);
}

/// The built-in `print` cannot be redefined: every function named `print`
/// is reported at its name.
pub proof fn law_builtin_not_redefined(prog: SpecProgram, i: int)
    requires
        0 <= i < prog.items.len(),
        prog.items[i] is Func,
        prog.items[i]->Func_0.name == syntax::BUILTIN_PRINT@,
    ensures
        check_spec(prog).1.contains(builtin_redefined(prog.items[i]->Func_0.name_span)),
{
    let t = declare_all(prog.items.take(i));
    let d = builtin_redefined(prog.items[i]->Func_0.name_span);
    assert(declare(t, prog.items[i]).diags[t.diags.len() as int] == d);
    lemma_declared_at(prog, i, d);
}

/// Checking keeps every definition in place: the same number of items, in
/// the same order, each of the same kind and name; a function keeps all but
/// its body (where call sites get flagged), a struct is unchanged, and a
/// const keeps all but how it is emitted.
pub proof fn law_check_keeps_definitions(prog: SpecProgram)
    ensures
        check_spec(prog).0.items.len() == prog.items.len(),
        forall|k: int| 0 <= k < prog.items.len() ==> kept(#[trigger] prog.items[k], check_spec(prog).0.items[k]),
{
    let t = declare_all(prog.items);
    let taken = crate::sema::items_refs(prog.items, t.consts);
    lemma_items_kept(prog.items, t.funcs, taken);
}

/// `after` is `before` with at most a function's body or a const's
/// emitted form changed.
pub open spec fn kept(before: SpecItem, after: SpecItem) -> bool {
    match (before, after) {
        (SpecItem::Func(f), SpecItem::Func(g)) => g == (SpecFunc { body: g.body, ..f }),
        (SpecItem::Struct(s), SpecItem::Struct(s2)) => s2 == s,
        (SpecItem::Const(c), SpecItem::Const(c2)) => c2 == (SpecConstDef { rust_kind: c2.rust_kind, ..c }),
        _ => false,
    }
}

proof fn lemma_items_kept(items: Seq<SpecItem>, funcs: Seq<(Seq<char>, SpecSig)>, taken: Seq<Seq<char>>)
    ensures
        check_items_spec(items, funcs, taken).0.len() == items.len(),
        forall|k: int| 0 <= k < items.len() ==> kept(#[trigger] items[k], check_items_spec(items, funcs, taken).0[k]),
    decreases items.len(),
{
    if items.len() > 0 {
        let init = items.drop_last();
        lemma_items_kept(init, funcs, taken);
        let out = check_items_spec(items, funcs, taken).0;
        let prev = check_items_spec(init, funcs, taken).0;
        assert forall|k: int| 0 <= k < items.len() implies kept(#[trigger] items[k], out[k]) by {
            if k < init.len() {
                assert(init[k] == items[k]);
                assert(out[k] == prev[k]);
            }
        }
    }
}

// ----- checking twice -----

type Params = Seq<(crate::ast::AccessConvention, crate::ast::SpecType)>;

type Locals = Seq<(Seq<char>, crate::ast::SpecType)>;

proof fn lemma_arg_again(call: Seq<char>, i: nat, arg: SpecCallArg, params: Params, locals: Locals, in_loop: bool, in_unsafe: bool)
    ensures
        check_arg_spec(call, i, check_arg_spec(call, i, arg, params, locals, in_loop, in_unsafe).0, params, locals, in_loop, in_unsafe)
            == check_arg_spec(call, i, arg, params, locals, in_loop, in_unsafe),
        check_arg_spec(call, i, arg, params, locals, in_loop, in_unsafe).0.expr == arg.expr,
{
}

proof fn lemma_args_out(call: Seq<char>, args: Seq<SpecCallArg>, k: nat, params: Params, locals: Locals, in_loop: bool, in_unsafe: bool)
    requires
        k <= args.len(),
    ensures
        check_args_from(call, args, k, params, locals, in_loop, in_unsafe).0.len() == args.len() - k,
        forall|j: int| 0 <= j < args.len() - k ==> #[trigger] check_args_from(call, args, k, params, locals, in_loop, in_unsafe).0[j]
            == check_arg_spec(call, (k + j) as nat, args[k + j], params, locals, in_loop, in_unsafe).0,
    decreases args.len() - k,
{
    if k < args.len() {
        lemma_args_out(call, args, k + 1, params, locals, in_loop, in_unsafe);
        let out = check_args_from(call, args, k, params, locals, in_loop, in_unsafe).0;
        let rest = check_args_from(call, args, k + 1, params, locals, in_loop, in_unsafe).0;
        assert forall|j: int| 0 <= j < args.len() - k implies #[trigger] out[j] == check_arg_spec(
            call,
            (k + j) as nat,
            args[k + j],
            params,
            locals,
            in_loop,
            in_unsafe,
        ).0 by {
            if j > 0 {
                assert(out[j] == rest[j - 1]);
                assert((k + 1 + (j - 1)) as nat == (k + j) as nat);
            }
        }
    }
}

proof fn lemma_args_again(
    call: Seq<char>,
    args: Seq<SpecCallArg>,
    args2: Seq<SpecCallArg>,
    k: nat,
    params: Params,
    locals: Locals,
    in_loop: bool,
    in_unsafe: bool,
)
    requires
        args2.len() == args.len(),
        forall|j: int| k <= j < args.len() ==> #[trigger] args2[j] == check_arg_spec(call, j as nat, args[j], params, locals, in_loop, in_unsafe).0,
    ensures
        check_args_from(call, args2, k, params, locals, in_loop, in_unsafe) == check_args_from(call, args, k, params, locals, in_loop, in_unsafe),
    decreases args.len() - k,
{
    if k < args.len() {
        assert(args2[k as int] == check_arg_spec(call, k, args[k as int], params, locals, in_loop, in_unsafe).0);
        lemma_arg_again(call, k, args[k as int], params, locals, in_loop, in_unsafe);
        lemma_args_again(call, args, args2, k + 1, params, locals, in_loop, in_unsafe);
    }
}

proof fn lemma_args_refs_same(args: Seq<SpecCallArg>, args2: Seq<SpecCallArg>, consts: Seq<Seq<char>>)
    requires
        args2.len() == args.len(),
        forall|j: int| 0 <= j < args.len() ==> (#[trigger] args2[j]).expr == args[j].expr,
    ensures
        crate::sema::args_refs(args2, consts) == crate::sema::args_refs(args, consts),
    decreases args.len(),
{
    if args.len() > 0 {
        let a = args.subrange(1, args.len() as int);
        let b = args2.subrange(1, args2.len() as int);
        assert forall|j: int| 0 <= j < a.len() implies (#[trigger] b[j]).expr == a[j].expr by {
            assert(b[j] == args2[j + 1]);
            assert(a[j] == args[j + 1]);
        }
        assert(args2[0].expr == args[0].expr);
        lemma_args_refs_same(a, b, consts);
    }
}

proof fn lemma_call_again(c: SpecCall, funcs: Seq<(Seq<char>, SpecSig)>, locals: Locals, in_loop: bool, in_unsafe: bool, consts: Seq<Seq<char>>)
    ensures
        check_call_spec(check_call_spec(c, funcs, locals, in_loop, in_unsafe).0, funcs, locals, in_loop, in_unsafe)
            == check_call_spec(c, funcs, locals, in_loop, in_unsafe),
        crate::sema::args_refs(check_call_spec(c, funcs, locals, in_loop, in_unsafe).0.args, consts)
            == crate::sema::args_refs(c.args, consts),
{
    if c.name != syntax::BUILTIN_PRINT@ {
        match crate::sema::lookup_func(funcs, c.name) {
            None => {},
            Some(sig) => {
                let out = check_args_from(c.name, c.args, 0, sig.params, locals, in_loop, in_unsafe).0;
                lemma_args_out(c.name, c.args, 0, sig.params, locals, in_loop, in_unsafe);
                assert forall|j: int| 0 <= j < c.args.len() implies #[trigger] out[j] == check_arg_spec(
                    c.name,
                    j as nat,
                    c.args[j],
                    sig.params,
                    locals,
                    in_loop,
                    in_unsafe,
                ).0 by {
                    assert(out[j] == check_arg_spec(c.name, (0 + j) as nat, c.args[0 + j], sig.params, locals, in_loop, in_unsafe).0);
                }
                lemma_args_again(c.name, c.args, out, 0, sig.params, locals, in_loop, in_unsafe);
                assert forall|j: int| 0 <= j < c.args.len() implies (#[trigger] out[j]).expr == c.args[j].expr by {
                    lemma_arg_again(c.name, j as nat, c.args[j], sig.params, locals, in_loop, in_unsafe);
                }
                lemma_args_refs_same(c.args, out, consts);
            },
        }
    }
}

proof fn lemma_stmt_again(s: SpecStmt, funcs: Seq<(Seq<char>, SpecSig)>, locals: Locals, in_loop: bool, in_unsafe: bool, consts: Seq<Seq<char>>)
    ensures
        check_stmt_spec(s, funcs, locals, in_loop, in_unsafe).stmts.len() == 1,
        check_stmt_spec(check_stmt_spec(s, funcs, locals, in_loop, in_unsafe).stmts[0], funcs, locals, in_loop, in_unsafe)
            == check_stmt_spec(s, funcs, locals, in_loop, in_unsafe),
        crate::sema::stmt_refs(check_stmt_spec(s, funcs, locals, in_loop, in_unsafe).stmts[0], consts)
            == crate::sema::stmt_refs(s, consts),
    decreases s,
{
    match s {
        SpecStmt::Loop(inner, _) => lemma_stmts_again(inner, funcs, locals, true, in_unsafe, consts),
        SpecStmt::Unsafe(inner, _) => lemma_stmts_again(inner, funcs, locals, in_loop, true, consts),
        SpecStmt::Call(c) => lemma_call_again(c, funcs, locals, in_loop, in_unsafe, consts),
        _ => {},
    }
}

proof fn lemma_stmts_again(ss: Seq<SpecStmt>, funcs: Seq<(Seq<char>, SpecSig)>, locals: Locals, in_loop: bool, in_unsafe: bool, consts: Seq<Seq<char>>)
    ensures
        check_stmts_spec(check_stmts_spec(ss, funcs, locals, in_loop, in_unsafe).stmts, funcs, locals, in_loop, in_unsafe)
            == check_stmts_spec(ss, funcs, locals, in_loop, in_unsafe),
        crate::sema::stmts_refs(check_stmts_spec(ss, funcs, locals, in_loop, in_unsafe).stmts, consts)
            == crate::sema::stmts_refs(ss, consts),
    decreases ss,
{
    if ss.len() > 0 {
        let first = check_stmt_spec(ss[0], funcs, locals, in_loop, in_unsafe);
        let tail = ss.subrange(1, ss.len() as int);
        let rest = check_stmts_spec(tail, funcs, first.locals, in_loop, in_unsafe);
        lemma_stmt_again(ss[0], funcs, locals, in_loop, in_unsafe, consts);
        lemma_stmts_again(tail, funcs, first.locals, in_loop, in_unsafe, consts);
        let out = first.stmts + rest.stmts;
        assert(out[0] == first.stmts[0]);
        assert(out.subrange(1, out.len() as int) =~= rest.stmts);
        lemma_stmts_again_rest_refs(out, first.stmts[0], rest.stmts, consts);
    }
}

proof fn lemma_stmts_again_rest_refs(out: Seq<SpecStmt>, s: SpecStmt, rest: Seq<SpecStmt>, consts: Seq<Seq<char>>)
    requires
        out.len() > 0,
        out[0] == s,
        out.subrange(1, out.len() as int) == rest,
    ensures
        crate::sema::stmts_refs(out, consts) == crate::sema::stmt_refs(s, consts) + crate::sema::stmts_refs(rest, consts),
{
}

/// The body-level refs of one item.
spec fn item_refs(it: SpecItem, consts: Seq<Seq<char>>) -> Seq<Seq<char>> {
    match it {
        SpecItem::Func(f) => crate::sema::stmts_refs(f.body, consts),
        _ => Seq::empty(),
    }
}

proof fn lemma_item_again(it: SpecItem, funcs: Seq<(Seq<char>, SpecSig)>, taken: Seq<Seq<char>>, consts: Seq<Seq<char>>)
    ensures
        check_item_spec(check_item_spec(it, funcs, taken).0, funcs, taken) == check_item_spec(it, funcs, taken),
        item_refs(check_item_spec(it, funcs, taken).0, consts) == item_refs(it, consts),
{
    match it {
        SpecItem::Func(f) => {
            let locals = f.params.map_values(|p: crate::ast::SpecParam| (p.name, p.ty));
            lemma_stmts_again(f.body, funcs, locals, false, false, consts);
        },
        _ => {},
    }
}

proof fn lemma_items_out(items: Seq<SpecItem>, funcs: Seq<(Seq<char>, SpecSig)>, taken: Seq<Seq<char>>)
    ensures
        check_items_spec(items, funcs, taken).0.len() == items.len(),
        forall|k: int| 0 <= k < items.len() ==> #[trigger] check_items_spec(items, funcs, taken).0[k]
            == check_item_spec(items[k], funcs, taken).0,
    decreases items.len(),
{
    if items.len() > 0 {
        let init = items.drop_last();
        lemma_items_out(init, funcs, taken);
        let out = check_items_spec(items, funcs, taken).0;
        let prev = check_items_spec(init, funcs, taken).0;
        assert forall|k: int| 0 <= k < items.len() implies #[trigger] out[k] == check_item_spec(items[k], funcs, taken).0 by {
            if k < init.len() {
                assert(init[k] == items[k]);
                assert(out[k] == prev[k]);
            }
        }
    }
}

proof fn lemma_items_again(items: Seq<SpecItem>, items2: Seq<SpecItem>, funcs: Seq<(Seq<char>, SpecSig)>, taken: Seq<Seq<char>>)
    requires
        items2.len() == items.len(),
        forall|k: int| 0 <= k < items.len() ==> #[trigger] check_item_spec(items2[k], funcs, taken) == check_item_spec(items[k], funcs, taken),
    ensures
        check_items_spec(items2, funcs, taken) == check_items_spec(items, funcs, taken),
    decreases items.len(),
{
    if items.len() > 0 {
        let a = items.drop_last();
        let b = items2.drop_last();
        assert forall|k: int| 0 <= k < a.len() implies #[trigger] check_item_spec(b[k], funcs, taken) == check_item_spec(a[k], funcs, taken) by {
            assert(a[k] == items[k]);
            assert(b[k] == items2[k]);
        }
        lemma_items_again(a, b, funcs, taken);
        assert(items2.last() == items2[items2.len() - 1]);
        assert(items.last() == items[items.len() - 1]);
    }
}

proof fn lemma_items_refs_same(items: Seq<SpecItem>, items2: Seq<SpecItem>, consts: Seq<Seq<char>>)
    requires
        items2.len() == items.len(),
        forall|k: int| 0 <= k < items.len() ==> #[trigger] item_refs(items2[k], consts) == item_refs(items[k], consts),
    ensures
        crate::sema::items_refs(items2, consts) == crate::sema::items_refs(items, consts),
    decreases items.len(),
{
    if items.len() > 0 {
        let a = items.drop_last();
        let b = items2.drop_last();
        assert forall|k: int| 0 <= k < a.len() implies #[trigger] item_refs(b[k], consts) == item_refs(a[k], consts) by {
            assert(a[k] == items[k]);
            assert(b[k] == items2[k]);
        }
        lemma_items_refs_same(a, b, consts);
        assert(item_refs(items2[items2.len() - 1], consts) == item_refs(items[items.len() - 1], consts));
    }
}

proof fn lemma_declare_same(items: Seq<SpecItem>, items2: Seq<SpecItem>)
    requires
        items2.len() == items.len(),
        forall|k: int| 0 <= k < items.len() ==> kept(#[trigger] items[k], items2[k]),
    ensures
        declare_all(items2) == declare_all(items),
    decreases items.len(),
{
    if items.len() > 0 {
        let a = items.drop_last();
        let b = items2.drop_last();
        assert forall|k: int| 0 <= k < a.len() implies kept(#[trigger] a[k], b[k]) by {
            assert(a[k] == items[k]);
            assert(b[k] == items2[k]);
        }
        lemma_declare_same(a, b);
        assert(kept(items[items.len() - 1], items2[items2.len() - 1]));
        match items.last() {
            SpecItem::Func(f) => {
                let g = items2.last()->Func_0;
                assert(crate::sema::sig_of(g) == crate::sema::sig_of(f));
            },
            _ => {},
        }
    }
}

/// Checking is idempotent: checking a checked program again gives back the
/// same program and the same diagnostics.
pub proof fn law_check_is_idempotent(prog: SpecProgram)
    ensures
        check_spec(check_spec(prog).0) == check_spec(prog),
{
    let items = prog.items;
    let t = declare_all(items);
    let taken = crate::sema::items_refs(items, t.consts);
    let out = check_items_spec(items, t.funcs, taken);
    let items2 = out.0;
    lemma_items_kept(items, t.funcs, taken);
    lemma_declare_same(items, items2);
    lemma_items_out(items, t.funcs, taken);
    assert forall|k: int| 0 <= k < items.len() implies #[trigger] item_refs(items2[k], t.consts) == item_refs(items[k], t.consts) by {
        lemma_item_again(items[k], t.funcs, taken, t.consts);
    }
    lemma_items_refs_same(items, items2, t.consts);
    assert forall|k: int| 0 <= k < items.len() implies #[trigger] check_item_spec(items2[k], t.funcs, taken) == check_item_spec(
        items[k],
        t.funcs,
        taken,
    ) by {
        lemma_item_again(items[k], t.funcs, taken, t.consts);
    }
    lemma_items_again(items, items2, t.funcs, taken);
}

// ---------------------------------------------------------------------
// The whole front end.
// ---------------------------------------------------------------------

proof fn lemma_with_severity(ds: Seq<SpecDiag>, sev: Severity)
    ensures
        with_severity(ds, sev).len() <= ds.len(),
        forall|k: int| 0 <= k < with_severity(ds, sev).len() ==> (#[trigger] with_severity(ds, sev)[k]).severity == sev,
        (forall|k: int| 0 <= k < ds.len() ==> (#[trigger] ds[k]).severity == sev) ==> with_severity(ds, sev) == ds,
        with_severity(ds, Severity::Error).len() == 0 ==> with_severity(ds, Severity::Lint) == ds,
    decreases ds.len(),
{
    if ds.len() > 0 {
        let init = ds.drop_last();
        lemma_with_severity(init, sev);
        lemma_with_severity(init, Severity::Error);
        lemma_with_severity(init, Severity::Lint);
        let w = with_severity(ds, sev);
        let wi = with_severity(init, sev);
        assert forall|k: int| 0 <= k < w.len() implies (#[trigger] w[k]).severity == sev by {
            if k < wi.len() {
                assert(w[k] == wi[k]);
            }
        }
        if forall|k: int| 0 <= k < ds.len() ==> (#[trigger] ds[k]).severity == sev {
            assert forall|k: int| 0 <= k < init.len() implies (#[trigger] init[k]).severity == sev by {
                assert(init[k] == ds[k]);
            }
            assert(ds[ds.len() - 1] == ds.last());
            assert(ds =~= init.push(ds.last()));
        }
        if with_severity(ds, Severity::Error).len() == 0 {
            assert(ds.last().severity != Severity::Error);
            assert(ds =~= init.push(ds.last()));
        }
    }
}

/// Lints never block compilation, and a failed compile always says why:
/// when lexing and parsing succeed and the checker reports no error, the
/// compile succeeds and hands back every checker diagnostic as a lint, in
/// order; a successful compile carries only lints; a failed one carries at
/// least one diagnostic, and all of them are errors.
pub proof fn law_lints_do_not_block(src: Seq<char>)
    requires
        crate::text::fits_in_memory(src),
    ensures
        match compile_spec(src) {
            Ok((_, lints)) => forall|k: int| 0 <= k < lints.len() ==> (#[trigger] lints[k]).severity == Severity::Lint,
            Err(ds) => ds.len() > 0 && forall|k: int| 0 <= k < ds.len() ==> (#[trigger] ds[k]).severity == Severity::Error,
        },
        lex_spec(src).1.len() == 0 ==> match parse_spec(lex_spec(src).0) {
            Ok(prog) => (forall|k: int| 0 <= k < check_spec(prog).1.len() ==> (#[trigger] check_spec(prog).1[k]).severity
                == Severity::Lint) ==> compile_spec(src) == Ok::<(SpecProgram, Seq<SpecDiag>), Seq<SpecDiag>>(
                check_spec(prog),
            ),
            Err(d) => compile_spec(src) == Err::<(SpecProgram, Seq<SpecDiag>), Seq<SpecDiag>>(seq![d]),
        },
{
    law_lex_spans_in_order(src);
    let (toks, lex_diags) = lex_spec(src);
    if lex_diags.len() == 0 {
        law_parse_failure_is_error(toks);
        match parse_spec(toks) {
            Ok(prog) => {
                let diags = check_spec(prog).1;
                lemma_with_severity(diags, Severity::Error);
                lemma_with_severity(diags, Severity::Lint);
                if forall|k: int| 0 <= k < diags.len() ==> (#[trigger] diags[k]).severity == Severity::Lint {
                    if with_severity(diags, Severity::Error).len() > 0 {
                        let e = with_severity(diags, Severity::Error);
                        assert(e[0].severity == Severity::Error);
                        lemma_with_severity_from(diags, Severity::Error, 0);
                    }
                }
            },
            Err(d) => {
                assert(seq![d][0] == d);
            },
        }
    }
}

proof fn lemma_with_severity_from(ds: Seq<SpecDiag>, sev: Severity, k: int)
    requires
        0 <= k < with_severity(ds, sev).len(),
    ensures
        exists|i: int| 0 <= i < ds.len() && #[trigger] ds[i] == with_severity(ds, sev)[k],
    decreases ds.len(),
{
    let init = ds.drop_last();
    lemma_with_severity(init, sev);
    if k < with_severity(init, sev).len() {
        lemma_with_severity_from(init, sev, k);
        let i = choose|i: int| 0 <= i < init.len() && #[trigger] init[i] == with_severity(init, sev)[k];
        assert(ds[i] == init[i]);
    } else {
        assert(ds[ds.len() - 1] == with_severity(ds, sev)[k]);
    }
}

// ---------------------------------------------------------------------
// Rendering.
// ---------------------------------------------------------------------

/// A diagnostic without a place renders as its header, `why` and `fix`
/// lines alone, with no location or source block; and rendering several
/// diagnostics puts exactly one blank line between one and the next.
pub proof fn law_render_shape(ds: Seq<SpecDiag>, d: SpecDiag, file: Seq<char>, src: Seq<char>)
    ensures
        d.span is None ==> render_spec(d, file, src) == severity_label(d.severity) + "["@ + d.code + "]: "@ + d.what
            + "\n"@ + " why: "@ + d.why + "\n"@ + " fix: "@ + d.fix + "\n"@,
        ds.len() > 0 ==> crate::diag::render_all_spec(ds.push(d), file, src) == crate::diag::render_all_spec(
            ds,
            file,
            src,
        ) + "\n"@ + render_spec(d, file, src),
        crate::diag::render_all_spec(seq![d], file, src) == render_spec(d, file, src),
{
    let x = ds.push(d);
    assert(x.drop_last() =~= ds);
    assert(seq![d][0] == d);
    if d.span is None {
        let head = severity_label(d.severity) + "["@ + d.code + "]: "@ + d.what + "\n"@;
        assert(head + Seq::<char>::empty() =~= head);
    }
}

// ---------------------------------------------------------------------
// The parser's diagnostics.
// ---------------------------------------------------------------------

/// A parse result that is either a success or an error diagnostic.
spec fn fails_with_error<T>(r: PResult<T>) -> bool {
    match r {
        Ok(_) => true,
        Err(d) => d.severity == Severity::Error,
    }
}

proof fn lemma_type_errs(ts: Seq<SpecToken>, p: int)
    ensures
        fails_with_error(spec_type(ts, p)),
    decreases ts.len() - p,
{
    let p2 = bump_pos(ts, bump_pos(ts, p));
    if forward(ts, p, p2) {
        lemma_type_errs(ts, p2);
    }
}

proof fn lemma_members_errs(ts: Seq<SpecToken>, base: SpecExpr, p: int)
    ensures
        fails_with_error(spec_members(ts, base, p)),
    decreases ts.len() - p,
{
    if 0 <= p < ts.len() && peek(ts, p).kind is Dot {
        let p1 = bump_pos(ts, p);
        match spec_expect_ident(ts, p1, "after `.`"@) {
            Err(_) => {},
            Ok(((member, span), p2)) => if forward(ts, p, p2) {
                lemma_members_errs(ts, SpecExpr::Member(Box::new(base), member, span), p2);
            },
        }
    }
}

proof fn lemma_expr_errs(ts: Seq<SpecToken>, p: int)
    ensures
        fails_with_error(spec_expr(ts, p)),
    decreases ts.len() - p,
{
    if 0 <= p < ts.len() && peek(ts, p).kind is Star {
        let p1 = bump_pos(ts, p);
        if forward(ts, p, p1) {
            lemma_expr_errs(ts, p1);
        }
    } else if 0 <= p < ts.len() {
        match spec_expr_primary(ts, p) {
            Err(_) => {},
            Ok((base, p1)) => lemma_members_errs(ts, base, p1),
        }
    }
}

proof fn lemma_args_errs(ts: Seq<SpecToken>, p: int)
    ensures
        fails_with_error(spec_args(ts, p)),
    decreases ts.len() - p,
{
    if 0 <= p < ts.len() {
        lemma_expr_errs(ts, spec_access_prefix(ts, p).1);
        match spec_call_arg(ts, p) {
            Err(_) => {},
            Ok((_, p1)) => {
                let p2 = bump_pos(ts, p1);
                if forward(ts, p, p2) {
                    lemma_args_errs(ts, p2);
                }
            },
        }
    }
}

proof fn lemma_call_errs(ts: Seq<SpecToken>, p: int)
    ensures
        fails_with_error(spec_call(ts, p)),
{
    lemma_args_errs(ts, bump_pos(ts, bump_pos(ts, p)));
}

proof fn lemma_binding_errs(ts: Seq<SpecToken>, p: int)
    ensures
        fails_with_error(spec_binding(ts, p)),
{
    let p2 = bump_pos(ts, bump_pos(ts, p));
    lemma_type_errs(ts, bump_pos(ts, p2));
    let ty = if peek(ts, p2).kind is Colon {
        if onward(ts, p, bump_pos(ts, p2)) {
            match spec_type(ts, bump_pos(ts, p2)) {
                Err(d) => Err(d),
                Ok(((t, _), p3)) => Ok((Some(t), p3)),
            }
        } else {
            Err(stuck())
        }
    } else {
        Ok((None, p2))
    };
    match ty {
        Err(_) => {},
        Ok((_, p3)) => lemma_expr_errs(ts, bump_pos(ts, p3)),
    }
}

proof fn lemma_stmt_errs(ts: Seq<SpecToken>, p: int)
    ensures
        fails_with_error(spec_stmt(ts, p)),
    decreases ts.len() - p, 7int,
{
    let p1 = bump_pos(ts, p);
    lemma_binding_errs(ts, p);
    lemma_expr_errs(ts, p1);
    lemma_call_errs(ts, p);
    let p2 = bump_pos(ts, p1);
    if forward(ts, p, p2) {
        lemma_block_errs(ts, p2);
    }
}

proof fn lemma_block_errs(ts: Seq<SpecToken>, p: int)
    ensures
        fails_with_error(spec_block(ts, p)),
    decreases ts.len() - p, 8int,
{
    if 0 <= p < ts.len() {
        lemma_stmt_errs(ts, p);
        match spec_stmt(ts, p) {
            Err(_) => {},
            Ok((_, p1)) => if forward(ts, p, p1) {
                lemma_block_errs(ts, p1);
            },
        }
    }
}

proof fn lemma_param_errs(ts: Seq<SpecToken>, p: int)
    ensures
        fails_with_error(spec_param(ts, p)),
{
    lemma_type_errs(ts, bump_pos(ts, bump_pos(ts, spec_access_prefix(ts, p).1)));
}

proof fn lemma_params_errs(ts: Seq<SpecToken>, p: int)
    ensures
        fails_with_error(spec_params(ts, p)),
    decreases ts.len() - p,
{
    if 0 <= p < ts.len() {
        lemma_param_errs(ts, p);
        match spec_param(ts, p) {
            Err(_) => {},
            Ok((_, p1)) => {
                let p2 = bump_pos(ts, p1);
                if forward(ts, p, p2) {
                    lemma_params_errs(ts, p2);
                }
            },
        }
    }
}

proof fn lemma_func_errs(ts: Seq<SpecToken>, p: int)
    ensures
        fails_with_error(spec_func(ts, p)),
{
    let p0 = if peek(ts, p).kind is KwPub { bump_pos(ts, p) } else { p };
    let p3 = bump_pos(ts, bump_pos(ts, bump_pos(ts, p0)));
    lemma_params_errs(ts, p3);
    match spec_param_list(ts, p3) {
        Err(_) => {},
        Ok((_, p4)) => {
            let p5 = bump_pos(ts, p4);
            let p6 = bump_pos(ts, p5);
            lemma_type_errs(ts, p6);
            lemma_type_errs(ts, bump_pos(ts, p6));
            match spec_return_type(ts, p5) {
                Err(_) => {},
                Ok((_, p9)) => lemma_block_errs(ts, bump_pos(ts, p9)),
            }
        },
    }
}

proof fn lemma_field_errs(ts: Seq<SpecToken>, p: int)
    ensures
        fails_with_error(spec_field(ts, p)),
{
    let is_stored_ref = peek(ts, p).kind is KwStored;
    let p1 = if is_stored_ref { bump_pos(ts, p) } else { p };
    let label = if is_stored_ref && peek(ts, p1).kind is LBracket {
        let p2 = bump_pos(ts, p1);
        match spec_expect_ident(ts, p2, "inside `ref[...]`"@) {
            Err(d) => Err(d),
            Ok(((label, _), p3)) => match spec_expect(ts, p3, SpecTokKind::RBracket, "after a ref label"@) {
                Err(d) => Err(d),
                Ok((_, p4)) => Ok((Some(label), p4)),
            },
        }
    } else {
        Ok((None, p1))
    };
    match label {
        Err(_) => {},
        Ok((_, p5)) => lemma_type_errs(ts, bump_pos(ts, bump_pos(ts, p5))),
    }
}

proof fn lemma_fields_errs(ts: Seq<SpecToken>, p: int)
    ensures
        fails_with_error(spec_fields(ts, p)),
    decreases ts.len() - p,
{
    if 0 <= p < ts.len() && !(peek(ts, p).kind is RBrace) {
        lemma_field_errs(ts, p);
        match spec_field(ts, p) {
            Err(_) => {},
            Ok((_, p1)) => if 0 <= p1 < ts.len() {
                let p2 = if peek(ts, p1).kind is Comma || peek(ts, p1).kind is Semi {
                    bump_pos(ts, p1)
                } else {
                    p1
                };
                if forward(ts, p, p2) {
                    lemma_fields_errs(ts, p2);
                }
            },
        }
    }
}

proof fn lemma_attrs_errs(ts: Seq<SpecToken>, p: int)
    ensures
        fails_with_error(spec_attrs(ts, p)),
    decreases ts.len() - p,
{
    let p2 = bump_pos(ts, bump_pos(ts, p));
    if 0 <= p < ts.len() && peek(ts, p).kind is At && forward(ts, p, p2) {
        lemma_attrs_errs(ts, p2);
    }
}

proof fn lemma_item_errs(ts: Seq<SpecToken>, p: int)
    ensures
        spec_item(ts, p) is Err ==> spec_item(ts, p)->Err_0.severity == Severity::Error,
{
    lemma_func_errs(ts, p);
    let p0 = if peek(ts, p).kind is KwPub { bump_pos(ts, p) } else { p };
    lemma_fields_errs(ts, bump_pos(ts, bump_pos(ts, bump_pos(ts, p0))));
    lemma_attrs_errs(ts, p);
    match spec_attrs(ts, p) {
        Err(_) => {},
        Ok((_, p1)) => lemma_expr_errs(ts, bump_pos(ts, bump_pos(ts, bump_pos(ts, p1)))),
    }
}

proof fn lemma_items_errs(ts: Seq<SpecToken>, p: int)
    ensures
        spec_items(ts, p) is Err ==> spec_items(ts, p)->Err_0.severity == Severity::Error,
    decreases ts.len() - p,
{
    if 0 <= p < ts.len() {
        lemma_item_errs(ts, p);
        match spec_item(ts, p) {
            Ok(Some((_, p1))) => if forward(ts, p, p1) {
                lemma_items_errs(ts, p1);
            },
            _ => {},
        }
    }
}

/// Whatever stops the parser is reported as an error.
pub proof fn law_parse_failure_is_error(ts: Seq<SpecToken>)
    ensures
        parse_spec(ts) is Err ==> parse_spec(ts)->Err_0.severity == Severity::Error,
{
    lemma_items_errs(ts, 0);
}

} // verus!

verus! {

// ---------------------------------------------------------------------
// Call-site conventions.
// ---------------------------------------------------------------------

proof fn lemma_args_diags_include(
    call: Seq<char>,
    args: Seq<SpecCallArg>,
    k: nat,
    i: nat,
    params: Params,
    locals: Locals,
    in_loop: bool,
    in_unsafe: bool,
    x: SpecDiag,
)
    requires
        k <= i < args.len(),
        check_arg_spec(call, i, args[i as int], params, locals, in_loop, in_unsafe).1.contains(x),
    ensures
        check_args_from(call, args, k, params, locals, in_loop, in_unsafe).1.contains(x),
    decreases i - k,
{
    let (a, d) = check_arg_spec(call, k, args[k as int], params, locals, in_loop, in_unsafe);
    let (rest, rd) = check_args_from(call, args, k + 1, params, locals, in_loop, in_unsafe);
    if k == i {
        let m = choose|m: int| 0 <= m < d.len() && d[m] == x;
        assert((d + rd)[m] == x);
    } else {
        lemma_args_diags_include(call, args, k + 1, i, params, locals, in_loop, in_unsafe, x);
        let m = choose|m: int| 0 <= m < rd.len() && rd[m] == x;
        assert((d + rd)[d.len() + m] == x);
    }
}

/// The diagnostic the convention rules give for an argument written
/// without `mut` to a `mut` parameter.
pub open spec fn missing_mut(call: Seq<char>, arg: SpecCallArg) -> SpecDiag {
    match arg.expr {
        SpecExpr::Ident(name, span) => crate::sema::mut_required(call, name, span),
        _ => crate::sema::mut_required_here(call, arg.span),
    }
}

/// At a call of a function that is defined, each argument's access keyword
/// must match its parameter's: `take` for a parameter that is not `take`
/// is E0203; `mut` for a parameter that is not `mut` is E0204; no `mut` for
/// a `mut` parameter is E0202; and a name passed without `take` to a `take`
/// parameter is implicitly cloned with the L0201 lint when its type can be
/// copied (the argument is flagged), else it is E0201.
pub proof fn law_call_conventions(
    c: SpecCall,
    funcs: Seq<(Seq<char>, SpecSig)>,
    locals: Locals,
    in_loop: bool,
    in_unsafe: bool,
    i: int,
)
    requires
        c.name != syntax::BUILTIN_PRINT@,
        crate::sema::lookup_func(funcs, c.name) is Some,
        0 <= i < c.args.len(),
        i < crate::sema::lookup_func(funcs, c.name)->0.params.len(),
    ensures
        ({
            let param = crate::sema::lookup_func(funcs, c.name)->0.params[i];
            let arg = c.args[i];
            let (out, ds) = check_call_spec(c, funcs, locals, in_loop, in_unsafe);
            &&& out.args.len() == c.args.len()
            &&& (arg.convention == crate::ast::AccessConvention::Move && param.0 != crate::ast::AccessConvention::Move)
                ==> ds.contains(crate::sema::take_not_consumed(arg.span))
            &&& (arg.convention == crate::ast::AccessConvention::Mutate && param.0 != crate::ast::AccessConvention::Mutate)
                ==> ds.contains(crate::sema::mut_not_accepted(arg.span))
            &&& (arg.convention == crate::ast::AccessConvention::Read && param.0 == crate::ast::AccessConvention::Mutate)
                ==> ds.contains(missing_mut(c.name, arg))
            &&& (arg.convention == crate::ast::AccessConvention::Read && param.0 == crate::ast::AccessConvention::Move
                && arg.expr is Ident) ==> if crate::sema::cloneable(param.1) {
                ds.contains(crate::sema::implicit_clone_lint(c.name, arg.expr->Ident_0, arg.expr->Ident_1))
                    && out.args[i].implicit_clone
            } else {
                ds.contains(crate::sema::take_required(c.name, (i + 1) as nat, arg.expr->Ident_0, arg.expr->Ident_1))
            }
        }),
{
    let sig = crate::sema::lookup_func(funcs, c.name)->0;
    let param = sig.params[i];
    let arg = c.args[i];
    let (a2, d2) = convention_check(c.name, i as nat, arg, param);
    let (a3, d3) = loop_check(a2, locals, in_loop);
    let d1 = check_expr_spec(arg.expr, in_unsafe);
    let d = check_arg_spec(c.name, i as nat, arg, sig.params, locals, in_loop, in_unsafe).1;
    assert(d == d1 + d2 + d3);
    lemma_args_out(c.name, c.args, 0, sig.params, locals, in_loop, in_unsafe);
    let args_out = check_args_from(c.name, c.args, 0, sig.params, locals, in_loop, in_unsafe);
    let d0 = if c.args.len() != sig.params.len() {
        seq![crate::sema::arity_mismatch(c.name, sig.params.len(), c.args.len(), c.name_span)]
    } else {
        Seq::empty()
    };
    assert(check_call_spec(c, funcs, locals, in_loop, in_unsafe).1 == d0 + args_out.1);
    assert(args_out.0[i] == check_arg_spec(c.name, (0 + i) as nat, c.args[0 + i], sig.params, locals, in_loop, in_unsafe).0);
    if d2.len() == 1 {
        let x = d2[0];
        assert(d[d1.len() as int] == x);
        lemma_args_diags_include(c.name, c.args, 0, i as nat, sig.params, locals, in_loop, in_unsafe, x);
        let m = choose|m: int| 0 <= m < args_out.1.len() && args_out.1[m] == x;
        assert((d0 + args_out.1)[d0.len() + m] == x);
    }
}

} // verus!

verus! {

// ---------------------------------------------------------------------
// Struct and const names.
// ---------------------------------------------------------------------

/// Whether a struct named `name` is defined among `items`.
pub open spec fn defines_struct(items: Seq<SpecItem>, name: Seq<char>) -> bool {
    exists|k: int| 0 <= k < items.len() && #[trigger] items[k] is Struct && items[k]->Struct_0.name == name
}

/// Whether a const named `name` is defined among `items`.
pub open spec fn defines_const(items: Seq<SpecItem>, name: Seq<char>) -> bool {
    exists|k: int| 0 <= k < items.len() && #[trigger] items[k] is Const && items[k]->Const_0.name == name
}

proof fn lemma_declared_names(items: Seq<SpecItem>, name: Seq<char>)
    ensures
        declare_all(items).structs.contains(name) <==> defines_struct(items, name),
        declare_all(items).consts.contains(name) <==> defines_const(items, name),
    decreases items.len(),
{
    if items.len() > 0 {
        let init = items.drop_last();
        lemma_declared_names(init, name);
        let t = declare_all(init);
        let t2 = declare_all(items);
        let last = items.last();
        assert(items[items.len() - 1] == last);
        assert forall|k: int| 0 <= k < init.len() implies #[trigger] init[k] == items[k] by {}
        lemma_declare_keeps_lists(t, last);
        if t2.structs.contains(name) {
            let m = choose|m: int| 0 <= m < t2.structs.len() && t2.structs[m] == name;
            if m < t.structs.len() {
                assert(t.structs[m] == name);
                let k = choose|k: int| 0 <= k < init.len() && #[trigger] init[k] is Struct && init[k]->Struct_0.name == name;
                assert(items[k] == init[k]);
            }
        }
        if defines_struct(items, name) {
            let k = choose|k: int| 0 <= k < items.len() && #[trigger] items[k] is Struct && items[k]->Struct_0.name == name;
            if k < init.len() {
                assert(init[k] == items[k]);
                assert(defines_struct(init, name));
                let m = choose|m: int| 0 <= m < t.structs.len() && t.structs[m] == name;
                lemma_declare_keeps_lists(t, last);
                assert(t2.structs[m] == name);
            } else {
                lemma_declare_keeps_lists(t, last);
                if !t.structs.contains(name) {
                    assert(t2.structs[t.structs.len() as int] == name);
                }
            }
        }
        if t2.consts.contains(name) {
            let m = choose|m: int| 0 <= m < t2.consts.len() && t2.consts[m] == name;
            lemma_declare_keeps_lists(t, last);
            if m < t.consts.len() {
                assert(t.consts[m] == name);
                let k = choose|k: int| 0 <= k < init.len() && #[trigger] init[k] is Const && init[k]->Const_0.name == name;
                assert(items[k] == init[k]);
            }
        }
        if defines_const(items, name) {
            let k = choose|k: int| 0 <= k < items.len() && #[trigger] items[k] is Const && items[k]->Const_0.name == name;
            lemma_declare_keeps_lists(t, last);
            if k < init.len() {
                assert(init[k] == items[k]);
                assert(defines_const(init, name));
                let m = choose|m: int| 0 <= m < t.consts.len() && t.consts[m] == name;
                assert(t2.consts[m] == name);
            } else {
                if !t.consts.contains(name) {
                    assert(t2.consts[t.consts.len() as int] == name);
                }
            }
        }
    }
}

proof fn lemma_declare_keeps_lists(t: Tables, item: SpecItem)
    ensures
        declare(t, item).structs.len() >= t.structs.len(),
        declare(t, item).structs.subrange(0, t.structs.len() as int) == t.structs,
        declare(t, item).consts.len() >= t.consts.len(),
        declare(t, item).consts.subrange(0, t.consts.len() as int) == t.consts,
        declare(t, item).structs.len() > t.structs.len() ==> item is Struct && declare(t, item).structs == t.structs.push(item->Struct_0.name),
        declare(t, item).consts.len() > t.consts.len() ==> item is Const && declare(t, item).consts == t.consts.push(item->Const_0.name),
{
    let d = declare(t, item);
    assert(d.structs.subrange(0, t.structs.len() as int) =~= t.structs);
    assert(d.consts.subrange(0, t.consts.len() as int) =~= t.consts);
}

/// Struct names are unique: a struct that reuses the name of any earlier
/// struct is reported at its own name.
pub proof fn law_duplicate_struct_reported(prog: SpecProgram, i: int, j: int)
    requires
        0 <= i < j < prog.items.len(),
        prog.items[i] is Struct,
        prog.items[j] is Struct,
        prog.items[i]->Struct_0.name == prog.items[j]->Struct_0.name,
    ensures
        check_spec(prog).1.contains(
            defined_twice(prog.items[j]->Struct_0.name, "every struct needs a unique name"@, prog.items[j]->Struct_0.name_span),
        ),
{
    let items = prog.items;
    let name = items[j]->Struct_0.name;
    let pre = items.take(j);
    assert(pre[i] == items[i]);
    assert(defines_struct(pre, name));
    lemma_declared_names(pre, name);
    let t = declare_all(pre);
    let d = defined_twice(name, "every struct needs a unique name"@, items[j]->Struct_0.name_span);
    assert(declare(t, items[j]).diags[t.diags.len() as int] == d);
    lemma_declared_at(prog, j, d);
}

/// Const names are unique: a const that reuses the name of any earlier const
/// is reported at its own name.
pub proof fn law_duplicate_const_reported(prog: SpecProgram, i: int, j: int)
    requires
        0 <= i < j < prog.items.len(),
        prog.items[i] is Const,
        prog.items[j] is Const,
        prog.items[i]->Const_0.name == prog.items[j]->Const_0.name,
    ensures
        check_spec(prog).1.contains(
            defined_twice(prog.items[j]->Const_0.name, "every const needs a unique name"@, prog.items[j]->Const_0.name_span),
        ),
{
    let items = prog.items;
    let name = items[j]->Const_0.name;
    let pre = items.take(j);
    assert(pre[i] == items[i]);
    assert(defines_const(pre, name));
    lemma_declared_names(pre, name);
    let t = declare_all(pre);
    let d = defined_twice(name, "every const needs a unique name"@, items[j]->Const_0.name_span);
    assert(declare(t, items[j]).diags[t.diags.len() as int] == d);
    lemma_declared_at(prog, j, d);
}

} // verus!

verus! {

// ---------------------------------------------------------------------
// How consts are emitted.
// ---------------------------------------------------------------------

/// Whether the value `e` names `n` (directly, or through `*` or a member
/// access).
pub open spec fn value_names(e: SpecExpr, n: Seq<char>) -> bool
    decreases e,
{
    match e {
        SpecExpr::Ident(m, _) => m == n,
        SpecExpr::Deref(inner, _) => value_names(*inner, n),
        SpecExpr::Member(inner, _, _) => value_names(*inner, n),
        _ => false,
    }
}

/// Whether some argument of a call is the bare name `n`.
pub open spec fn some_arg_is(args: Seq<SpecCallArg>, n: Seq<char>) -> bool {
    exists|j: int| 0 <= j < args.len() && (#[trigger] args[j]).expr is Ident && args[j].expr->Ident_0 == n
}

/// Whether the statement `s` names `n`: as a call argument, in a binding's
/// initial value, in a returned value, or anywhere inside a loop or an
/// `unsafe` block.
pub open spec fn stmt_names(s: SpecStmt, n: Seq<char>) -> bool
    decreases s,
{
    match s {
        SpecStmt::Call(c) => some_arg_is(c.args, n),
        SpecStmt::Val(b) => value_names(b.init, n),
        SpecStmt::Return(e, _) => value_names(e, n),
        SpecStmt::Loop(inner, _) => body_names(inner, n),
        SpecStmt::Unsafe(inner, _) => body_names(inner, n),
    }
}

/// Whether some statement of `ss` names `n`.
pub open spec fn body_names(ss: Seq<SpecStmt>, n: Seq<char>) -> bool
    decreases ss,
{
    if ss.len() == 0 {
        false
    } else {
        stmt_names(ss[0], n) || body_names(ss.subrange(1, ss.len() as int), n)
    }
}

/// Whether some function body among `items` names `n`.
pub open spec fn named_in_a_body(items: Seq<SpecItem>, n: Seq<char>) -> bool {
    exists|k: int| 0 <= k < items.len() && #[trigger] items[k] is Func && body_names(items[k]->Func_0.body, n)
}

proof fn lemma_concat_contains<A>(a: Seq<A>, b: Seq<A>, x: A)
    ensures
        (a + b).contains(x) <==> (a.contains(x) || b.contains(x)),
{
    if (a + b).contains(x) {
        let m = choose|m: int| 0 <= m < (a + b).len() && (a + b)[m] == x;
        if m < a.len() {
            assert(a[m] == x);
        } else {
            assert(b[m - a.len()] == x);
        }
    }
    if a.contains(x) {
        let m = choose|m: int| 0 <= m < a.len() && a[m] == x;
        assert((a + b)[m] == x);
    }
    if b.contains(x) {
        let m = choose|m: int| 0 <= m < b.len() && b[m] == x;
        assert((a + b)[a.len() + m] == x);
    }
}

proof fn lemma_expr_refs_names(e: SpecExpr, consts: Seq<Seq<char>>, n: Seq<char>)
    ensures
        crate::sema::expr_refs(e, consts).contains(n) <==> (consts.contains(n) && value_names(e, n)),
    decreases e,
{
    match e {
        SpecExpr::Ident(m, _) => {
            if consts.contains(m) {
                assert(seq![m][0] == m);
            }
        },
        SpecExpr::Deref(inner, _) => lemma_expr_refs_names(*inner, consts, n),
        SpecExpr::Member(inner, _, _) => lemma_expr_refs_names(*inner, consts, n),
        _ => {},
    }
}

proof fn lemma_args_refs_names(args: Seq<SpecCallArg>, consts: Seq<Seq<char>>, n: Seq<char>)
    ensures
        crate::sema::args_refs(args, consts).contains(n) <==> (consts.contains(n) && some_arg_is(args, n)),
    decreases args.len(),
{
    if args.len() > 0 {
        let tail = args.subrange(1, args.len() as int);
        lemma_args_refs_names(tail, consts, n);
        let here = match args[0].expr {
            SpecExpr::Ident(m, _) => if consts.contains(m) {
                seq![m]
            } else {
                Seq::empty()
            },
            _ => Seq::empty(),
        };
        lemma_concat_contains(here, crate::sema::args_refs(tail, consts), n);
        if here.contains(n) {
            assert(here[0] == n);
        }
        if some_arg_is(args, n) {
            let j = choose|j: int| 0 <= j < args.len() && (#[trigger] args[j]).expr is Ident && args[j].expr->Ident_0 == n;
            if j > 0 {
                assert(tail[j - 1] == args[j]);
            } else if consts.contains(n) {
                assert(here[0] == n);
            }
        }
        if some_arg_is(tail, n) {
            let j = choose|j: int| 0 <= j < tail.len() && (#[trigger] tail[j]).expr is Ident && tail[j].expr->Ident_0 == n;
            assert(args[j + 1] == tail[j]);
        }
    } else {
        assert(!some_arg_is(args, n));
    }
}

proof fn lemma_stmt_refs_names(s: SpecStmt, consts: Seq<Seq<char>>, n: Seq<char>)
    ensures
        crate::sema::stmt_refs(s, consts).contains(n) <==> (consts.contains(n) && stmt_names(s, n)),
    decreases s,
{
    match s {
        SpecStmt::Call(c) => lemma_args_refs_names(c.args, consts, n),
        SpecStmt::Val(b) => lemma_expr_refs_names(b.init, consts, n),
        SpecStmt::Return(e, _) => lemma_expr_refs_names(e, consts, n),
        SpecStmt::Loop(inner, _) => lemma_stmts_refs_names(inner, consts, n),
        SpecStmt::Unsafe(inner, _) => lemma_stmts_refs_names(inner, consts, n),
    }
}

proof fn lemma_stmts_refs_names(ss: Seq<SpecStmt>, consts: Seq<Seq<char>>, n: Seq<char>)
    ensures
        crate::sema::stmts_refs(ss, consts).contains(n) <==> (consts.contains(n) && body_names(ss, n)),
    decreases ss,
{
    if ss.len() > 0 {
        let tail = ss.subrange(1, ss.len() as int);
        lemma_stmt_refs_names(ss[0], consts, n);
        lemma_stmts_refs_names(tail, consts, n);
        lemma_concat_contains(crate::sema::stmt_refs(ss[0], consts), crate::sema::stmts_refs(tail, consts), n);
    }
}

proof fn lemma_items_refs_names(items: Seq<SpecItem>, consts: Seq<Seq<char>>, n: Seq<char>)
    ensures
        crate::sema::items_refs(items, consts).contains(n) <==> (consts.contains(n) && named_in_a_body(items, n)),
    decreases items.len(),
{
    if items.len() > 0 {
        let init = items.drop_last();
        lemma_items_refs_names(init, consts, n);
        let here = match items.last() {
            SpecItem::Func(f) => crate::sema::stmts_refs(f.body, consts),
            _ => Seq::empty(),
        };
        lemma_concat_contains(crate::sema::items_refs(init, consts), here, n);
        match items.last() {
            SpecItem::Func(f) => lemma_stmts_refs_names(f.body, consts, n),
            _ => {},
        }
        assert(items[items.len() - 1] == items.last());
        if named_in_a_body(items, n) {
            let k = choose|k: int| 0 <= k < items.len() && #[trigger] items[k] is Func && body_names(items[k]->Func_0.body, n);
            if k < init.len() {
                assert(init[k] == items[k]);
            }
        }
        if named_in_a_body(init, n) {
            let k = choose|k: int| 0 <= k < init.len() && #[trigger] init[k] is Func && body_names(init[k]->Func_0.body, n);
            assert(items[k] == init[k]);
        }
    } else {
        assert(!named_in_a_body(items, n));
    }
}

/// A const is emitted as a Rust `static` exactly when it is marked
/// `@static`, when its name is used in some function body (its address is
/// taken), or when its value names an atomic or a mutex; otherwise it is
/// emitted as a Rust `const`. Checking keeps it a const in its place.
pub proof fn law_const_emission(prog: SpecProgram, i: int)
    requires
        0 <= i < prog.items.len(),
        prog.items[i] is Const,
    ensures
        ({
            let c = prog.items[i]->Const_0;
            let out = check_spec(prog).0.items;
            &&& out.len() == prog.items.len()
            &&& out[i] is Const
            &&& out[i] == SpecItem::Const(SpecConstDef { rust_kind: out[i]->Const_0.rust_kind, ..c })
            &&& (out[i]->Const_0.rust_kind == crate::ast::RustConstKind::Static <==> (c.attrs.contains(
                crate::ast::ConstAttr::ForceStatic,
            ) || named_in_a_body(prog.items, c.name) || crate::sema::interior_value(c.value)))
        }),
{
    let items = prog.items;
    let c = items[i]->Const_0;
    let t = declare_all(items);
    let taken = crate::sema::items_refs(items, t.consts);
    lemma_items_out(items, t.funcs, taken);
    lemma_declared_names(items, c.name);
    assert(defines_const(items, c.name));
    lemma_items_refs_names(items, t.consts, c.name);
}

} // verus!

verus! {

// ---------------------------------------------------------------------
// Whitespace.
// ---------------------------------------------------------------------

/// The characters of the Unicode White_Space property, which std's
/// `char::is_whitespace` tests: tab, line feed, vertical tab, form feed,
/// carriage return, space, next line, no-break space, ogham space mark, the
/// spaces from en quad to hair space, line and paragraph separators, narrow
/// no-break space, medium mathematical space and ideographic space.
pub open spec fn white_space_char(c: char) -> bool {
    c == '\t' || c == '\n' || c == '\u{b}' || c == '\u{c}' || c == '\r' || c == ' ' || c == '\u{85}'
        || c == '\u{a0}' || c == '\u{1680}' || ('\u{2000}' <= c && c <= '\u{200a}') || c == '\u{2028}'
        || c == '\u{2029}' || c == '\u{202f}' || c == '\u{205f}' || c == '\u{3000}'
}

/// The lexer skips every whitespace character: at it, lexing moves on by
/// one character and yields no token and no diagnostic.
pub proof fn law_whitespace_is_skipped(s: Seq<char>, k: int)
    requires
        0 <= k < s.len(),
        white_space_char(s[k]),
    ensures
        lex_step(source_model(s), width_sum(s) as usize, k) == (k + 1, Option::<SpecToken>::None, Option::<SpecDiag>::None),
{
    lemma_source_prefix(s, s.len());
    assert(source_model(s)[k] == crate::lexer::classify(s, k));
}

proof fn lemma_blank_from(s: Seq<char>, i: int)
    requires
        0 <= i <= s.len(),
        forall|k: int| 0 <= k < s.len() ==> white_space_char(#[trigger] s[k]),
    ensures
        lex_from(source_model(s), width_sum(s) as usize, i) == (
            seq![SpecToken { kind: SpecTokKind::Eof, span: Span { start: width_sum(s) as usize, end: width_sum(s) as usize } }],
            Seq::<SpecDiag>::empty(),
        ),
    decreases s.len() - i,
{
    lemma_source_prefix(s, s.len());
    if i < s.len() {
        law_whitespace_is_skipped(s, i);
        lemma_blank_from(s, i + 1);
        let rest = lex_from(source_model(s), width_sum(s) as usize, i + 1);
        assert(opt_seq(Option::<SpecToken>::None) + rest.0 =~= rest.0);
        assert(opt_seq(Option::<SpecDiag>::None) + rest.1 =~= rest.1);
    }
}

/// Text made only of whitespace lexes to the end-of-file token alone, with
/// no diagnostic.
pub proof fn law_blank_text_lexes_to_end(s: Seq<char>)
    requires
        forall|k: int| 0 <= k < s.len() ==> white_space_char(#[trigger] s[k]),
    ensures
        lex_spec(s) == (
            seq![SpecToken { kind: SpecTokKind::Eof, span: Span { start: width_sum(s) as usize, end: width_sum(s) as usize } }],
            Seq::<SpecDiag>::empty(),
        ),
{
    lemma_blank_from(s, 0);
}

// ---------------------------------------------------------------------
// Bindings.
// ---------------------------------------------------------------------

/// A binding statement starts with `val` or `var`, and it can change
/// exactly when it starts with `var`; one that starts with `mut` is refused
/// with the error that names `var`.
pub proof fn law_binding_mutability(ts: Seq<SpecToken>, p: int)
    ensures
        match spec_stmt(ts, p) {
            Ok((SpecStmt::Val(b), _)) => (peek(ts, p).kind is KwVal || peek(ts, p).kind is KwVar) && (b.mutable
                <==> peek(ts, p).kind is KwVar),
            _ => true,
        },
        match spec_binding(ts, p) {
            Ok((b, _)) => peek(ts, p).kind is KwVal ==> !b.mutable,
            _ => true,
        },
        match spec_binding(ts, p) {
            Ok((b, _)) => peek(ts, p).kind is KwVar ==> b.mutable,
            _ => true,
        },
        peek(ts, p).kind is KwMutate ==> spec_binding(ts, p) == Err::<(crate::ast::SpecBinding, int), SpecDiag>(
            crate::parser::mut_binding_error(peek(ts, p).span),
        ) && spec_stmt(ts, p) == Err::<(SpecStmt, int), SpecDiag>(crate::parser::mut_binding_error(peek(ts, p).span)),
{
}

} // verus!

verus! {

// ---------------------------------------------------------------------
// More of the call rules.
// ---------------------------------------------------------------------

/// `print` takes exactly one thing to print: a call of `print` with any
/// other number of arguments is reported with E0103 and nothing else; a
/// call of a defined function with the wrong number of arguments is
/// reported with E0104, naming both counts.
pub proof fn law_call_arity(c: SpecCall, funcs: Seq<(Seq<char>, SpecSig)>, locals: Locals, in_loop: bool, in_unsafe: bool)
    ensures
        c.name == syntax::BUILTIN_PRINT@ && c.args.len() != 1 ==> check_call_spec(c, funcs, locals, in_loop, in_unsafe).1
            == seq![crate::sema::print_arity(c.name_span)],
        c.name != syntax::BUILTIN_PRINT@ && crate::sema::lookup_func(funcs, c.name) is Some && c.args.len()
            != crate::sema::lookup_func(funcs, c.name)->0.params.len() ==> check_call_spec(c, funcs, locals, in_loop, in_unsafe).1[0]
            == crate::sema::arity_mismatch(
            c.name,
            crate::sema::lookup_func(funcs, c.name)->0.params.len(),
            c.args.len(),
            c.name_span,
        ),
{
}

/// `*` is only allowed inside `unsafe`: a value that starts with `*`
/// outside `unsafe` is reported with E0208 at the `*`, and inside `unsafe`
/// no value is ever reported; a value without `*` is never reported.
pub proof fn law_deref_needs_unsafe(e: SpecExpr)
    ensures
        e is Deref ==> check_expr_spec(e, false) == seq![crate::sema::deref_outside_unsafe(e->Deref_1)],
        check_expr_spec(e, true) == Seq::<SpecDiag>::empty(),
        !has_deref(e) ==> check_expr_spec(e, false) == Seq::<SpecDiag>::empty(),
    decreases e,
{
    match e {
        SpecExpr::Deref(inner, _) => law_deref_needs_unsafe(*inner),
        SpecExpr::Member(inner, _, _) => law_deref_needs_unsafe(*inner),
        _ => {},
    }
}

/// Whether `*` occurs in the value `e`.
pub open spec fn has_deref(e: SpecExpr) -> bool
    decreases e,
{
    match e {
        SpecExpr::Deref(_, _) => true,
        SpecExpr::Member(inner, _, _) => has_deref(*inner),
        _ => false,
    }
}

/// Inside a loop, passing a local whose latest binding is a shared handle by
/// name to a parameter is flagged for an automatic clone, with the L0202
/// lint at the name; outside a loop the flag is left as it was.
pub proof fn law_shared_in_loop(
    c: SpecCall,
    funcs: Seq<(Seq<char>, SpecSig)>,
    locals: Locals,
    in_loop: bool,
    in_unsafe: bool,
    i: int,
)
    requires
        c.name != syntax::BUILTIN_PRINT@,
        crate::sema::lookup_func(funcs, c.name) is Some,
        0 <= i < c.args.len(),
        i < crate::sema::lookup_func(funcs, c.name)->0.params.len(),
    ensures
        ({
            let arg = c.args[i];
            let (out, ds) = check_call_spec(c, funcs, locals, in_loop, in_unsafe);
            &&& (in_loop && arg.expr is Ident && crate::sema::lookup_local(locals, arg.expr->Ident_0) is Some
                && crate::sema::lookup_local(locals, arg.expr->Ident_0)->0 is Shared) ==> out.args[i].shared_auto_clone
                && ds.contains(crate::sema::shared_in_loop_lint(arg.expr->Ident_0, arg.expr->Ident_1))
            &&& !in_loop ==> out.args[i].shared_auto_clone == arg.shared_auto_clone
        }),
{
    let sig = crate::sema::lookup_func(funcs, c.name)->0;
    let param = sig.params[i];
    let arg = c.args[i];
    let (a2, d2) = convention_check(c.name, i as nat, arg, param);
    let (a3, d3) = loop_check(a2, locals, in_loop);
    let d1 = check_expr_spec(arg.expr, in_unsafe);
    let d = check_arg_spec(c.name, i as nat, arg, sig.params, locals, in_loop, in_unsafe).1;
    assert(d == d1 + d2 + d3);
    lemma_args_out(c.name, c.args, 0, sig.params, locals, in_loop, in_unsafe);
    let args_out = check_args_from(c.name, c.args, 0, sig.params, locals, in_loop, in_unsafe);
    let d0 = if c.args.len() != sig.params.len() {
        seq![crate::sema::arity_mismatch(c.name, sig.params.len(), c.args.len(), c.name_span)]
    } else {
        Seq::empty()
    };
    assert(check_call_spec(c, funcs, locals, in_loop, in_unsafe).1 == d0 + args_out.1);
    assert(args_out.0[i] == check_arg_spec(c.name, (0 + i) as nat, c.args[0 + i], sig.params, locals, in_loop, in_unsafe).0);
    if d3.len() == 1 {
        let x = d3[0];
        assert(d[(d1.len() + d2.len()) as int] == x);
        lemma_args_diags_include(c.name, c.args, 0, i as nat, sig.params, locals, in_loop, in_unsafe, x);
        let m = choose|m: int| 0 <= m < args_out.1.len() && args_out.1[m] == x;
        assert((d0 + args_out.1)[d0.len() + m] == x);
    }
}

} // verus!

verus! {

// ---------------------------------------------------------------------
// Stored references.
// ---------------------------------------------------------------------

/// A stored-reference field without a label.
pub open spec fn unlabeled_ref(f: crate::ast::SpecField) -> bool {
    f.is_stored_ref && f.stored_ref_label is None
}

proof fn lemma_count_refs(fields: Seq<crate::ast::SpecField>)
    ensures
        crate::sema::count_refs(fields, false) >= crate::sema::count_refs(fields, true),
        crate::sema::count_refs(fields, true) >= 1 <==> exists|i: int| 0 <= i < fields.len() && unlabeled_ref(#[trigger] fields[i]),
        crate::sema::count_refs(fields, true) >= 2 <==> exists|i: int, j: int|
            0 <= i < j < fields.len() && unlabeled_ref(#[trigger] fields[i]) && unlabeled_ref(#[trigger] fields[j]),
    decreases fields.len(),
{
    if fields.len() > 0 {
        let init = fields.drop_last();
        lemma_count_refs(init);
        let n = fields.len() - 1;
        assert(fields[n] == fields.last());
        assert forall|i: int| 0 <= i < init.len() implies #[trigger] init[i] == fields[i] by {}
        if exists|i: int| 0 <= i < fields.len() && unlabeled_ref(#[trigger] fields[i]) {
            let i = choose|i: int| 0 <= i < fields.len() && unlabeled_ref(#[trigger] fields[i]);
            if i < n {
                assert(unlabeled_ref(init[i]));
            }
        }
        if exists|i: int, j: int| 0 <= i < j < fields.len() && unlabeled_ref(#[trigger] fields[i]) && unlabeled_ref(#[trigger] fields[j]) {
            let (i, j) = choose|i: int, j: int|
                0 <= i < j < fields.len() && unlabeled_ref(#[trigger] fields[i]) && unlabeled_ref(#[trigger] fields[j]);
            assert(unlabeled_ref(init[i]));
            if j < n {
                assert(unlabeled_ref(init[j]));
            }
        }
        if exists|i: int, j: int| 0 <= i < j < init.len() && unlabeled_ref(#[trigger] init[i]) && unlabeled_ref(#[trigger] init[j]) {
            let (i, j) = choose|i: int, j: int|
                0 <= i < j < init.len() && unlabeled_ref(#[trigger] init[i]) && unlabeled_ref(#[trigger] init[j]);
            assert(unlabeled_ref(fields[i]) && unlabeled_ref(fields[j]));
        }
        if exists|i: int| 0 <= i < init.len() && unlabeled_ref(#[trigger] init[i]) {
            let i = choose|i: int| 0 <= i < init.len() && unlabeled_ref(#[trigger] init[i]);
            assert(unlabeled_ref(fields[i]));
            if unlabeled_ref(fields.last()) {
                assert(unlabeled_ref(fields[i]) && unlabeled_ref(fields[n]));
            }
        }
    }
}

/// A struct with two stored references that have no label is reported
/// with E0207 at its name, and one with fewer never is on its own account.
pub proof fn law_unlabeled_refs_reported(prog: SpecProgram, k: int)
    requires
        0 <= k < prog.items.len(),
        prog.items[k] is Struct,
    ensures
        ({
            let s = prog.items[k]->Struct_0;
            let t = declare_all(prog.items.take(k));
            &&& (exists|i: int, j: int|
                0 <= i < j < s.fields.len() && unlabeled_ref(#[trigger] s.fields[i]) && unlabeled_ref(#[trigger] s.fields[j]))
                ==> check_spec(prog).1.contains(crate::sema::unlabeled_refs(s.name_span))
            &&& (declare(t, prog.items[k]).diags.contains(crate::sema::unlabeled_refs(s.name_span)) && !t.diags.contains(
                crate::sema::unlabeled_refs(s.name_span),
            )) ==> exists|i: int, j: int|
                0 <= i < j < s.fields.len() && unlabeled_ref(#[trigger] s.fields[i]) && unlabeled_ref(#[trigger] s.fields[j])
        }),
{
    let s = prog.items[k]->Struct_0;
    let t = declare_all(prog.items.take(k));
    lemma_count_refs(s.fields);
    let d = crate::sema::unlabeled_refs(s.name_span);
    let t2 = declare(t, prog.items[k]);
    if crate::sema::count_refs(s.fields, false) >= 2 && crate::sema::count_refs(s.fields, true) >= 2 {
        assert(t2.diags[t2.diags.len() - 1] == d);
        lemma_declared_at(prog, k, d);
    } else if t2.diags.contains(d) && !t.diags.contains(d) {
        let m = choose|m: int| 0 <= m < t2.diags.len() && t2.diags[m] == d;
        if m < t.diags.len() {
            assert(t.diags[m] == d);
        }
        reveal_strlit("E0105");
        reveal_strlit("E0207");
        assert(t2.diags[m].code == "E0105"@);
        assert("E0105"@[2] != "E0207"@[2]);
    }
}

} // verus!

verus! {

// ---------------------------------------------------------------------
// Tokens are read from the text.
// ---------------------------------------------------------------------

/// The decimal value of the digits `t`.
pub open spec fn decimal_value(t: Seq<char>) -> int
    decreases t.len(),
{
    if t.len() == 0 {
        0
    } else {
        decimal_value(t.drop_last()) * 10 + (t.last() as int - '0' as int)
    }
}

/// Whether `text` is what a token of kind `kind` is written as.
pub open spec fn token_reads(kind: SpecTokKind, text: Seq<char>) -> bool {
    match kind {
        SpecTokKind::Ident(name) => text == name && keyword_spec(text) is None,
        SpecTokKind::Str(x) => text.len() >= 2 && text[0] == '"' && text.last() == '"' && x == text.subrange(
            1,
            text.len() - 1,
        ),
        SpecTokKind::Int(v) => text.len() >= 1 && (forall|m: int| 0 <= m < text.len() ==> is_digit(#[trigger] text[m]))
            && v == decimal_value(text),
        SpecTokKind::Eof => text.len() == 0,
        SpecTokKind::Arrow => text == seq!['-', '>'],
        SpecTokKind::LParen => text == seq!['('],
        SpecTokKind::RParen => text == seq![')'],
        SpecTokKind::LBrace => text == seq!['{'],
        SpecTokKind::RBrace => text == seq!['}'],
        SpecTokKind::LBracket => text == seq!['['],
        SpecTokKind::RBracket => text == seq![']'],
        SpecTokKind::Colon => text == seq![':'],
        SpecTokKind::Comma => text == seq![','],
        SpecTokKind::Semi => text == seq![';'],
        SpecTokKind::Eq => text == seq!['='],
        SpecTokKind::Dot => text == seq!['.'],
        SpecTokKind::Star => text == seq!['*'],
        SpecTokKind::At => text == seq!['@'],
        _ => keyword_spec(text) == Some(kind),
    }
}

/// Whether the token `t` covers the characters `s[a..b]`, by its byte
/// span, and is what they spell.
pub open spec fn token_read_at(s: Seq<char>, t: SpecToken, a: int, b: int) -> bool {
    &&& 0 <= a <= b <= s.len()
    &&& t.span.start == crate::text::byte_offset(s, a)
    &&& t.span.end == crate::text::byte_offset(s, b)
    &&& token_reads(t.kind, s.subrange(a, b))
}

proof fn lemma_pos_is_offset(s: Seq<char>, i: int)
    requires
        crate::text::fits_in_memory(s),
        0 <= i <= s.len(),
    ensures
        pos_at(source_model(s), width_sum(s) as usize, i) == crate::text::byte_offset(s, i),
{
    lemma_source_prefix(s, s.len());
    crate::text::lemma_width_sum_is_encoding_len(s);
    lemma_byte_offset_mono(s, i, s.len() as int);
    assert(s.take(s.len() as int) =~= s);
    if i < s.len() {
        assert(source_model(s)[i] == crate::lexer::classify(s, i));
    }
}

proof fn lemma_digits_read(s: Seq<char>, cs: Seq<SourceChar>, a: int, b: int)
    requires
        0 <= a <= b <= s.len(),
        cs.len() == s.len(),
        forall|m: int| 0 <= m < s.len() ==> (#[trigger] cs[m]).ch == s[m],
    ensures
        crate::lexer::digits_value(cs, a, b) == decimal_value(s.subrange(a, b)),
    decreases b - a,
{
    if b > a {
        lemma_digits_read(s, cs, a, b - 1);
        assert(s.subrange(a, b).drop_last() =~= s.subrange(a, b - 1));
    }
}

proof fn lemma_step_reads(s: Seq<char>, i: int)
    requires
        crate::text::fits_in_memory(s),
        0 <= i < s.len(),
        i < lex_step(source_model(s), width_sum(s) as usize, i).0 <= s.len(),
    ensures
        ({
            let (j, t, _) = lex_step(source_model(s), width_sum(s) as usize, i);
            t is Some ==> token_read_at(s, t->0, i, j)
        }),
{
    let cs = source_model(s);
    let end = width_sum(s) as usize;
    lemma_source_prefix(s, s.len());
    assert forall|m: int| 0 <= m < s.len() implies (#[trigger] cs[m]).ch == s[m] by {
        assert(cs[m] == crate::lexer::classify(s, m));
    }
    let (j, t, _) = lex_step(cs, end, i);
    lemma_pos_is_offset(s, i);
    lemma_pos_is_offset(s, j);
    let c = cs[i].ch;
    let text = s.subrange(i, j);
    assert(c == s[i]);
    if cs[i].whitespace {
    } else if c == '/' && crate::lexer::char_at(cs, i + 1) == '/' {
    } else if crate::lexer::single_char_kind(c) is Some {
        assert(text =~= seq![c]);
    } else if c == '-' && crate::lexer::char_at(cs, i + 1) == '>' {
        assert(i + 1 < cs.len());
        assert(text =~= seq!['-', '>']);
    } else if c == '"' {
        let k = skip_while(cs, i + 1, inside_text());
        lemma_skip_while_bounds(cs, i + 1, inside_text());
        if k < cs.len() && cs[k].ch == '"' {
            assert(j == k + 1);
            assert(text.subrange(1, text.len() - 1) =~= text_of(cs, i + 1, k));
            assert(text[0] == '"');
            assert(text.last() == s[k]);
        }
    } else if is_digit(c) {
        lemma_skip_while_all(cs, i, digit_class());
        lemma_skip_while_bounds(cs, i, digit_class());
        assert forall|m: int| 0 <= m < text.len() implies is_digit(#[trigger] text[m]) by {
            assert(digit_class()(cs[i + m]));
        }
        lemma_digits_read(s, cs, i, j);
        lemma_digits_value_nonneg(cs, i, j);
    } else if cs[i].alphabetic || c == '_' {
        assert(text =~= text_of(cs, i, j));
    }
}

/// Whether some characters of `s` spell the token `t` at its span.
pub open spec fn read_from_text(s: Seq<char>, t: SpecToken) -> bool {
    exists|a: int, b: int| #[trigger] token_read_at(s, t, a, b)
}

proof fn lemma_lex_from_reads(s: Seq<char>, i: int)
    requires
        crate::text::fits_in_memory(s),
        0 <= i <= s.len(),
    ensures
        forall|k: int| 0 <= k < lex_from(source_model(s), width_sum(s) as usize, i).0.len() ==> read_from_text(
            s,
            #[trigger] lex_from(source_model(s), width_sum(s) as usize, i).0[k],
        ),
    decreases s.len() - i,
{
    let cs = source_model(s);
    let end = width_sum(s) as usize;
    lemma_source_prefix(s, s.len());
    let eof = SpecToken { kind: SpecTokKind::Eof, span: Span { start: end, end } };
    lemma_pos_is_offset(s, s.len() as int);
    assert(s.subrange(s.len() as int, s.len() as int).len() == 0);
    assert(token_read_at(s, eof, s.len() as int, s.len() as int));
    if i < s.len() {
        let (j, t, d) = lex_step(cs, end, i);
        if i < j <= cs.len() {
            lemma_lex_from_reads(s, j);
            lemma_step_reads(s, i);
            let rest = lex_from(cs, end, j).0;
            let toks = opt_seq(t) + rest;
            assert forall|k: int| 0 <= k < toks.len() implies read_from_text(s, #[trigger] toks[k]) by {
                if t is Some && k == 0 {
                    assert(token_read_at(s, toks[k], i, j));
                } else if t is Some {
                    assert(toks[k] == rest[k - 1]);
                } else {
                    assert(toks[k] == rest[k]);
                }
            }
        } else {
            assert(lex_from(cs, end, i).0[0] == eof);
        }
    } else {
        assert(lex_from(cs, end, i).0[0] == eof);
    }
}

/// Every token is read from the text: its byte span covers characters of
/// the text that spell it. A name is those characters (and not a keyword),
/// a keyword is spelled by them, quoted text is what stands between its
/// quotes, a number is the decimal value of its digits, each mark is its
/// own character (`->` its two), and the end-of-file token covers nothing.
pub proof fn law_tokens_read_from_text(s: Seq<char>)
    requires
        crate::text::fits_in_memory(s),
    ensures
        forall|k: int| 0 <= k < lex_spec(s).0.len() ==> read_from_text(s, #[trigger] lex_spec(s).0[k]),
{
    lemma_lex_from_reads(s, 0);
}

} // verus!

verus! {

// ---------------------------------------------------------------------
// Lexer diagnostics and comments are read from the text.
// ---------------------------------------------------------------------

/// Whether a character at `a` of `s` starts something of the language:
/// whitespace, a name, a number, quoted text, a mark, `->` or `//`.
pub open spec fn starts_something(s: Seq<char>, a: int) -> bool {
    let c = s[a];
    ||| white_space_char(c)
    ||| letter(c) || c == '_'
    ||| is_digit(c)
    ||| c == '"'
    ||| c == '(' || c == ')' || c == '{' || c == '}' || c == '[' || c == ']' || c == ':' || c == ','
        || c == ';' || c == '=' || c == '.' || c == '*' || c == '@'
    ||| c == '-' && a + 1 < s.len() && s[a + 1] == '>'
    ||| c == '/' && a + 1 < s.len() && s[a + 1] == '/'
}

/// Whether the diagnostic `d` covers the characters `s[a..b]`, by its byte
/// span, and is the one they call for: quoted text that reaches the end of
/// the line or of the text without a closing `"` is E0002; a run of digits
/// whose value does not fit in 64 signed bits is E0007; a single character
/// that starts nothing is E0001.
pub open spec fn diag_read_at(s: Seq<char>, d: SpecDiag, a: int, b: int) -> bool {
    let span = Span { start: crate::text::byte_offset(s, a) as usize, end: crate::text::byte_offset(s, b) as usize };
    &&& 0 <= a < b <= s.len()
    &&& span.start == crate::text::byte_offset(s, a)
    &&& span.end == crate::text::byte_offset(s, b)
    &&& {
        ||| d == crate::lexer::unterminated_text(span) && s[a] == '"' && (forall|m: int|
            a < m < b ==> #[trigger] s[m] != '"' && s[m] != '\n') && (b == s.len() || s[b] == '\n')
        ||| d == crate::lexer::number_too_big(span) && (forall|m: int| a <= m < b ==> is_digit(#[trigger] s[m]))
            && decimal_value(s.subrange(a, b)) > i64::MAX && (b == s.len() || !is_digit(s[b]))
        ||| d == crate::lexer::unknown_char(s[a], span) && b == a + 1 && !starts_something(s, a)
    }
}

/// Whether some characters of `s` call for the diagnostic `d` at its span.
pub open spec fn diag_from_text(s: Seq<char>, d: SpecDiag) -> bool {
    exists|a: int, b: int| #[trigger] diag_read_at(s, d, a, b)
}

proof fn lemma_step_diag_reads(s: Seq<char>, i: int)
    requires
        crate::text::fits_in_memory(s),
        0 <= i < s.len(),
        i < lex_step(source_model(s), width_sum(s) as usize, i).0 <= s.len(),
    ensures
        ({
            let (j, _, d) = lex_step(source_model(s), width_sum(s) as usize, i);
            d is Some ==> diag_read_at(s, d->0, i, j)
        }),
{
    let cs = source_model(s);
    let end = width_sum(s) as usize;
    lemma_source_prefix(s, s.len());
    assert forall|m: int| 0 <= m < s.len() implies (#[trigger] cs[m]).ch == s[m] && cs[m] == crate::lexer::classify(s, m) by {
        assert(cs[m] == crate::lexer::classify(s, m));
    }
    let (j, _, d) = lex_step(cs, end, i);
    lemma_pos_is_offset(s, i);
    lemma_pos_is_offset(s, j);
    let c = cs[i].ch;
    crate::text::lemma_width_sum_is_encoding_len(s);
    lemma_byte_offset_mono(s, i, s.len() as int);
    lemma_byte_offset_mono(s, j, s.len() as int);
    assert(s.take(s.len() as int) =~= s);
    if cs[i].whitespace {
    } else if c == '/' && crate::lexer::char_at(cs, i + 1) == '/' {
    } else if crate::lexer::single_char_kind(c) is Some {
    } else if c == '-' && crate::lexer::char_at(cs, i + 1) == '>' {
    } else if c == '"' {
        let k = skip_while(cs, i + 1, inside_text());
        lemma_skip_while_bounds(cs, i + 1, inside_text());
        lemma_skip_while_all(cs, i + 1, inside_text());
        if !(k < cs.len() && cs[k].ch == '"') {
            assert forall|m: int| i < m < j implies #[trigger] s[m] != '"' && s[m] != '\n' by {
                assert(inside_text()(cs[m]));
            }
        }
    } else if is_digit(c) {
        lemma_skip_while_all(cs, i, digit_class());
        lemma_skip_while_bounds(cs, i, digit_class());
        assert forall|m: int| i <= m < j implies is_digit(#[trigger] s[m]) by {
            assert(digit_class()(cs[m]));
        }
        lemma_digits_read(s, cs, i, j);
    } else if cs[i].alphabetic || c == '_' {
    } else {
        assert(!white_space_char(c));
        assert(!starts_something(s, i));
    }
}

proof fn lemma_lex_from_diags_read(s: Seq<char>, i: int)
    requires
        crate::text::fits_in_memory(s),
        0 <= i <= s.len(),
    ensures
        forall|k: int| 0 <= k < lex_from(source_model(s), width_sum(s) as usize, i).1.len() ==> diag_from_text(
            s,
            #[trigger] lex_from(source_model(s), width_sum(s) as usize, i).1[k],
        ),
    decreases s.len() - i,
{
    let cs = source_model(s);
    let end = width_sum(s) as usize;
    lemma_source_prefix(s, s.len());
    if i < s.len() {
        let (j, t, d) = lex_step(cs, end, i);
        if i < j <= cs.len() {
            lemma_lex_from_diags_read(s, j);
            lemma_step_diag_reads(s, i);
            let rest = lex_from(cs, end, j).1;
            let ds = opt_seq(d) + rest;
            assert forall|k: int| 0 <= k < ds.len() implies diag_from_text(s, #[trigger] ds[k]) by {
                if d is Some && k == 0 {
                    assert(diag_read_at(s, ds[k], i, j));
                } else if d is Some {
                    assert(ds[k] == rest[k - 1]);
                } else {
                    assert(ds[k] == rest[k]);
                }
            }
        }
    }
}

/// Every diagnostic of the lexer is called for by the text at its span:
/// E0002 for quoted text left open to the end of its line, E0007 for a run
/// of digits too big for 64 signed bits, and E0001 for a single character
/// that starts nothing of the language.
pub proof fn law_lex_diagnostics_read_from_text(s: Seq<char>)
    requires
        crate::text::fits_in_memory(s),
    ensures
        forall|k: int| 0 <= k < lex_spec(s).1.len() ==> diag_from_text(s, #[trigger] lex_spec(s).1[k]),
{
    lemma_lex_from_diags_read(s, 0);
}

/// A comment runs from `//` to the end of its line: lexing there moves to
/// the next line break (or the end of the text) and yields nothing.
pub proof fn law_comment_is_skipped(s: Seq<char>, i: int)
    requires
        0 <= i < s.len() - 1,
        s[i] == '/',
        s[i + 1] == '/',
    ensures
        ({
            let (j, t, d) = lex_step(source_model(s), width_sum(s) as usize, i);
            &&& t is None && d is None
            &&& i < j <= s.len()
            &&& j == s.len() || s[j] == '\n'
            &&& forall|m: int| i <= m < j ==> #[trigger] s[m] != '\n'
        }),
{
    let cs = source_model(s);
    lemma_source_prefix(s, s.len());
    assert forall|m: int| 0 <= m < s.len() implies (#[trigger] cs[m]).ch == s[m] by {
        assert(cs[m] == crate::lexer::classify(s, m));
    }
    assert(!white_space_char(s[i]));
    assert(cs[i] == crate::lexer::classify(s, i));
    lemma_skip_while_bounds(cs, i, crate::lexer::not_newline());
    lemma_skip_while_all(cs, i, crate::lexer::not_newline());
    let j = skip_while(cs, i, crate::lexer::not_newline());
    assert forall|m: int| i <= m < j implies #[trigger] s[m] != '\n' by {
        assert(crate::lexer::not_newline()(cs[m]));
    }
}

} // verus!

verus! {

// ---------------------------------------------------------------------
// What the parser records of keywords.
// ---------------------------------------------------------------------

/// The access convention the keyword `k` in front of a parameter or an
/// argument asks for: `mut` a mutable borrow, `take` a move, and anything
/// else (no keyword) a shared read.
pub open spec fn convention_of(k: SpecTokKind) -> crate::ast::AccessConvention {
    match k {
        SpecTokKind::KwMutate => crate::ast::AccessConvention::Mutate,
        SpecTokKind::KwMove => crate::ast::AccessConvention::Move,
        _ => crate::ast::AccessConvention::Read,
    }
}

/// A function or a top-level struct is exported exactly when it starts with
/// `pub`, and a nested struct never is; a parameter or an argument takes
/// the convention its leading keyword asks for.
pub proof fn law_keywords_recorded(ts: Seq<SpecToken>, p: int)
    ensures
        match spec_func(ts, p) {
            Ok((f, _)) => f.is_pub == (peek(ts, p).kind is KwPub),
            _ => true,
        },
        match crate::parser::spec_struct_def(ts, p, false) {
            Ok((sd, _)) => sd.is_pub == (peek(ts, p).kind is KwPub),
            _ => true,
        },
        match crate::parser::spec_struct_def(ts, p, true) {
            Ok((sd, _)) => !sd.is_pub,
            _ => true,
        },
        match spec_param(ts, p) {
            Ok((prm, _)) => prm.convention == convention_of(peek(ts, p).kind),
            _ => true,
        },
        match spec_call_arg(ts, p) {
            Ok((arg, _)) => arg.convention == convention_of(peek(ts, p).kind),
            _ => true,
        },
{
}

} // verus!

verus! {

// ---------------------------------------------------------------------
// Every call in every body is checked.
// ---------------------------------------------------------------------

/// Whether the call `c` occurs in the statement `s`, at any depth of loops
/// and `unsafe` blocks.
pub open spec fn stmt_has_call(s: SpecStmt, c: SpecCall) -> bool
    decreases s,
{
    match s {
        SpecStmt::Call(c2) => c2 == c,
        SpecStmt::Loop(inner, _) => body_has_call(inner, c),
        SpecStmt::Unsafe(inner, _) => body_has_call(inner, c),
        _ => false,
    }
}

/// Whether the call `c` occurs in the statements `ss`.
pub open spec fn body_has_call(ss: Seq<SpecStmt>, c: SpecCall) -> bool
    decreases ss,
{
    if ss.len() == 0 {
        false
    } else {
        stmt_has_call(ss[0], c) || body_has_call(ss.subrange(1, ss.len() as int), c)
    }
}

/// The error a call earns by its name and its number of arguments alone:
/// `print` with other than one argument (E0103), or a name that no
/// function has (E0102, with its suggestion).
pub open spec fn call_error(c: SpecCall, funcs: Seq<(Seq<char>, SpecSig)>) -> Option<SpecDiag> {
    if c.name == syntax::BUILTIN_PRINT@ {
        if c.args.len() != 1 {
            Some(crate::sema::print_arity(c.name_span))
        } else {
            None
        }
    } else if crate::sema::lookup_func(funcs, c.name) is None {
        Some(crate::sema::unknown_function(c.name, funcs, c.name_span))
    } else {
        None
    }
}

/// Checking the call `c` reports `x` whatever the locals and whether or
/// not it stands in a loop or in `unsafe`.
spec fn call_always_reports(c: SpecCall, funcs: Seq<(Seq<char>, SpecSig)>, x: SpecDiag) -> bool {
    forall|l: Locals, lp: bool, us: bool| #[trigger] check_call_spec(c, funcs, l, lp, us).1.contains(x)
}

proof fn lemma_stmt_call_reports(s: SpecStmt, c: SpecCall, funcs: Seq<(Seq<char>, SpecSig)>, x: SpecDiag, locals: Locals, in_loop: bool, in_unsafe: bool)
    requires
        stmt_has_call(s, c),
        call_always_reports(c, funcs, x),
    ensures
        check_stmt_spec(s, funcs, locals, in_loop, in_unsafe).diags.contains(x),
    decreases s,
{
    match s {
        SpecStmt::Call(_) => {
            assert(check_call_spec(c, funcs, locals, in_loop, in_unsafe).1.contains(x));
        },
        SpecStmt::Loop(inner, _) => lemma_stmts_call_reports(inner, c, funcs, x, locals, true, in_unsafe),
        SpecStmt::Unsafe(inner, _) => lemma_stmts_call_reports(inner, c, funcs, x, locals, in_loop, true),
        _ => {},
    }
}

proof fn lemma_stmts_call_reports(ss: Seq<SpecStmt>, c: SpecCall, funcs: Seq<(Seq<char>, SpecSig)>, x: SpecDiag, locals: Locals, in_loop: bool, in_unsafe: bool)
    requires
        body_has_call(ss, c),
        call_always_reports(c, funcs, x),
    ensures
        check_stmts_spec(ss, funcs, locals, in_loop, in_unsafe).diags.contains(x),
    decreases ss,
{
    let first = check_stmt_spec(ss[0], funcs, locals, in_loop, in_unsafe);
    let tail = ss.subrange(1, ss.len() as int);
    let rest = check_stmts_spec(tail, funcs, first.locals, in_loop, in_unsafe);
    if stmt_has_call(ss[0], c) {
        lemma_stmt_call_reports(ss[0], c, funcs, x, locals, in_loop, in_unsafe);
    } else {
        lemma_stmts_call_reports(tail, c, funcs, x, first.locals, in_loop, in_unsafe);
    }
    lemma_concat_contains(first.diags, rest.diags, x);
}

/// What a call in the body of item `k` always earns is reported.
proof fn lemma_body_call_reported(prog: SpecProgram, k: int, c: SpecCall, x: SpecDiag)
    requires
        0 <= k < prog.items.len(),
        prog.items[k] is Func,
        body_has_call(prog.items[k]->Func_0.body, c),
        call_always_reports(c, declare_all(prog.items).funcs, x),
    ensures
        check_spec(prog).1.contains(x),
{
    let t = declare_all(prog.items);
    let taken = crate::sema::items_refs(prog.items, t.consts);
    let f = prog.items[k]->Func_0;
    let locals = f.params.map_values(|p: crate::ast::SpecParam| (p.name, p.ty));
    lemma_stmts_call_reports(f.body, c, t.funcs, x, locals, false, false);
    lemma_items_diags_include(prog.items, t.funcs, taken, k, x);
    let d_main = if has_func(t.funcs, "main"@) {
        Seq::empty()
    } else {
        seq![no_main()]
    };
    lemma_concat_contains(t.diags + d_main, check_items_spec(prog.items, t.funcs, taken).1, x);
}

proof fn lemma_items_diags_include(items: Seq<SpecItem>, funcs: Seq<(Seq<char>, SpecSig)>, taken: Seq<Seq<char>>, k: int, x: SpecDiag)
    requires
        0 <= k < items.len(),
        check_item_spec(items[k], funcs, taken).1.contains(x),
    ensures
        check_items_spec(items, funcs, taken).1.contains(x),
    decreases items.len(),
{
    let init = items.drop_last();
    let (prev, pd) = check_items_spec(init, funcs, taken);
    let (it, d) = check_item_spec(items.last(), funcs, taken);
    if k < init.len() {
        assert(init[k] == items[k]);
        lemma_items_diags_include(init, funcs, taken, k, x);
    } else {
        assert(items[k] == items.last());
    }
    lemma_concat_contains(pd, d, x);
}

/// Every call in every function body is checked, at any depth: wherever a
/// call of `print` has other than one argument, the checker reports E0103
/// for it, and wherever a call names no function, E0102.
pub proof fn law_every_call_is_checked(prog: SpecProgram, k: int, c: SpecCall)
    requires
        0 <= k < prog.items.len(),
        prog.items[k] is Func,
        body_has_call(prog.items[k]->Func_0.body, c),
        call_error(c, declare_all(prog.items).funcs) is Some,
    ensures
        check_spec(prog).1.contains(call_error(c, declare_all(prog.items).funcs)->0),
{
    let funcs = declare_all(prog.items).funcs;
    let x = call_error(c, funcs)->0;
    assert forall|l: Locals, lp: bool, us: bool| #[trigger] check_call_spec(c, funcs, l, lp, us).1.contains(x) by {
        assert(check_call_spec(c, funcs, l, lp, us).1[0] == x);
    }
    lemma_body_call_reported(prog, k, c, x);
}

/// The error the conventions give argument `i` of a call of a defined
/// function, whatever surrounds the call: see `law_call_conventions`.
pub open spec fn convention_error(c: SpecCall, funcs: Seq<(Seq<char>, SpecSig)>, i: int) -> Option<SpecDiag> {
    let param = crate::sema::lookup_func(funcs, c.name)->0.params[i];
    let arg = c.args[i];
    if arg.convention == crate::ast::AccessConvention::Move && param.0 != crate::ast::AccessConvention::Move {
        Some(crate::sema::take_not_consumed(arg.span))
    } else if arg.convention == crate::ast::AccessConvention::Mutate && param.0 != crate::ast::AccessConvention::Mutate {
        Some(crate::sema::mut_not_accepted(arg.span))
    } else if arg.convention == crate::ast::AccessConvention::Read && param.0 == crate::ast::AccessConvention::Mutate {
        Some(missing_mut(c.name, arg))
    } else if arg.convention == crate::ast::AccessConvention::Read && param.0 == crate::ast::AccessConvention::Move
        && arg.expr is Ident && !crate::sema::cloneable(param.1) {
        Some(crate::sema::take_required(c.name, (i + 1) as nat, arg.expr->Ident_0, arg.expr->Ident_1))
    } else {
        None
    }
}

/// Every argument of every call in every function body is held to its
/// parameter's convention, at any depth: each mismatch is reported.
pub proof fn law_every_argument_is_checked(prog: SpecProgram, k: int, c: SpecCall, i: int)
    requires
        0 <= k < prog.items.len(),
        prog.items[k] is Func,
        body_has_call(prog.items[k]->Func_0.body, c),
        c.name != syntax::BUILTIN_PRINT@,
        crate::sema::lookup_func(declare_all(prog.items).funcs, c.name) is Some,
        0 <= i < c.args.len(),
        i < crate::sema::lookup_func(declare_all(prog.items).funcs, c.name)->0.params.len(),
        convention_error(c, declare_all(prog.items).funcs, i) is Some,
    ensures
        check_spec(prog).1.contains(convention_error(c, declare_all(prog.items).funcs, i)->0),
{
    let funcs = declare_all(prog.items).funcs;
    let x = convention_error(c, funcs, i)->0;
    assert forall|l: Locals, lp: bool, us: bool| #[trigger] check_call_spec(c, funcs, l, lp, us).1.contains(x) by {
        law_call_conventions(c, funcs, l, lp, us, i);
    }
    lemma_body_call_reported(prog, k, c, x);
}

} // verus!

verus! {

// ---------------------------------------------------------------------
// What an unknown name is told.
// ---------------------------------------------------------------------

/// Whether `c` is a name a call may mean: a defined function, or `print`.
pub open spec fn callable(funcs: Seq<(Seq<char>, SpecSig)>, c: Seq<char>) -> bool {
    c == syntax::BUILTIN_PRINT@ || exists|k: int| 0 <= k < funcs.len() && (#[trigger] funcs[k]).0 == c
}

/// A call of an unknown name is answered with a suggestion exactly when
/// some callable name is within edit distance 2: then the fix offers one
/// that no callable name is closer than; otherwise the fix says to define
/// the function first.
pub proof fn law_unknown_name_fix(name: Seq<char>, funcs: Seq<(Seq<char>, SpecSig)>, span: Span)
    ensures
        ({
            let d = crate::sema::unknown_function(name, funcs, span);
            &&& d.code == "E0102"@
            &&& d.span == Some(span)
            &&& (exists|c: Seq<char>| callable(funcs, c) && edit_distance_spec(name, c) <= 2) ==> exists|c: Seq<char>|
                #![trigger callable(funcs, c)]
                callable(funcs, c) && edit_distance_spec(name, c) <= 2 && (forall|o: Seq<char>|
                    callable(funcs, o) ==> edit_distance_spec(name, o) >= edit_distance_spec(name, c)) && d.fix
                    == "did you mean `"@ + c + "`?"@
            &&& !(exists|c: Seq<char>| callable(funcs, c) && edit_distance_spec(name, c) <= 2) ==> d.fix
                == "define it first ("@ + syntax::KW_FN@ + " "@ + name + "() { ... }), or call one that exists"@
        }),
{
    let cands = crate::sema::candidates(funcs);
    law_suggestion_is_closest(name, cands);
    assert(cands.len() == funcs.len() + 1);
    assert forall|o: Seq<char>| callable(funcs, o) implies exists|m: int| 0 <= m < cands.len() && #[trigger] cands[m] == o by {
        if o == syntax::BUILTIN_PRINT@ {
            assert(cands[funcs.len() as int] == o);
        } else {
            let k = choose|k: int| 0 <= k < funcs.len() && (#[trigger] funcs[k]).0 == o;
            assert(cands[k] == o);
        }
    }
    assert forall|m: int| 0 <= m < cands.len() implies callable(funcs, #[trigger] cands[m]) by {
        if m < funcs.len() {
            assert(cands[m] == funcs[m].0);
        } else {
            assert(cands[m] == syntax::BUILTIN_PRINT@);
        }
    }
    match best_candidate(name, cands) {
        Some((c, dd)) => {
            let i = choose|i: int| 0 <= i < cands.len() && cands[i] == c && (forall|k: int|
                0 <= k < i ==> edit_distance_spec(name, #[trigger] cands[k]) > dd);
            assert(callable(funcs, cands[i]));
            assert forall|o: Seq<char>| callable(funcs, o) implies edit_distance_spec(name, o) >= edit_distance_spec(name, c) by {
                let m = choose|m: int| 0 <= m < cands.len() && #[trigger] cands[m] == o;
                assert(edit_distance_spec(name, cands[m]) >= dd);
            }
        },
        None => {
            if exists|c: Seq<char>| callable(funcs, c) && edit_distance_spec(name, c) <= 2 {
                let c = choose|c: Seq<char>| callable(funcs, c) && edit_distance_spec(name, c) <= 2;
                let m = choose|m: int| 0 <= m < cands.len() && #[trigger] cands[m] == c;
                assert(edit_distance_spec(name, cands[m]) > 2);
            }
        },
    }
}

} // verus!

verus! {

// ---------------------------------------------------------------------
// Where a diagnostic points.
// ---------------------------------------------------------------------

/// The number of line breaks in `t`.
pub open spec fn newlines(t: Seq<char>) -> nat
    decreases t.len(),
{
    if t.len() == 0 {
        0
    } else {
        newlines(t.drop_last()) + if t.last() == '\n' {
            1nat
        } else {
            0nat
        }
    }
}

/// The number of characters of `t` after its last line break (all of them
/// when it has none).
pub open spec fn since_line_break(t: Seq<char>) -> nat
    decreases t.len(),
{
    if t.len() == 0 {
        0
    } else if t.last() == '\n' {
        0
    } else {
        since_line_break(t.drop_last()) + 1
    }
}

proof fn lemma_chars_before(s: Seq<char>, k: int, j: int)
    requires
        0 <= j <= k <= s.len(),
    ensures
        crate::diag::chars_before(s, crate::text::byte_offset(s, k), j) == k,
    decreases k - j,
{
    if j < k {
        lemma_byte_offset_mono(s, j, k);
        lemma_chars_before(s, k, j + 1);
    }
}

proof fn lemma_line_col_at(s: Seq<char>, k: int)
    requires
        0 <= k <= s.len(),
    ensures
        crate::diag::line_col_at(s, k) == (1 + newlines(s.take(k)), 1 + since_line_break(s.take(k))),
    decreases k,
{
    if k > 0 {
        lemma_line_col_at(s, k - 1);
        assert(s.take(k).drop_last() =~= s.take(k - 1));
        assert(s.take(k).last() == s[k - 1]);
    } else {
        assert(s.take(0).len() == 0);
    }
}

/// A place in the text is shown at line 1 plus the number of line breaks
/// before it, and at column 1 plus the number of characters since the last
/// of them: lines and columns count characters, not bytes.
pub proof fn law_line_and_column(s: Seq<char>, k: int)
    requires
        0 <= k <= s.len(),
    ensures
        crate::diag::line_col_spec(s, crate::text::byte_offset(s, k)) == (
            1 + newlines(s.take(k)),
            1 + since_line_break(s.take(k)),
        ),
{
    lemma_chars_before(s, k, 0);
    lemma_line_col_at(s, k);
}

} // verus!
