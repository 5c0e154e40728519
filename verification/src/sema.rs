//! Semantic checks. Everything here exists so that a backend can stay
//! "dumb": by the time a Program leaves the checker without errors, every
//! user-facing problem has been reported.
//!
//! The checker reports all problems at once, in a fixed order: problems
//! with the definitions themselves (in definition order), then a missing
//! `main`, then the problems inside each function body (in definition
//! order, statement by statement).
use crate::ast::{
    copy_type, lemma_stmts_view_index, lemma_stmts_view_len, lemma_stmts_view_push,
    stmts_view, AccessConvention, Call, CallArg, ConstAttr, ConstDef, Expr, Func, Item,
    Program, RustConstKind, SpecCall, SpecCallArg, SpecConstDef, SpecExpr, SpecField, SpecFunc,
    SpecItem, SpecParam, SpecProgram, SpecStmt, SpecType, Stmt, Type,
};
use crate::diag::{spec_error, spec_lint, Diagnostic, Span, SpecDiag};
use crate::syntax;
use crate::text::{
    chars_of, contains_text, decimal, decimal_string, has_infix, has_prefix, push_text,
    starts_with_text,
};
use vstd::prelude::*;

verus! {

// ---------------------------------------------------------------------
// Edit distance.
// ---------------------------------------------------------------------

pub open spec fn min3(x: nat, y: nat, z: nat) -> nat {
    if x <= y && x <= z {
        x
    } else if y <= z {
        y
    } else {
        z
    }
}

/// The Levenshtein distance between the first `i` characters of `a` and the
/// first `j` characters of `b`: the fewest single-character insertions,
/// deletions and substitutions that turn one into the other.
pub open spec fn lev(a: Seq<char>, b: Seq<char>, i: nat, j: nat) -> nat
    decreases i + j,
{
    if i == 0 {
        j
    } else if j == 0 {
        i
    } else {
        let cost: nat = if a[i - 1] == b[j - 1] {
            0
        } else {
            1
        };
        min3(
            lev(a, b, (i - 1) as nat, j) + 1,
            lev(a, b, i, (j - 1) as nat) + 1,
            lev(a, b, (i - 1) as nat, (j - 1) as nat) + cost,
        )
    }
}

/// The Levenshtein distance between `a` and `b`.
pub open spec fn edit_distance_spec(a: Seq<char>, b: Seq<char>) -> nat {
    lev(a, b, a.len(), b.len())
}

pub proof fn lemma_lev_bound(a: Seq<char>, b: Seq<char>, i: nat, j: nat)
    ensures
        lev(a, b, i, j) <= if i >= j { i } else { j },
    decreases i + j,
{
    if i > 0 && j > 0 {
        lemma_lev_bound(a, b, (i - 1) as nat, (j - 1) as nat);
    }
}

// ---------------------------------------------------------------------
// The model of the checker.
// ---------------------------------------------------------------------

/// What the checker records of a function: its parameters' conventions and
/// types, and its return.
pub struct SpecSig {
    pub params: Seq<(AccessConvention, SpecType)>,
    pub return_type: Option<SpecType>,
    pub is_view_return: bool,
}

pub open spec fn sig_of(f: SpecFunc) -> SpecSig {
    SpecSig {
        params: f.params.map_values(|p: SpecParam| (p.convention, p.ty)),
        return_type: f.return_type,
        is_view_return: f.is_view_return,
    }
}

/// The index of the first entry named `name`, searching from `k`.
pub open spec fn find_func_from(funcs: Seq<(Seq<char>, SpecSig)>, name: Seq<char>, k: int) -> Option<int>
    decreases funcs.len() - k,
{
    if k < 0 || k >= funcs.len() {
        None
    } else if funcs[k].0 == name {
        Some(k)
    } else {
        find_func_from(funcs, name, k + 1)
    }
}

pub open spec fn lookup_func(funcs: Seq<(Seq<char>, SpecSig)>, name: Seq<char>) -> Option<SpecSig> {
    match find_func_from(funcs, name, 0) {
        Some(k) => Some(funcs[k].1),
        None => None,
    }
}

pub open spec fn has_func(funcs: Seq<(Seq<char>, SpecSig)>, name: Seq<char>) -> bool {
    find_func_from(funcs, name, 0) is Some
}

/// The tables built from the definitions, and the diagnostics about them.
pub struct Tables {
    pub funcs: Seq<(Seq<char>, SpecSig)>,
    pub structs: Seq<Seq<char>>,
    pub consts: Seq<Seq<char>>,
    pub diags: Seq<SpecDiag>,
}

pub open spec fn is_viewable_return_spec(ty: SpecType) -> bool {
    true
}

/// The number of stored-reference fields, counting only unlabeled ones when
/// `unlabeled_only`.
pub open spec fn count_refs(fields: Seq<SpecField>, unlabeled_only: bool) -> nat
    decreases fields.len(),
{
    if fields.len() == 0 {
        0
    } else {
        let f = fields.last();
        let here: nat = if f.is_stored_ref && (!unlabeled_only || f.stored_ref_label is None) {
            1
        } else {
            0
        };
        count_refs(fields.drop_last(), unlabeled_only) + here
    }
}

pub open spec fn builtin_redefined(span: Span) -> SpecDiag {
    spec_error(
        "E0106"@,
        "the name `"@ + syntax::BUILTIN_PRINT@ + "` is built in and can't be redefined"@,
        "`"@ + syntax::BUILTIN_PRINT@ + "` is provided by the language itself"@,
        "choose a different name for this function"@,
        Some(span),
    )
}

pub open spec fn defined_twice(name: Seq<char>, why: Seq<char>, span: Span) -> SpecDiag {
    spec_error(
        "E0105"@,
        "`"@ + name + "` is defined twice"@,
        why,
        "rename or remove one of the definitions"@,
        Some(span),
    )
}

pub open spec fn view_not_allowed(span: Span) -> SpecDiag {
    spec_error(
        "E0206"@,
        "`view` can only be used on return types that refer to `self`"@,
        "`view` marks a borrow of data owned by the receiver"@,
        "return an owned value instead, or use `view` only on methods"@,
        Some(span),
    )
}

pub open spec fn unlabeled_refs(span: Span) -> SpecDiag {
    spec_error(
        "E0207"@,
        "this struct has more than one stored reference without a label"@,
        "when two `ref` fields may come from different places, each needs a label like `ref[src]`"@,
        "add labels: `ref[a] x: String` and `ref[b] y: String`"@,
        Some(span),
    )
}

pub open spec fn no_main() -> SpecDiag {
    spec_error(
        "E0101"@,
        "this program has no `main` function"@,
        "running a program starts at `fn main`, and this file doesn't define one"@,
        "add one to this file: fn main() { ... }"@,
        None,
    )
}

/// The tables and diagnostics after one more definition.
pub open spec fn declare(t: Tables, item: SpecItem) -> Tables {
    match item {
        SpecItem::Func(f) => {
            let t1 = if f.name == syntax::BUILTIN_PRINT@ {
                Tables { diags: t.diags.push(builtin_redefined(f.name_span)), ..t }
            } else if has_func(t.funcs, f.name) {
                Tables {
                    diags: t.diags.push(
                        defined_twice(
                            f.name,
                            "every function needs a unique name so calls aren't ambiguous"@,
                            f.name_span,
                        ),
                    ),
                    ..t
                }
            } else {
                Tables { funcs: t.funcs.push((f.name, sig_of(f))), ..t }
            };
            if f.is_view_return && f.return_type is Some && !is_viewable_return_spec(f.return_type->0) {
                Tables { diags: t1.diags.push(view_not_allowed(f.name_span)), ..t1 }
            } else {
                t1
            }
        },
        SpecItem::Struct(s) => {
            let t1 = if t.structs.contains(s.name) {
                Tables {
                    diags: t.diags.push(defined_twice(s.name, "every struct needs a unique name"@, s.name_span)),
                    ..t
                }
            } else {
                Tables { structs: t.structs.push(s.name), ..t }
            };
            if count_refs(s.fields, false) >= 2 && count_refs(s.fields, true) >= 2 {
                Tables { diags: t1.diags.push(unlabeled_refs(s.name_span)), ..t1 }
            } else {
                t1
            }
        },
        SpecItem::Const(c) => if t.consts.contains(c.name) {
            Tables {
                diags: t.diags.push(defined_twice(c.name, "every const needs a unique name"@, c.name_span)),
                ..t
            }
        } else {
            Tables { consts: t.consts.push(c.name), ..t }
        },
    }
}

/// The tables and diagnostics after all the definitions, in order.
pub open spec fn declare_all(items: Seq<SpecItem>) -> Tables
    decreases items.len(),
{
    if items.len() == 0 {
        Tables { funcs: Seq::empty(), structs: Seq::empty(), consts: Seq::empty(), diags: Seq::empty() }
    } else {
        declare(declare_all(items.drop_last()), items.last())
    }
}

// ----- which consts are used by name -----

pub open spec fn expr_refs(e: SpecExpr, consts: Seq<Seq<char>>) -> Seq<Seq<char>>
    decreases e,
{
    match e {
        SpecExpr::Ident(n, _) => if consts.contains(n) {
            seq![n]
        } else {
            Seq::empty()
        },
        SpecExpr::Deref(inner, _) => expr_refs(*inner, consts),
        SpecExpr::Member(inner, _, _) => expr_refs(*inner, consts),
        _ => Seq::empty(),
    }
}

/// The consts that the arguments of a call name directly.
pub open spec fn args_refs(args: Seq<SpecCallArg>, consts: Seq<Seq<char>>) -> Seq<Seq<char>>
    decreases args.len(),
{
    if args.len() == 0 {
        Seq::empty()
    } else {
        let here = match args[0].expr {
            SpecExpr::Ident(n, _) => if consts.contains(n) {
                seq![n]
            } else {
                Seq::empty()
            },
            _ => Seq::empty(),
        };
        here + args_refs(args.subrange(1, args.len() as int), consts)
    }
}

pub open spec fn stmt_refs(s: SpecStmt, consts: Seq<Seq<char>>) -> Seq<Seq<char>>
    decreases s,
{
    match s {
        SpecStmt::Call(c) => args_refs(c.args, consts),
        SpecStmt::Val(b) => expr_refs(b.init, consts),
        SpecStmt::Return(e, _) => expr_refs(e, consts),
        SpecStmt::Loop(inner, _) => stmts_refs(inner, consts),
        SpecStmt::Unsafe(inner, _) => stmts_refs(inner, consts),
    }
}

pub open spec fn stmts_refs(ss: Seq<SpecStmt>, consts: Seq<Seq<char>>) -> Seq<Seq<char>>
    decreases ss,
{
    if ss.len() == 0 {
        Seq::empty()
    } else {
        stmt_refs(ss[0], consts) + stmts_refs(ss.subrange(1, ss.len() as int), consts)
    }
}

/// The consts named in the function bodies, in order.
pub open spec fn items_refs(items: Seq<SpecItem>, consts: Seq<Seq<char>>) -> Seq<Seq<char>>
    decreases items.len(),
{
    if items.len() == 0 {
        Seq::empty()
    } else {
        let here = match items.last() {
            SpecItem::Func(f) => stmts_refs(f.body, consts),
            _ => Seq::empty(),
        };
        items_refs(items.drop_last(), consts) + here
    }
}

/// A const whose value names an atomic or a mutex needs interior mutability.
pub open spec fn interior_value(v: SpecExpr) -> bool {
    match v {
        SpecExpr::Ident(n, _) => has_prefix(n, "Atomic"@) || has_infix(n, "Mutex"@),
        _ => false,
    }
}

/// A const becomes a Rust `static` when asked to, when its address is taken
/// (it is named in a function body), or when it needs interior mutability.
pub open spec fn const_kind(c: SpecConstDef, taken: Seq<Seq<char>>) -> RustConstKind {
    if c.attrs.contains(ConstAttr::ForceStatic) || taken.contains(c.name) || interior_value(c.value) {
        RustConstKind::Static
    } else {
        RustConstKind::Const
    }
}

// ----- checking function bodies -----

pub open spec fn cloneable(t: SpecType) -> bool
    decreases t,
{
    match t {
        SpecType::Int | SpecType::Bool | SpecType::Float | SpecType::Str => true,
        SpecType::List(inner) => cloneable(*inner),
        SpecType::Shared(inner) => cloneable(*inner),
        SpecType::Named(name) => name != "NoClone"@,
    }
}

/// The type of the local `name`: the last binding of it wins.
pub open spec fn lookup_local(locals: Seq<(Seq<char>, SpecType)>, name: Seq<char>) -> Option<SpecType>
    decreases locals.len(),
{
    if locals.len() == 0 {
        None
    } else if locals.last().0 == name {
        Some(locals.last().1)
    } else {
        lookup_local(locals.drop_last(), name)
    }
}

pub open spec fn deref_outside_unsafe(span: Span) -> SpecDiag {
    spec_error(
        "E0208"@,
        "`*` isn't allowed here"@,
        "dereferencing with `*` is only for expert code inside `unsafe`"@,
        "remove `*`, or wrap this code in `unsafe { ... }`"@,
        Some(span),
    )
}

/// The diagnostics about one value: `*` is only allowed inside `unsafe`.
pub open spec fn check_expr_spec(e: SpecExpr, in_unsafe: bool) -> Seq<SpecDiag>
    decreases e,
{
    match e {
        SpecExpr::Deref(inner, span) => if !in_unsafe {
            seq![deref_outside_unsafe(span)]
        } else {
            check_expr_spec(*inner, in_unsafe)
        },
        SpecExpr::Member(inner, _, _) => check_expr_spec(*inner, in_unsafe),
        _ => Seq::empty(),
    }
}

pub open spec fn print_arity(span: Span) -> SpecDiag {
    spec_error(
        "E0103"@,
        "`"@ + syntax::BUILTIN_PRINT@ + "` needs exactly one thing to print"@,
        "printing nothing isn't meaningful"@,
        "e.g. "@ + syntax::BUILTIN_PRINT@ + "(\"hello\")"@,
        Some(span),
    )
}

/// The closest candidate within edit distance 2, the first one among
/// equally close ones.
pub open spec fn best_candidate(name: Seq<char>, cands: Seq<Seq<char>>) -> Option<(Seq<char>, nat)>
    decreases cands.len(),
{
    if cands.len() == 0 {
        None
    } else {
        let b = best_candidate(name, cands.drop_last());
        let c = cands.last();
        let d = edit_distance_spec(name, c);
        if d <= 2 && (b is None || d < (b->0).1) {
            Some((c, d))
        } else {
            b
        }
    }
}

/// The names a misspelled call may have meant: the defined functions, in
/// definition order, then the built-in `print`.
pub open spec fn candidates(funcs: Seq<(Seq<char>, SpecSig)>) -> Seq<Seq<char>> {
    funcs.map_values(|e: (Seq<char>, SpecSig)| e.0).push(syntax::BUILTIN_PRINT@)
}

pub open spec fn unknown_function(name: Seq<char>, funcs: Seq<(Seq<char>, SpecSig)>, span: Span) -> SpecDiag {
    let fix = match best_candidate(name, candidates(funcs)) {
        Some((cand, _)) => "did you mean `"@ + cand + "`?"@,
        None => "define it first ("@ + syntax::KW_FN@ + " "@ + name + "() { ... }), or call one that exists"@,
    };
    spec_error(
        "E0102"@,
        "nothing named `"@ + name + "` exists here"@,
        "only functions that have been defined (or built in, like `"@ + syntax::BUILTIN_PRINT@ + "`) can be called"@,
        fix,
        Some(span),
    )
}

pub open spec fn arity_mismatch(name: Seq<char>, expected: nat, got: nat, span: Span) -> SpecDiag {
    spec_error(
        "E0104"@,
        "`"@ + name + "` expects "@ + decimal(expected) + " argument"@ + (if expected == 1 {
            ""@
        } else {
            "s"@
        }) + ", got "@ + decimal(got),
        "every argument must match a parameter"@,
        "check the definition of `"@ + name + "`"@,
        Some(span),
    )
}

pub open spec fn implicit_clone_lint(call: Seq<char>, name: Seq<char>, span: Span) -> SpecDiag {
    spec_lint(
        "L0201"@,
        "implicit clone of `"@ + name + "`; write `"@ + syntax::KW_MOVE@ + " "@ + name
            + "` to transfer ownership or `.clone()` to silence this warning"@,
        "`"@ + call + "` expects to take ownership of this value"@,
        "write `"@ + syntax::KW_MOVE@ + " "@ + name + "` to move, or `"@ + name + " .clone()` to copy explicitly"@,
        Some(span),
    )
}

pub open spec fn take_required(call: Seq<char>, index: nat, name: Seq<char>, span: Span) -> SpecDiag {
    spec_error(
        "E0201"@,
        "`"@ + call + "` needs `"@ + syntax::KW_MOVE@ + "` here — this value can't be copied"@,
        "parameter `"@ + decimal(index) + "` takes ownership; passing `"@ + name + "` without `"@
            + syntax::KW_MOVE@ + "` would have to copy it, but this type can't be copied"@,
        "write `"@ + syntax::KW_MOVE@ + " "@ + name + "` to transfer ownership"@,
        Some(span),
    )
}

pub open spec fn mut_required(call: Seq<char>, name: Seq<char>, span: Span) -> SpecDiag {
    spec_error(
        "E0202"@,
        "parameter `"@ + name + "` requires `"@ + syntax::KW_MUTATE@ + "` at the call site"@,
        "`"@ + call + "` needs to change this value while it borrows it"@,
        "write `"@ + syntax::KW_MUTATE@ + " "@ + name + "` when calling `"@ + call + "`"@,
        Some(span),
    )
}

/// `mut` left out for an argument that is not a plain name.
pub open spec fn mut_required_here(call: Seq<char>, span: Span) -> SpecDiag {
    spec_error(
        "E0202"@,
        "this argument requires `"@ + syntax::KW_MUTATE@ + "` at the call site"@,
        "`"@ + call + "` needs to change this value while it borrows it"@,
        "write `"@ + syntax::KW_MUTATE@ + "` before this argument when calling `"@ + call + "`"@,
        Some(span),
    )
}

/// `mut` written for a parameter that is not `mut`.
pub open spec fn mut_not_accepted(span: Span) -> SpecDiag {
    spec_error(
        "E0204"@,
        "`"@ + syntax::KW_MUTATE@ + "` passed to a parameter that does not change its value"@,
        "only `"@ + syntax::KW_MUTATE@ + "` parameters accept a value to change at the call site"@,
        "remove `"@ + syntax::KW_MUTATE@ + "` or change the parameter to `"@ + syntax::KW_MUTATE@ + "`"@,
        Some(span),
    )
}

pub open spec fn take_not_consumed(span: Span) -> SpecDiag {
    spec_error(
        "E0203"@,
        "`"@ + syntax::KW_MOVE@ + "` passed to a parameter that does not consume"@,
        "only `take` parameters accept a moved value at the call site"@,
        "remove `"@ + syntax::KW_MOVE@ + "` or change the parameter to `take`"@,
        Some(span),
    )
}

pub open spec fn shared_in_loop_lint(name: Seq<char>, span: Span) -> SpecDiag {
    spec_lint(
        "L0202"@,
        "auto-cloned `"@ + name + "` inside a loop; consider hoisting or caching"@,
        "shared handles are cloned when used across a loop boundary"@,
        "hoist `"@ + name + "` before the loop, or clone once outside"@,
        Some(span),
    )
}

/// The convention rules for the `i`-th argument against its parameter.
pub open spec fn convention_check(
    call: Seq<char>,
    i: nat,
    arg: SpecCallArg,
    param: (AccessConvention, SpecType),
) -> (SpecCallArg, Seq<SpecDiag>) {
    match (param.0, arg.convention) {
        (AccessConvention::Move, AccessConvention::Read) => match arg.expr {
            SpecExpr::Ident(name, span) => if cloneable(param.1) {
                (SpecCallArg { implicit_clone: true, ..arg }, seq![implicit_clone_lint(call, name, span)])
            } else {
                (arg, seq![take_required(call, i + 1, name, span)])
            },
            _ => (arg, Seq::empty()),
        },
        (AccessConvention::Mutate, AccessConvention::Read) => match arg.expr {
            SpecExpr::Ident(name, span) => (arg, seq![mut_required(call, name, span)]),
            _ => (arg, seq![mut_required_here(call, arg.span)]),
        },
        (AccessConvention::Read, AccessConvention::Move) => (arg, seq![take_not_consumed(arg.span)]),
        (AccessConvention::Mutate, AccessConvention::Move) => (arg, seq![take_not_consumed(arg.span)]),
        (AccessConvention::Read, AccessConvention::Mutate) => (arg, seq![mut_not_accepted(arg.span)]),
        (AccessConvention::Move, AccessConvention::Mutate) => (arg, seq![mut_not_accepted(arg.span)]),
        _ => (arg, Seq::empty()),
    }
}

/// Inside a loop, passing a shared handle by name clones it.
pub open spec fn loop_check(
    arg: SpecCallArg,
    locals: Seq<(Seq<char>, SpecType)>,
    in_loop: bool,
) -> (SpecCallArg, Seq<SpecDiag>) {
    match arg.expr {
        SpecExpr::Ident(name, span) => if in_loop && lookup_local(locals, name) is Some
            && lookup_local(locals, name)->0 is Shared {
            (SpecCallArg { shared_auto_clone: true, ..arg }, seq![shared_in_loop_lint(name, span)])
        } else {
            (arg, Seq::empty())
        },
        _ => (arg, Seq::empty()),
    }
}

/// The `i`-th argument of a call of a known function after checking, and
/// its diagnostics.
pub open spec fn check_arg_spec(
    call: Seq<char>,
    i: nat,
    arg: SpecCallArg,
    params: Seq<(AccessConvention, SpecType)>,
    locals: Seq<(Seq<char>, SpecType)>,
    in_loop: bool,
    in_unsafe: bool,
) -> (SpecCallArg, Seq<SpecDiag>) {
    let d1 = check_expr_spec(arg.expr, in_unsafe);
    if i >= params.len() {
        (arg, d1)
    } else {
        let (a2, d2) = convention_check(call, i, arg, params[i as int]);
        let (a3, d3) = loop_check(a2, locals, in_loop);
        (a3, d1 + d2 + d3)
    }
}

/// The arguments `args[k..]` after checking, and their diagnostics.
pub open spec fn check_args_from(
    call: Seq<char>,
    args: Seq<SpecCallArg>,
    k: nat,
    params: Seq<(AccessConvention, SpecType)>,
    locals: Seq<(Seq<char>, SpecType)>,
    in_loop: bool,
    in_unsafe: bool,
) -> (Seq<SpecCallArg>, Seq<SpecDiag>)
    decreases args.len() - k,
{
    if k >= args.len() {
        (Seq::empty(), Seq::empty())
    } else {
        let (a, d) = check_arg_spec(call, k, args[k as int], params, locals, in_loop, in_unsafe);
        let (rest, rd) = check_args_from(call, args, k + 1, params, locals, in_loop, in_unsafe);
        (seq![a] + rest, d + rd)
    }
}

/// A call statement after checking, and its diagnostics.
pub open spec fn check_call_spec(
    c: SpecCall,
    funcs: Seq<(Seq<char>, SpecSig)>,
    locals: Seq<(Seq<char>, SpecType)>,
    in_loop: bool,
    in_unsafe: bool,
) -> (SpecCall, Seq<SpecDiag>) {
    if c.name == syntax::BUILTIN_PRINT@ {
        if c.args.len() != 1 {
            (c, seq![print_arity(c.name_span)])
        } else {
            (c, check_expr_spec(c.args[0].expr, in_unsafe))
        }
    } else {
        match lookup_func(funcs, c.name) {
            None => (c, seq![unknown_function(c.name, funcs, c.name_span)]),
            Some(sig) => {
                let d0 = if c.args.len() != sig.params.len() {
                    seq![arity_mismatch(c.name, sig.params.len(), c.args.len(), c.name_span)]
                } else {
                    Seq::empty()
                };
                let (args, d) = check_args_from(c.name, c.args, 0, sig.params, locals, in_loop, in_unsafe);
                (SpecCall { args, ..c }, d0 + d)
            },
        }
    }
}

/// The result of checking statements: the statements (with call-site flags
/// set), the locals afterwards, and the diagnostics.
pub struct CheckOut {
    pub stmts: Seq<SpecStmt>,
    pub locals: Seq<(Seq<char>, SpecType)>,
    pub diags: Seq<SpecDiag>,
}

pub open spec fn check_stmt_spec(
    s: SpecStmt,
    funcs: Seq<(Seq<char>, SpecSig)>,
    locals: Seq<(Seq<char>, SpecType)>,
    in_loop: bool,
    in_unsafe: bool,
) -> CheckOut
    decreases s,
{
    match s {
        SpecStmt::Val(b) => {
            let ty = match b.ty {
                Some(t) => t,
                None => SpecType::Int,
            };
            CheckOut {
                stmts: seq![s],
                locals: locals.push((b.name, ty)),
                diags: check_expr_spec(b.init, in_unsafe),
            }
        },
        SpecStmt::Return(e, _) => CheckOut { stmts: seq![s], locals, diags: check_expr_spec(e, in_unsafe) },
        SpecStmt::Loop(inner, sp) => {
            let r = check_stmts_spec(inner, funcs, locals, true, in_unsafe);
            CheckOut { stmts: seq![SpecStmt::Loop(r.stmts, sp)], locals: r.locals, diags: r.diags }
        },
        SpecStmt::Unsafe(inner, sp) => {
            let r = check_stmts_spec(inner, funcs, locals, in_loop, true);
            CheckOut { stmts: seq![SpecStmt::Unsafe(r.stmts, sp)], locals: r.locals, diags: r.diags }
        },
        SpecStmt::Call(c) => {
            let (c2, d) = check_call_spec(c, funcs, locals, in_loop, in_unsafe);
            CheckOut { stmts: seq![SpecStmt::Call(c2)], locals, diags: d }
        },
    }
}

pub open spec fn check_stmts_spec(
    ss: Seq<SpecStmt>,
    funcs: Seq<(Seq<char>, SpecSig)>,
    locals: Seq<(Seq<char>, SpecType)>,
    in_loop: bool,
    in_unsafe: bool,
) -> CheckOut
    decreases ss,
{
    if ss.len() == 0 {
        CheckOut { stmts: Seq::empty(), locals, diags: Seq::empty() }
    } else {
        let first = check_stmt_spec(ss[0], funcs, locals, in_loop, in_unsafe);
        let rest = check_stmts_spec(ss.subrange(1, ss.len() as int), funcs, first.locals, in_loop, in_unsafe);
        CheckOut { stmts: first.stmts + rest.stmts, locals: rest.locals, diags: first.diags + rest.diags }
    }
}

/// One item after checking, and the diagnostics about its body.
pub open spec fn check_item_spec(
    item: SpecItem,
    funcs: Seq<(Seq<char>, SpecSig)>,
    taken: Seq<Seq<char>>,
) -> (SpecItem, Seq<SpecDiag>) {
    match item {
        SpecItem::Func(f) => {
            let locals = f.params.map_values(|p: SpecParam| (p.name, p.ty));
            let r = check_stmts_spec(f.body, funcs, locals, false, false);
            (SpecItem::Func(SpecFunc { body: r.stmts, ..f }), r.diags)
        },
        SpecItem::Const(c) => (SpecItem::Const(SpecConstDef { rust_kind: const_kind(c, taken), ..c }), Seq::empty()),
        SpecItem::Struct(s) => (SpecItem::Struct(s), Seq::empty()),
    }
}

pub open spec fn check_items_spec(
    items: Seq<SpecItem>,
    funcs: Seq<(Seq<char>, SpecSig)>,
    taken: Seq<Seq<char>>,
) -> (Seq<SpecItem>, Seq<SpecDiag>)
    decreases items.len(),
{
    if items.len() == 0 {
        (Seq::empty(), Seq::empty())
    } else {
        let (prev, pd) = check_items_spec(items.drop_last(), funcs, taken);
        let (it, d) = check_item_spec(items.last(), funcs, taken);
        (prev.push(it), pd + d)
    }
}

/// The program after checking (consts marked as Rust `static` or `const`,
/// call arguments flagged for implicit clones), and every diagnostic.
pub open spec fn check_spec(prog: SpecProgram) -> (SpecProgram, Seq<SpecDiag>) {
    let t = declare_all(prog.items);
    let d_main = if has_func(t.funcs, "main"@) {
        Seq::empty()
    } else {
        seq![no_main()]
    };
    let taken = items_refs(prog.items, t.consts);
    let (items, d_bodies) = check_items_spec(prog.items, t.funcs, taken);
    (SpecProgram { items }, t.diags + d_main + d_bodies)
}

// ---------------------------------------------------------------------
// The checker.
// ---------------------------------------------------------------------

fn min3_exec(x: usize, y: usize, z: usize) -> (r: usize)
    ensures
        r == min3(x as nat, y as nat, z as nat),
{
    if x <= y && x <= z {
        x
    } else if y <= z {
        y
    } else {
        z
    }
}

/// The Levenshtein distance between `a` and `b`, by the usual row-by-row
/// dynamic programme.
pub fn edit_distance(a: &str, b: &str) -> (r: usize)
    ensures
        r == edit_distance_spec(a@, b@),
{
    let av = chars_of(a);
    let bv = chars_of(b);
    let n = av.len();
    let m = bv.len();
    let mut prev: Vec<usize> = Vec::new();
    prev.push(0);
    let mut j: usize = 0;
    while j < m
        invariant
            m == bv@.len(),
            0 <= j <= m,
            prev@.len() == j + 1,
            forall|k: int| 0 <= k <= j ==> #[trigger] prev@[k] == lev(av@, bv@, 0, k as nat),
        decreases m - j,
    {
        prev.push(j + 1);
        j += 1;
    }
    let mut i: usize = 0;
    while i < n
        invariant
            n == av@.len(),
            m == bv@.len(),
            0 <= i <= n,
            prev@.len() == m + 1,
            forall|k: int| 0 <= k <= m ==> #[trigger] prev@[k] == lev(av@, bv@, i as nat, k as nat),
        decreases n - i,
    {
        let mut cur: Vec<usize> = Vec::new();
        cur.push(i + 1);
        let mut j: usize = 0;
        while j < m
            invariant
                n == av@.len(),
                m == bv@.len(),
                0 <= i < n,
                0 <= j <= m,
                prev@.len() == m + 1,
                forall|k: int| 0 <= k <= m ==> #[trigger] prev@[k] == lev(av@, bv@, i as nat, k as nat),
                cur@.len() == j + 1,
                forall|k: int| 0 <= k <= j ==> #[trigger] cur@[k] == lev(av@, bv@, (i + 1) as nat, k as nat),
            decreases m - j,
        {
            let cost: usize = if av[i] == bv[j] { 0 } else { 1 };
            let x = prev[j + 1].saturating_add(1);
            let y = cur[j].saturating_add(1);
            let z = prev[j].saturating_add(cost);
            proof {
                lemma_lev_bound(av@, bv@, (i + 1) as nat, (j + 1) as nat);
            }
            let v = min3_exec(x, y, z);
            cur.push(v);
            j += 1;
        }
        prev = cur;
        i += 1;
    }
    prev[m]
}

/// What the checker records of a function.
struct FuncSig {
    params: Vec<(AccessConvention, Type)>,
    return_type: Option<Type>,
    is_view_return: bool,
}

impl View for FuncSig {
    type V = SpecSig;

    closed spec fn view(&self) -> SpecSig {
        SpecSig {
            params: self.params@.map_values(|p: (AccessConvention, Type)| (p.0, p.1@)),
            return_type: crate::ast::opt_type_view(self.return_type),
            is_view_return: self.is_view_return,
        }
    }
}

spec fn funcs_view(v: Seq<(String, FuncSig)>) -> Seq<(Seq<char>, SpecSig)> {
    v.map_values(|e: (String, FuncSig)| (e.0@, e.1@))
}

pub open spec fn names_view(v: Seq<String>) -> Seq<Seq<char>> {
    v.map_values(|s: String| s@)
}

spec fn tables_view(
    funcs: Seq<(String, FuncSig)>,
    structs: Seq<String>,
    consts: Seq<String>,
    diags: Seq<Diagnostic>,
) -> Tables {
    Tables {
        funcs: funcs_view(funcs),
        structs: names_view(structs),
        consts: names_view(consts),
        diags: crate::diag::diags_view(diags),
    }
}

fn opt_copy_type(t: &Option<Type>) -> (r: Option<Type>)
    ensures
        crate::ast::opt_type_view(r) == crate::ast::opt_type_view(*t),
{
    match t {
        Some(t) => Some(copy_type(t)),
        None => None,
    }
}

fn sig_for(f: &Func) -> (r: FuncSig)
    ensures
        r@ == sig_of(f@),
{
    let mut params: Vec<(AccessConvention, Type)> = Vec::new();
    let n = f.params.len();
    let mut k: usize = 0;
    while k < n
        invariant
            n == f.params@.len(),
            0 <= k <= n,
            params@.len() == k,
            forall|m: int| 0 <= m < k ==> #[trigger] params@[m].0 == f.params@[m].convention
                && params@[m].1@ == f.params@[m].ty@,
        decreases n - k,
    {
        params.push((f.params[k].convention, copy_type(&f.params[k].ty)));
        k += 1;
    }
    let r = FuncSig { params, return_type: opt_copy_type(&f.return_type), is_view_return: f.is_view_return };
    assert(r@.params =~= sig_of(f@).params);
    r
}

fn find_func(funcs: &Vec<(String, FuncSig)>, name: &str) -> (r: Option<usize>)
    ensures
        match r {
            Some(k) => find_func_from(funcs_view(funcs@), name@, 0) == Some(k as int) && k < funcs@.len(),
            None => find_func_from(funcs_view(funcs@), name@, 0) is None,
        },
{
    let n = funcs.len();
    let mut k: usize = 0;
    while k < n
        invariant
            n == funcs@.len(),
            0 <= k <= n,
            find_func_from(funcs_view(funcs@), name@, 0) == find_func_from(funcs_view(funcs@), name@, k as int),
        decreases n - k,
    {
        if crate::text::text_eq(funcs[k].0.as_str(), name) {
            return Some(k);
        }
        k += 1;
    }
    None
}

fn contains_name(v: &Vec<String>, name: &str) -> (r: bool)
    ensures
        r == names_view(v@).contains(name@),
{
    let n = v.len();
    let mut k: usize = 0;
    while k < n
        invariant
            n == v@.len(),
            0 <= k <= n,
            forall|m: int| 0 <= m < k ==> #[trigger] v@[m]@ != name@,
        decreases n - k,
    {
        if crate::text::text_eq(v[k].as_str(), name) {
            assert(names_view(v@)[k as int] == name@);
            return true;
        }
        k += 1;
    }
    assert(!names_view(v@).contains(name@)) by {
        if names_view(v@).contains(name@) {
            let m = choose|m: int| 0 <= m < names_view(v@).len() && names_view(v@)[m] == name@;
            assert(v@[m]@ == name@);
        }
    }
    false
}

fn count_ref_fields(fields: &Vec<crate::ast::Field>) -> (r: (usize, usize))
    ensures
        r.0 == count_refs(crate::ast::fields_view(fields@), false),
        r.1 == count_refs(crate::ast::fields_view(fields@), true),
{
    let n = fields.len();
    let mut all: usize = 0;
    let mut unlabeled: usize = 0;
    let mut k: usize = 0;
    while k < n
        invariant
            n == fields@.len(),
            0 <= k <= n,
            all <= k,
            unlabeled <= k,
            all == count_refs(crate::ast::fields_view(fields@).take(k as int), false),
            unlabeled == count_refs(crate::ast::fields_view(fields@).take(k as int), true),
        decreases n - k,
    {
        assert(crate::ast::fields_view(fields@).take(k + 1).drop_last() =~= crate::ast::fields_view(fields@).take(k as int));
        if fields[k].is_stored_ref {
            all += 1;
            if fields[k].stored_ref_label.is_none() {
                unlabeled += 1;
            }
        }
        k += 1;
    }
    assert(crate::ast::fields_view(fields@).take(n as int) =~= crate::ast::fields_view(fields@));
    (all, unlabeled)
}

fn print_name() -> (s: String)
    ensures
        s@ == syntax::BUILTIN_PRINT@,
{
    syntax::BUILTIN_PRINT.to_string()
}

fn twice(name: &String, why: &str, span: Span) -> (d: Diagnostic)
    ensures
        d@ == defined_twice(name@, why@, span),
{
    let mut what = "`".to_string();
    push_text(&mut what, name.as_str());
    push_text(&mut what, "` is defined twice");
    Diagnostic::error("E0105", what, why.to_string(), "rename or remove one of the definitions".to_string(), Some(span))
}

/// Records one definition in the tables, reporting what is wrong with it.
fn declare_item(
    item: &Item,
    funcs: &mut Vec<(String, FuncSig)>,
    structs: &mut Vec<String>,
    consts: &mut Vec<String>,
    diags: &mut Vec<Diagnostic>,
)
    ensures
        tables_view(final(funcs)@, final(structs)@, final(consts)@, final(diags)@)
            == declare(tables_view(old(funcs)@, old(structs)@, old(consts)@, old(diags)@), item@),
{
    match item {
        Item::Func(f) => {
            if crate::text::text_eq(f.name.as_str(), syntax::BUILTIN_PRINT) {
                let mut what = "the name `".to_string();
                push_text(&mut what, syntax::BUILTIN_PRINT);
                push_text(&mut what, "` is built in and can't be redefined");
                let mut why = "`".to_string();
                push_text(&mut why, syntax::BUILTIN_PRINT);
                push_text(&mut why, "` is provided by the language itself");
                let d = Diagnostic::error(
                    "E0106",
                    what,
                    why,
                    "choose a different name for this function".to_string(),
                    Some(f.name_span),
                );
                diags.push(d);
            } else if find_func(funcs, f.name.as_str()).is_some() {
                diags.push(twice(&f.name, "every function needs a unique name so calls aren't ambiguous", f.name_span));
            } else {
                funcs.push((f.name.clone(), sig_for(f)));
            }
            if f.is_view_return {
                if let Some(rt) = &f.return_type {
                    if !is_viewable_return(rt) {
                        diags.push(
                            Diagnostic::error(
                                "E0206",
                                "`view` can only be used on return types that refer to `self`".to_string(),
                                "`view` marks a borrow of data owned by the receiver".to_string(),
                                "return an owned value instead, or use `view` only on methods".to_string(),
                                Some(f.name_span),
                            ),
                        );
                    }
                }
            }
        },
        Item::Struct(sd) => {
            if contains_name(structs, sd.name.as_str()) {
                diags.push(twice(&sd.name, "every struct needs a unique name", sd.name_span));
            } else {
                structs.push(sd.name.clone());
            }
            let (all, unlabeled) = count_ref_fields(&sd.fields);
            if all >= 2 {
                if unlabeled >= 2 {
                    diags.push(
                        Diagnostic::error(
                            "E0207",
                            "this struct has more than one stored reference without a label".to_string(),
                            "when two `ref` fields may come from different places, each needs a label like `ref[src]`".to_string(),
                            "add labels: `ref[a] x: String` and `ref[b] y: String`".to_string(),
                            Some(sd.name_span),
                        ),
                    );
                }
            }
        },
        Item::Const(c) => {
            if contains_name(consts, c.name.as_str()) {
                diags.push(twice(&c.name, "every const needs a unique name", c.name_span));
            } else {
                consts.push(c.name.clone());
            }
        },
    }
    proof {
        assert(funcs_view(final(funcs)@) =~= declare(tables_view(old(funcs)@, old(structs)@, old(consts)@, old(diags)@), item@).funcs);
        assert(names_view(final(structs)@) =~= declare(tables_view(old(funcs)@, old(structs)@, old(consts)@, old(diags)@), item@).structs);
        assert(names_view(final(consts)@) =~= declare(tables_view(old(funcs)@, old(structs)@, old(consts)@, old(diags)@), item@).consts);
        assert(crate::diag::diags_view(final(diags)@) =~= declare(tables_view(old(funcs)@, old(structs)@, old(consts)@, old(diags)@), item@).diags);
    }
}

fn is_viewable_return(_ty: &Type) -> (r: bool)
    ensures
        r == is_viewable_return_spec(_ty@),
{
    // view returns are allowed on any named type for now.
    true
}

proof fn lemma_refs_split(ss: Seq<SpecStmt>, consts: Seq<Seq<char>>, k: int)
    requires
        0 <= k < ss.len(),
    ensures
        stmts_refs(ss.subrange(k, ss.len() as int), consts) == stmt_refs(ss[k], consts) + stmts_refs(
            ss.subrange(k + 1, ss.len() as int),
            consts,
        ),
{
    let t = ss.subrange(k, ss.len() as int);
    assert(t[0] == ss[k]);
    assert(t.subrange(1, t.len() as int) =~= ss.subrange(k + 1, ss.len() as int));
}

fn walk_expr_for_const_refs(expr: &Expr, const_names: &Vec<String>, taken: &mut Vec<String>)
    ensures
        names_view(final(taken)@) == names_view(old(taken)@) + expr_refs(expr@, names_view(const_names@)),
    decreases expr,
{
    match expr {
        Expr::Ident(name, _) => {
            if contains_name(const_names, name.as_str()) {
                taken.push(name.clone());
                assert(names_view(taken@) =~= names_view(old(taken)@) + seq![name@]);
            } else {
                assert(names_view(taken@) =~= names_view(old(taken)@) + Seq::<Seq<char>>::empty());
            }
        },
        Expr::Deref(inner, _) => walk_expr_for_const_refs(inner, const_names, taken),
        Expr::Member(inner, _, _) => walk_expr_for_const_refs(inner, const_names, taken),
        _ => {
            assert(names_view(taken@) =~= names_view(old(taken)@) + Seq::<Seq<char>>::empty());
        },
    }
}

fn walk_args_for_const_refs(args: &Vec<CallArg>, const_names: &Vec<String>, taken: &mut Vec<String>)
    ensures
        names_view(final(taken)@) == names_view(old(taken)@) + args_refs(crate::ast::args_view(args@), names_view(const_names@)),
{
    let ghost av = crate::ast::args_view(args@);
    let ghost consts = names_view(const_names@);
    let n = args.len();
    let mut k: usize = 0;
    assert(av.subrange(0, n as int) =~= av);
    while k < n
        invariant
            n == args@.len(),
            av == crate::ast::args_view(args@),
            consts == names_view(const_names@),
            0 <= k <= n,
            names_view(taken@) + args_refs(av.subrange(k as int, n as int), consts)
                == names_view(old(taken)@) + args_refs(av, consts),
        decreases n - k,
    {
        let ghost before = names_view(taken@);
        let ghost t = av.subrange(k as int, n as int);
        assert(t[0] == av[k as int]);
        assert(t.subrange(1, t.len() as int) =~= av.subrange(k + 1, n as int));
        if let Expr::Ident(name, _) = &args[k].expr {
            if contains_name(const_names, name.as_str()) {
                taken.push(name.clone());
                assert(names_view(taken@) =~= before.push(name@));
                assert(before + (seq![name@] + args_refs(av.subrange(k + 1, n as int), consts))
                    =~= before.push(name@) + args_refs(av.subrange(k + 1, n as int), consts));
            } else {
                assert(Seq::<Seq<char>>::empty() + args_refs(av.subrange(k + 1, n as int), consts)
                    =~= args_refs(av.subrange(k + 1, n as int), consts));
            }
        } else {
            assert(Seq::<Seq<char>>::empty() + args_refs(av.subrange(k + 1, n as int), consts)
                =~= args_refs(av.subrange(k + 1, n as int), consts));
        }
        k += 1;
    }
    assert(av.subrange(n as int, n as int) =~= Seq::<SpecCallArg>::empty());
    assert(av.subrange(0, n as int) =~= av);
    assert(names_view(taken@) + Seq::<Seq<char>>::empty() =~= names_view(taken@));
}

fn walk_stmt_for_const_refs(stmt: &Stmt, const_names: &Vec<String>, taken: &mut Vec<String>)
    ensures
        names_view(final(taken)@) == names_view(old(taken)@) + stmt_refs(stmt@, names_view(const_names@)),
    decreases stmt,
{
    match stmt {
        Stmt::Call(call) => walk_args_for_const_refs(&call.args, const_names, taken),
        Stmt::Val(b) => walk_expr_for_const_refs(&b.init, const_names, taken),
        Stmt::Return(expr, _) => walk_expr_for_const_refs(expr, const_names, taken),
        Stmt::Loop(inner, _) => walk_stmts_for_const_refs(inner, const_names, taken),
        Stmt::Unsafe(inner, _) => walk_stmts_for_const_refs(inner, const_names, taken),
    }
}

fn walk_stmts_for_const_refs(stmts: &Vec<Stmt>, const_names: &Vec<String>, taken: &mut Vec<String>)
    ensures
        names_view(final(taken)@) == names_view(old(taken)@) + stmts_refs(stmts_view(stmts@), names_view(const_names@)),
    decreases stmts,
{
    let ghost sv = stmts_view(stmts@);
    let ghost consts = names_view(const_names@);
    proof {
        lemma_stmts_view_len(stmts@);
    }
    let n = stmts.len();
    let mut k: usize = 0;
    assert(sv.subrange(0, n as int) =~= sv);
    while k < n
        invariant
            n == stmts@.len(),
            sv == stmts_view(stmts@),
            sv.len() == n,
            consts == names_view(const_names@),
            0 <= k <= n,
            names_view(taken@) + stmts_refs(sv.subrange(k as int, n as int), consts)
                == names_view(old(taken)@) + stmts_refs(sv, consts),
        decreases n - k,
    {
        let ghost before = names_view(taken@);
        proof {
            lemma_refs_split(sv, consts, k as int);
            lemma_stmts_view_index(stmts@, k as int);
        }
        walk_stmt_for_const_refs(&stmts[k], const_names, taken);
        assert(before + (stmt_refs(sv[k as int], consts) + stmts_refs(sv.subrange(k + 1, n as int), consts))
            =~= (before + stmt_refs(sv[k as int], consts)) + stmts_refs(sv.subrange(k + 1, n as int), consts));
        k += 1;
    }
    assert(sv.subrange(n as int, n as int) =~= Seq::<SpecStmt>::empty());
    assert(sv.subrange(0, n as int) =~= sv);
    assert(names_view(taken@) + Seq::<Seq<char>>::empty() =~= names_view(taken@));
}

fn type_has_interior_mutability(c: &ConstDef) -> (r: bool)
    ensures
        r == interior_value(c.value@),
{
    match &c.value {
        Expr::Ident(name, _) => starts_with_text(name.as_str(), "Atomic") || contains_text(name.as_str(), "Mutex"),
        _ => false,
    }
}

fn is_cloneable(ty: &Type, structs: &Vec<String>) -> (r: bool)
    ensures
        r == cloneable(ty@),
    decreases ty,
{
    match ty {
        Type::Int | Type::Bool | Type::Float | Type::String => true,
        Type::List(inner) => is_cloneable(inner, structs),
        Type::Shared(inner) => is_cloneable(inner, structs),
        Type::Named(name) => {
            // Built-in cloneable; user structs without Clone are not.
            !crate::text::text_eq(name.as_str(), "NoClone")
        },
    }
}

fn is_shared_handle(ty: &Type) -> (r: bool)
    ensures
        r == (ty@ is Shared),
{
    matches!(ty, Type::Shared(_))
}

spec fn locals_view(v: Seq<(String, Type)>) -> Seq<(Seq<char>, SpecType)> {
    v.map_values(|e: (String, Type)| (e.0@, e.1@))
}

/// Whether the local `name` (its last binding) is a shared handle.
fn local_is_shared(locals: &Vec<(String, Type)>, name: &str) -> (r: bool)
    ensures
        r == (lookup_local(locals_view(locals@), name@) is Some && lookup_local(locals_view(locals@), name@)->0 is Shared),
{
    let mut k = locals.len();
    assert(locals_view(locals@).take(k as int) =~= locals_view(locals@));
    while k > 0
        invariant
            0 <= k <= locals@.len(),
            lookup_local(locals_view(locals@), name@) == lookup_local(locals_view(locals@).take(k as int), name@),
        decreases k,
    {
        let ghost lv = locals_view(locals@).take(k as int);
        assert(lv.drop_last() =~= locals_view(locals@).take(k - 1));
        if crate::text::text_eq(locals[k - 1].0.as_str(), name) {
            return is_shared_handle(&locals[k - 1].1);
        }
        k -= 1;
    }
    false
}

fn check_expr(expr: &Expr, diags: &mut Vec<Diagnostic>, in_unsafe: bool)
    ensures
        crate::diag::diags_view(final(diags)@) == crate::diag::diags_view(old(diags)@) + check_expr_spec(expr@, in_unsafe),
    decreases expr,
{
    match expr {
        Expr::Deref(inner, span) => {
            if !in_unsafe {
                diags.push(
                    Diagnostic::error(
                        "E0208",
                        "`*` isn't allowed here".to_string(),
                        "dereferencing with `*` is only for expert code inside `unsafe`".to_string(),
                        "remove `*`, or wrap this code in `unsafe { ... }`".to_string(),
                        Some(*span),
                    ),
                );
                assert(crate::diag::diags_view(diags@) =~= crate::diag::diags_view(old(diags)@) + check_expr_spec(expr@, in_unsafe));
            } else {
                check_expr(inner, diags, in_unsafe);
            }
        },
        Expr::Member(inner, _, _) => check_expr(inner, diags, in_unsafe),
        _ => {
            assert(crate::diag::diags_view(diags@) =~= crate::diag::diags_view(old(diags)@) + Seq::<SpecDiag>::empty());
        },
    }
}

fn check_call_arg_expr(expr: &Expr, diags: &mut Vec<Diagnostic>, in_unsafe: bool)
    ensures
        crate::diag::diags_view(final(diags)@) == crate::diag::diags_view(old(diags)@) + check_expr_spec(expr@, in_unsafe),
{
    check_expr(expr, diags, in_unsafe);
}

/// The closest defined name to `name` (see `best_candidate`), if any.
fn suggestion(name: &str, funcs: &Vec<(String, FuncSig)>) -> (r: Option<String>)
    ensures
        match r {
            Some(c) => best_candidate(name@, candidates(funcs_view(funcs@))) is Some
                && (best_candidate(name@, candidates(funcs_view(funcs@)))->0).0 == c@,
            None => best_candidate(name@, candidates(funcs_view(funcs@))) is None,
        },
{
    let ghost cands = candidates(funcs_view(funcs@));
    let n = funcs.len();
    let mut best: Option<(String, usize)> = None;
    let mut k: usize = 0;
    while k <= n
        invariant
            n == funcs@.len(),
            cands == candidates(funcs_view(funcs@)),
            cands.len() == n + 1,
            0 <= k <= n,
            match best {
                Some((c, d)) => best_candidate(name@, cands.take(k as int)) == Some((c@, d as nat)),
                None => best_candidate(name@, cands.take(k as int)) is None,
            },
        decreases n + 1 - k,
    {
        let cand: String = if k < n {
            funcs[k].0.clone()
        } else {
            print_name()
        };
        assert(cands[k as int] == cand@);
        assert(cands.take(k + 1).drop_last() =~= cands.take(k as int));
        let d = edit_distance(name, cand.as_str());
        let better = match &best {
            Some((_, bd)) => d < *bd,
            None => true,
        };
        if d <= 2 && better {
            best = Some((cand, d));
        }
        if k == n {
            assert(cands.take(n + 1) =~= cands);
            return match best {
                Some((c, _)) => Some(c),
                None => None,
            };
        }
        k += 1;
    }
    None
}

fn unknown_function_diag(name: &String, funcs: &Vec<(String, FuncSig)>, span: Span) -> (d: Diagnostic)
    ensures
        d@ == unknown_function(name@, funcs_view(funcs@), span),
{
    let fix = match suggestion(name.as_str(), funcs) {
        Some(cand) => {
            let mut fix = "did you mean `".to_string();
            push_text(&mut fix, cand.as_str());
            push_text(&mut fix, "`?");
            fix
        },
        None => {
            let mut fix = "define it first (".to_string();
            push_text(&mut fix, syntax::KW_FN);
            push_text(&mut fix, " ");
            push_text(&mut fix, name.as_str());
            push_text(&mut fix, "() { ... }), or call one that exists");
            fix
        },
    };
    let mut what = "nothing named `".to_string();
    push_text(&mut what, name.as_str());
    push_text(&mut what, "` exists here");
    let mut why = "only functions that have been defined (or built in, like `".to_string();
    push_text(&mut why, syntax::BUILTIN_PRINT);
    push_text(&mut why, "`) can be called");
    Diagnostic::error("E0102", what, why, fix, Some(span))
}

fn arity_diag(name: &String, expected: usize, got: usize, span: Span) -> (d: Diagnostic)
    ensures
        d@ == arity_mismatch(name@, expected as nat, got as nat, span),
{
    let mut what = "`".to_string();
    push_text(&mut what, name.as_str());
    push_text(&mut what, "` expects ");
    let e = decimal_string(expected);
    push_text(&mut what, e.as_str());
    push_text(&mut what, " argument");
    if expected == 1 {
        push_text(&mut what, "");
    } else {
        push_text(&mut what, "s");
    }
    push_text(&mut what, ", got ");
    let g = decimal_string(got);
    push_text(&mut what, g.as_str());
    let mut fix = "check the definition of `".to_string();
    push_text(&mut fix, name.as_str());
    push_text(&mut fix, "`");
    Diagnostic::error("E0104", what, "every argument must match a parameter".to_string(), fix, Some(span))
}

spec fn params_model(v: Seq<(AccessConvention, Type)>) -> Seq<(AccessConvention, SpecType)> {
    v.map_values(|p: (AccessConvention, Type)| (p.0, p.1@))
}

/// The convention rules for one argument; see `convention_check`.
fn check_convention(
    call_name: &String,
    i: usize,
    arg: CallArg,
    param: &(AccessConvention, Type),
    structs: &Vec<String>,
    diags: &mut Vec<Diagnostic>,
) -> (r: CallArg)
    requires
        i < usize::MAX,
    ensures
        r@ == convention_check(call_name@, i as nat, arg@, (param.0, param.1@)).0,
        crate::diag::diags_view(final(diags)@) == crate::diag::diags_view(old(diags)@)
            + convention_check(call_name@, i as nat, arg@, (param.0, param.1@)).1,
{
    let ghost a0 = arg@;
    let mut arg = arg;
    let ghost d0 = crate::diag::diags_view(diags@);
    match (param.0, arg.convention) {
        (AccessConvention::Move, AccessConvention::Read) => {
            if let Expr::Ident(name, span) = &arg.expr {
                if is_cloneable(&param.1, structs) {
                    let mut what = "implicit clone of `".to_string();
                    push_text(&mut what, name.as_str());
                    push_text(&mut what, "`; write `");
                    push_text(&mut what, syntax::KW_MOVE);
                    push_text(&mut what, " ");
                    push_text(&mut what, name.as_str());
                    push_text(&mut what, "` to transfer ownership or `.clone()` to silence this warning");
                    let mut why = "`".to_string();
                    push_text(&mut why, call_name.as_str());
                    push_text(&mut why, "` expects to take ownership of this value");
                    let mut fix = "write `".to_string();
                    push_text(&mut fix, syntax::KW_MOVE);
                    push_text(&mut fix, " ");
                    push_text(&mut fix, name.as_str());
                    push_text(&mut fix, "` to move, or `");
                    push_text(&mut fix, name.as_str());
                    push_text(&mut fix, " .clone()` to copy explicitly");
                    diags.push(Diagnostic::lint("L0201", what, why, fix, Some(*span)));
                    arg.flags.implicit_clone = true;
                } else {
                    let mut what = "`".to_string();
                    push_text(&mut what, call_name.as_str());
                    push_text(&mut what, "` needs `");
                    push_text(&mut what, syntax::KW_MOVE);
                    push_text(&mut what, "` here — this value can't be copied");
                    let mut why = "parameter `".to_string();
                    let idx = decimal_string(i + 1);
                    push_text(&mut why, idx.as_str());
                    push_text(&mut why, "` takes ownership; passing `");
                    push_text(&mut why, name.as_str());
                    push_text(&mut why, "` without `");
                    push_text(&mut why, syntax::KW_MOVE);
                    push_text(&mut why, "` would have to copy it, but this type can't be copied");
                    let mut fix = "write `".to_string();
                    push_text(&mut fix, syntax::KW_MOVE);
                    push_text(&mut fix, " ");
                    push_text(&mut fix, name.as_str());
                    push_text(&mut fix, "` to transfer ownership");
                    diags.push(Diagnostic::error("E0201", what, why, fix, Some(*span)));
                }
            }
        },
        (AccessConvention::Mutate, AccessConvention::Read) => {
            if let Expr::Ident(name, span) = &arg.expr {
                let mut what = "parameter `".to_string();
                push_text(&mut what, name.as_str());
                push_text(&mut what, "` requires `");
                push_text(&mut what, syntax::KW_MUTATE);
                push_text(&mut what, "` at the call site");
                let mut why = "`".to_string();
                push_text(&mut why, call_name.as_str());
                push_text(&mut why, "` needs to change this value while it borrows it");
                let mut fix = "write `".to_string();
                push_text(&mut fix, syntax::KW_MUTATE);
                push_text(&mut fix, " ");
                push_text(&mut fix, name.as_str());
                push_text(&mut fix, "` when calling `");
                push_text(&mut fix, call_name.as_str());
                push_text(&mut fix, "`");
                diags.push(Diagnostic::error("E0202", what, why, fix, Some(*span)));
            } else {
                let mut what = "this argument requires `".to_string();
                push_text(&mut what, syntax::KW_MUTATE);
                push_text(&mut what, "` at the call site");
                let mut why = "`".to_string();
                push_text(&mut why, call_name.as_str());
                push_text(&mut why, "` needs to change this value while it borrows it");
                let mut fix = "write `".to_string();
                push_text(&mut fix, syntax::KW_MUTATE);
                push_text(&mut fix, "` before this argument when calling `");
                push_text(&mut fix, call_name.as_str());
                push_text(&mut fix, "`");
                diags.push(Diagnostic::error("E0202", what, why, fix, Some(arg.span)));
            }
        },
        (AccessConvention::Read, AccessConvention::Mutate) | (AccessConvention::Move, AccessConvention::Mutate) => {
            let mut what = "`".to_string();
            push_text(&mut what, syntax::KW_MUTATE);
            push_text(&mut what, "` passed to a parameter that does not change its value");
            let mut why = "only `".to_string();
            push_text(&mut why, syntax::KW_MUTATE);
            push_text(&mut why, "` parameters accept a value to change at the call site");
            let mut fix = "remove `".to_string();
            push_text(&mut fix, syntax::KW_MUTATE);
            push_text(&mut fix, "` or change the parameter to `");
            push_text(&mut fix, syntax::KW_MUTATE);
            push_text(&mut fix, "`");
            diags.push(Diagnostic::error("E0204", what, why, fix, Some(arg.span)));
        },
        (AccessConvention::Read, AccessConvention::Move) | (AccessConvention::Mutate, AccessConvention::Move) => {
            let mut what = "`".to_string();
            push_text(&mut what, syntax::KW_MOVE);
            push_text(&mut what, "` passed to a parameter that does not consume");
            let mut fix = "remove `".to_string();
            push_text(&mut fix, syntax::KW_MOVE);
            push_text(&mut fix, "` or change the parameter to `take`");
            diags.push(
                Diagnostic::error(
                    "E0203",
                    what,
                    "only `take` parameters accept a moved value at the call site".to_string(),
                    fix,
                    Some(arg.span),
                ),
            );
        },
        _ => {},
    }
    assert(crate::diag::diags_view(diags@) =~= d0 + convention_check(call_name@, i as nat, a0, (param.0, param.1@)).1);
    arg
}

/// The loop rule for one argument; see `loop_check`.
fn check_in_loop(arg: CallArg, locals: &Vec<(String, Type)>, diags: &mut Vec<Diagnostic>, in_loop: bool) -> (r: CallArg)
    ensures
        r@ == loop_check(arg@, locals_view(locals@), in_loop).0,
        crate::diag::diags_view(final(diags)@) == crate::diag::diags_view(old(diags)@) + loop_check(arg@, locals_view(locals@), in_loop).1,
{
    let ghost a0 = arg@;
    let mut arg = arg;
    let ghost d0 = crate::diag::diags_view(diags@);
    if in_loop {
        if let Expr::Ident(name, span) = &arg.expr {
            if local_is_shared(locals, name.as_str()) {
                let mut what = "auto-cloned `".to_string();
                push_text(&mut what, name.as_str());
                push_text(&mut what, "` inside a loop; consider hoisting or caching");
                let mut fix = "hoist `".to_string();
                push_text(&mut fix, name.as_str());
                push_text(&mut fix, "` before the loop, or clone once outside");
                diags.push(
                    Diagnostic::lint(
                        "L0202",
                        what,
                        "shared handles are cloned when used across a loop boundary".to_string(),
                        fix,
                        Some(*span),
                    ),
                );
                arg.flags.shared_auto_clone = true;
            }
        }
    }
    assert(crate::diag::diags_view(diags@) =~= d0 + loop_check(a0, locals_view(locals@), in_loop).1);
    arg
}

/// One argument of a call of a known function; see `check_arg_spec`.
fn check_arg(
    call_name: &String,
    i: usize,
    arg: CallArg,
    params: &Vec<(AccessConvention, Type)>,
    structs: &Vec<String>,
    locals: &Vec<(String, Type)>,
    diags: &mut Vec<Diagnostic>,
    in_loop: bool,
    in_unsafe: bool,
) -> (r: CallArg)
    requires
        i < usize::MAX,
    ensures
        r@ == check_arg_spec(call_name@, i as nat, arg@, params_model(params@), locals_view(locals@), in_loop, in_unsafe).0,
        crate::diag::diags_view(final(diags)@) == crate::diag::diags_view(old(diags)@)
            + check_arg_spec(call_name@, i as nat, arg@, params_model(params@), locals_view(locals@), in_loop, in_unsafe).1,
{
    let ghost d0 = crate::diag::diags_view(diags@);
    check_call_arg_expr(&arg.expr, diags, in_unsafe);
    let ghost d1 = crate::diag::diags_view(diags@);
    if i >= params.len() {
        return arg;
    }
    let a2 = check_convention(call_name, i, arg, &params[i], structs, diags);
    let ghost d2 = crate::diag::diags_view(diags@);
    let a3 = check_in_loop(a2, locals, diags, in_loop);
    assert(crate::diag::diags_view(diags@) =~= d0 + check_arg_spec(call_name@, i as nat, arg@, params_model(params@), locals_view(locals@), in_loop, in_unsafe).1);
    a3
}

proof fn lemma_args_split(
    call: Seq<char>,
    args: Seq<SpecCallArg>,
    k: nat,
    params: Seq<(AccessConvention, SpecType)>,
    locals: Seq<(Seq<char>, SpecType)>,
    in_loop: bool,
    in_unsafe: bool,
)
    requires
        k < args.len(),
    ensures
        check_args_from(call, args, k, params, locals, in_loop, in_unsafe) == ({
            let (a, d) = check_arg_spec(call, k, args[k as int], params, locals, in_loop, in_unsafe);
            let (rest, rd) = check_args_from(call, args, k + 1, params, locals, in_loop, in_unsafe);
            (seq![a] + rest, d + rd)
        }),
{
}

fn check_call(
    call: Call,
    funcs: &Vec<(String, FuncSig)>,
    structs: &Vec<String>,
    locals: &Vec<(String, Type)>,
    diags: &mut Vec<Diagnostic>,
    in_loop: bool,
    in_unsafe: bool,
) -> (r: Call)
    ensures
        r@ == check_call_spec(call@, funcs_view(funcs@), locals_view(locals@), in_loop, in_unsafe).0,
        crate::diag::diags_view(final(diags)@) == crate::diag::diags_view(old(diags)@)
            + check_call_spec(call@, funcs_view(funcs@), locals_view(locals@), in_loop, in_unsafe).1,
{
    let ghost d0 = crate::diag::diags_view(diags@);
    let ghost spec = check_call_spec(call@, funcs_view(funcs@), locals_view(locals@), in_loop, in_unsafe);
    if crate::text::text_eq(call.name.as_str(), syntax::BUILTIN_PRINT) {
        if call.args.len() != 1 {
            let mut what = "`".to_string();
            push_text(&mut what, syntax::BUILTIN_PRINT);
            push_text(&mut what, "` needs exactly one thing to print");
            let mut fix = "e.g. ".to_string();
            push_text(&mut fix, syntax::BUILTIN_PRINT);
            push_text(&mut fix, "(\"hello\")");
            diags.push(
                Diagnostic::error(
                    "E0103",
                    what,
                    "printing nothing isn't meaningful".to_string(),
                    fix,
                    Some(call.name_span),
                ),
            );
            assert(crate::diag::diags_view(diags@) =~= d0 + spec.1);
        } else {
            check_call_arg_expr(&call.args[0].expr, diags, in_unsafe);
        }
        return call;
    }
    let k = match find_func(funcs, call.name.as_str()) {
        Some(k) => k,
        None => {
            diags.push(unknown_function_diag(&call.name, funcs, call.name_span));
            assert(crate::diag::diags_view(diags@) =~= d0 + spec.1);
            return call;
        },
    };
    let params = &funcs[k].1.params;
    assert(params_model(params@) =~= lookup_func(funcs_view(funcs@), call.name@)->0.params);
    if call.args.len() != params.len() {
        diags.push(arity_diag(&call.name, params.len(), call.args.len(), call.name_span));
    }
    let ghost d1 = crate::diag::diags_view(diags@);
    let ghost cv = call@;
    let Call { name, name_span, args } = call;
    let ghost av = crate::ast::args_view(args@);
    let ghost pm = params_model(params@);
    let ghost lv = locals_view(locals@);
    let n = args.len();
    let mut rest = args;
    let mut out: Vec<CallArg> = Vec::new();
    let mut i: usize = 0;
    while i < n
        invariant
            n == av.len(),
            0 <= i <= n,
            av == cv.args,
            name@ == cv.name,
            pm == params_model(params@),
            lv == locals_view(locals@),
            crate::ast::args_view(rest@) == av.subrange(i as int, n as int),
            ({
                let (whole, wd) = check_args_from(name@, av, 0, pm, lv, in_loop, in_unsafe);
                let (tail, td) = check_args_from(name@, av, i as nat, pm, lv, in_loop, in_unsafe);
                &&& crate::ast::args_view(out@) + tail == whole
                &&& crate::diag::diags_view(diags@) + td == d1 + wd
            }),
        decreases n - i,
    {
        assert(crate::ast::args_view(rest@).len() == rest@.len());
        assert(rest@.len() == n - i);
        assert(crate::ast::args_view(rest@)[0] == av[i as int]);
        let ghost before_rest = rest@;
        let arg = rest.remove(0);
        assert(rest@ =~= before_rest.subrange(1, before_rest.len() as int));
        assert forall|m: int| 0 <= m < rest@.len() implies #[trigger] crate::ast::args_view(rest@)[m] == av[i + 1 + m] by {
            assert(rest@[m] == before_rest[m + 1]);
            assert(crate::ast::args_view(before_rest)[m + 1] == av[i + 1 + m]);
        }
        assert(crate::ast::args_view(rest@) =~= av.subrange(i + 1, n as int));
        proof {
            lemma_args_split(name@, av, i as nat, pm, lv, in_loop, in_unsafe);
        }
        let ghost dd = crate::diag::diags_view(diags@);
        let ghost oo = crate::ast::args_view(out@);
        let a = check_arg(&name, i, arg, params, structs, locals, diags, in_loop, in_unsafe);
        let ghost av2 = a@;
        out.push(a);
        proof {
            let (tail2, td2) = check_args_from(name@, av, (i + 1) as nat, pm, lv, in_loop, in_unsafe);
            let (a1, d1x) = check_arg_spec(name@, i as nat, av[i as int], pm, lv, in_loop, in_unsafe);
            assert(crate::ast::args_view(out@) =~= oo.push(av2));
            assert(oo + (seq![a1] + tail2) =~= oo.push(a1) + tail2);
            assert(dd + (d1x + td2) =~= (dd + d1x) + td2);
        }
        i += 1;
    }
    proof {
        let (tail, td) = check_args_from(name@, av, n as nat, pm, lv, in_loop, in_unsafe);
        assert(crate::ast::args_view(out@) + tail =~= crate::ast::args_view(out@));
        assert(crate::diag::diags_view(diags@) + td =~= crate::diag::diags_view(diags@));
    }
    let r = Call { name, name_span, args: out };
    assert(crate::diag::diags_view(diags@) =~= d0 + spec.1);
    r
}

proof fn lemma_check_split(
    ss: Seq<SpecStmt>,
    k: int,
    funcs: Seq<(Seq<char>, SpecSig)>,
    locals: Seq<(Seq<char>, SpecType)>,
    in_loop: bool,
    in_unsafe: bool,
)
    requires
        0 <= k < ss.len(),
    ensures
        check_stmts_spec(ss.subrange(k, ss.len() as int), funcs, locals, in_loop, in_unsafe) == ({
            let first = check_stmt_spec(ss[k], funcs, locals, in_loop, in_unsafe);
            let rest = check_stmts_spec(ss.subrange(k + 1, ss.len() as int), funcs, first.locals, in_loop, in_unsafe);
            CheckOut { stmts: first.stmts + rest.stmts, locals: rest.locals, diags: first.diags + rest.diags }
        }),
{
    let t = ss.subrange(k, ss.len() as int);
    assert(t[0] == ss[k]);
    assert(t.subrange(1, t.len() as int) =~= ss.subrange(k + 1, ss.len() as int));
}

fn check_stmt(
    stmt: Stmt,
    funcs: &Vec<(String, FuncSig)>,
    structs: &Vec<String>,
    locals: &mut Vec<(String, Type)>,
    diags: &mut Vec<Diagnostic>,
    in_loop: bool,
    in_unsafe: bool,
) -> (r: Stmt)
    ensures
        seq![r@] == check_stmt_spec(stmt@, funcs_view(funcs@), locals_view(old(locals)@), in_loop, in_unsafe).stmts,
        locals_view(final(locals)@) == check_stmt_spec(stmt@, funcs_view(funcs@), locals_view(old(locals)@), in_loop, in_unsafe).locals,
        crate::diag::diags_view(final(diags)@) == crate::diag::diags_view(old(diags)@)
            + check_stmt_spec(stmt@, funcs_view(funcs@), locals_view(old(locals)@), in_loop, in_unsafe).diags,
    decreases stmt,
{
    let ghost sv = stmt@;
    match stmt {
        Stmt::Val(b) => {
            check_expr(&b.init, diags, in_unsafe);
            let ty = match &b.ty {
                Some(t) => copy_type(t),
                None => Type::Int,
            };
            let ghost lv = locals_view(locals@);
            locals.push((b.name.clone(), ty));
            assert(locals_view(locals@) =~= lv.push((b.name@, match b@.ty { Some(t) => t, None => SpecType::Int })));
            Stmt::Val(b)
        },
        Stmt::Return(e, sp) => {
            check_expr(&e, diags, in_unsafe);
            Stmt::Return(e, sp)
        },
        Stmt::Loop(inner, sp) => {
            let inner2 = check_stmts(inner, funcs, structs, locals, diags, true, in_unsafe);
            Stmt::Loop(inner2, sp)
        },
        Stmt::Unsafe(inner, sp) => {
            let inner2 = check_stmts(inner, funcs, structs, locals, diags, in_loop, true);
            Stmt::Unsafe(inner2, sp)
        },
        Stmt::Call(call) => {
            let c2 = check_call(call, funcs, structs, locals, diags, in_loop, in_unsafe);
            Stmt::Call(c2)
        },
    }
}

#[verifier::loop_isolation(false)]
fn check_stmts(
    stmts: Vec<Stmt>,
    funcs: &Vec<(String, FuncSig)>,
    structs: &Vec<String>,
    locals: &mut Vec<(String, Type)>,
    diags: &mut Vec<Diagnostic>,
    in_loop: bool,
    in_unsafe: bool,
) -> (r: Vec<Stmt>)
    ensures
        stmts_view(r@) == check_stmts_spec(stmts_view(stmts@), funcs_view(funcs@), locals_view(old(locals)@), in_loop, in_unsafe).stmts,
        locals_view(final(locals)@) == check_stmts_spec(stmts_view(stmts@), funcs_view(funcs@), locals_view(old(locals)@), in_loop, in_unsafe).locals,
        crate::diag::diags_view(final(diags)@) == crate::diag::diags_view(old(diags)@)
            + check_stmts_spec(stmts_view(stmts@), funcs_view(funcs@), locals_view(old(locals)@), in_loop, in_unsafe).diags,
    decreases stmts,
{
    let ghost orig = stmts@;
    let ghost orig_vec = stmts;
    let ghost sv = stmts_view(stmts@);
    let ghost fv = funcs_view(funcs@);
    let ghost whole = check_stmts_spec(sv, fv, locals_view(locals@), in_loop, in_unsafe);
    let ghost d0 = crate::diag::diags_view(diags@);
    proof {
        lemma_stmts_view_len(stmts@);
        assert(sv.subrange(0, sv.len() as int) =~= sv);
    }
    let n = stmts.len();
    let mut rest = stmts;
    let mut out: Vec<Stmt> = Vec::new();
    let mut k: usize = 0;
    while k < n
        invariant
            n == orig.len(),
            orig_vec@ == orig,
            sv == stmts_view(orig),
            sv.len() == n,
            fv == funcs_view(funcs@),
            0 <= k <= n,
            rest@ == orig.subrange(k as int, n as int),
            ({
                let tail = check_stmts_spec(sv.subrange(k as int, n as int), fv, locals_view(locals@), in_loop, in_unsafe);
                &&& stmts_view(out@) + tail.stmts == whole.stmts
                &&& tail.locals == whole.locals
                &&& crate::diag::diags_view(diags@) + tail.diags == d0 + whole.diags
            }),
        decreases n - k,
    {
        let ghost before = rest@;
        let st = rest.remove(0);
        assert(st == orig[k as int]);
        assert(rest@ =~= orig.subrange(k + 1, n as int));
        proof {
            lemma_stmts_view_index(orig, k as int);
            lemma_check_split(sv, k as int, fv, locals_view(locals@), in_loop, in_unsafe);
        }
        let ghost oo = stmts_view(out@);
        let ghost dd = crate::diag::diags_view(diags@);
        let ghost ll = locals_view(locals@);
        assert(decreases_to!(orig_vec => orig_vec@));
        assert(decreases_to!(orig_vec@ => orig_vec@[k as int]));
        assert(decreases_to!(orig_vec => st));
        let st2 = check_stmt(st, funcs, structs, locals, diags, in_loop, in_unsafe);
        let ghost s2v = st2@;
        proof {
            lemma_stmts_view_push(out@, st2);
        }
        out.push(st2);
        proof {
            let first = check_stmt_spec(sv[k as int], fv, ll, in_loop, in_unsafe);
            let rest2 = check_stmts_spec(sv.subrange(k + 1, n as int), fv, first.locals, in_loop, in_unsafe);
            assert(first.stmts == seq![s2v]);
            assert(oo + (first.stmts + rest2.stmts) =~= oo.push(s2v) + rest2.stmts);
            assert(dd + (first.diags + rest2.diags) =~= (dd + first.diags) + rest2.diags);
        }
        k += 1;
    }
    proof {
        let tail = check_stmts_spec(sv.subrange(n as int, n as int), fv, locals_view(locals@), in_loop, in_unsafe);
        assert(sv.subrange(n as int, n as int) =~= Seq::<SpecStmt>::empty());
        assert(stmts_view(out@) + tail.stmts =~= stmts_view(out@));
        assert(crate::diag::diags_view(diags@) + tail.diags =~= crate::diag::diags_view(diags@));
    }
    out
}

fn has_force_static(attrs: &Vec<ConstAttr>) -> (r: bool)
    ensures
        r == attrs@.contains(ConstAttr::ForceStatic),
{
    let n = attrs.len();
    let mut k: usize = 0;
    while k < n
        invariant
            n == attrs@.len(),
            0 <= k <= n,
            forall|m: int| 0 <= m < k ==> attrs@[m] != ConstAttr::ForceStatic,
        decreases n - k,
    {
        if attrs[k] == ConstAttr::ForceStatic {
            assert(attrs@[k as int] == ConstAttr::ForceStatic);
            return true;
        }
        k += 1;
    }
    false
}

/// One item after checking; see `check_item_spec`.
fn check_item(
    item: Item,
    funcs: &Vec<(String, FuncSig)>,
    structs: &Vec<String>,
    taken: &Vec<String>,
    diags: &mut Vec<Diagnostic>,
) -> (r: Item)
    ensures
        r@ == check_item_spec(item@, funcs_view(funcs@), names_view(taken@)).0,
        crate::diag::diags_view(final(diags)@) == crate::diag::diags_view(old(diags)@)
            + check_item_spec(item@, funcs_view(funcs@), names_view(taken@)).1,
{
    match item {
        Item::Func(f) => {
            let ghost fv = f@;
            let Func { is_pub, name, name_span, params, return_type, is_view_return, body } = f;
            let mut locals: Vec<(String, Type)> = Vec::new();
            let n = params.len();
            let mut k: usize = 0;
            while k < n
                invariant
                    n == params@.len(),
                    0 <= k <= n,
                    locals@.len() == k,
                    forall|m: int| 0 <= m < k ==> #[trigger] locals@[m].0@ == params@[m].name@
                        && locals@[m].1@ == params@[m].ty@,
                decreases n - k,
            {
                let nm = params[k].name.clone();
                let ty = copy_type(&params[k].ty);
                let ghost before = locals@;
                locals.push((nm, ty));
                assert forall|m: int| 0 <= m < k + 1 implies #[trigger] locals@[m].0@ == params@[m].name@
                    && locals@[m].1@ == params@[m].ty@ by {
                    if m < k {
                        assert(locals@[m] == before[m]);
                    }
                }
                k += 1;
            }
            assert(locals_view(locals@) =~= fv.params.map_values(|p: SpecParam| (p.name, p.ty)));
            let body = check_stmts(body, funcs, structs, &mut locals, diags, false, false);
            Item::Func(Func { is_pub, name, name_span, params, return_type, is_view_return, body })
        },
        Item::Const(c) => {
            let force_static = has_force_static(&c.attrs);
            let interior = type_has_interior_mutability(&c);
            let used = contains_name(taken, c.name.as_str());
            let mut c = c;
            c.rust_kind = if force_static || used || interior {
                RustConstKind::Static
            } else {
                RustConstKind::Const
            };
            assert(crate::diag::diags_view(diags@) =~= crate::diag::diags_view(diags@) + Seq::<SpecDiag>::empty());
            Item::Const(c)
        },
        Item::Struct(sd) => {
            assert(crate::diag::diags_view(diags@) =~= crate::diag::diags_view(diags@) + Seq::<SpecDiag>::empty());
            Item::Struct(sd)
        },
    }
}

/// Checks a program: reports every problem at once (see `check_spec` for
/// the order), marks each const as a Rust `static` or `const`, and flags
/// the call arguments that will be cloned implicitly.
pub fn check(prog: &mut Program) -> (diags: Vec<Diagnostic>)
    ensures
        (final(prog)@, crate::diag::diags_view(diags@)) == check_spec(old(prog)@),
{
    let ghost iv = crate::ast::items_view(prog.items@);
    let mut diags: Vec<Diagnostic> = Vec::new();
    let mut funcs: Vec<(String, FuncSig)> = Vec::new();
    let mut structs: Vec<String> = Vec::new();
    let mut const_names: Vec<String> = Vec::new();
    let n = prog.items.len();
    let mut k: usize = 0;
    assert(iv.take(0) =~= Seq::<SpecItem>::empty());
    assert(crate::diag::diags_view(diags@) =~= Seq::<SpecDiag>::empty());
    assert(funcs_view(funcs@) =~= Seq::<(Seq<char>, SpecSig)>::empty());
    assert(names_view(structs@) =~= Seq::<Seq<char>>::empty());
    assert(names_view(const_names@) =~= Seq::<Seq<char>>::empty());
    while k < n
        invariant
            n == prog.items@.len(),
            iv == crate::ast::items_view(prog.items@),
            0 <= k <= n,
            tables_view(funcs@, structs@, const_names@, diags@) == declare_all(iv.take(k as int)),
        decreases n - k,
    {
        assert(iv.take(k + 1).drop_last() =~= iv.take(k as int));
        declare_item(&prog.items[k], &mut funcs, &mut structs, &mut const_names, &mut diags);
        k += 1;
    }
    assert(iv.take(n as int) =~= iv);
    let ghost t = declare_all(iv);
    if find_func(&funcs, "main").is_none() {
        diags.push(
            Diagnostic::error(
                "E0101",
                "this program has no `main` function".to_string(),
                "running a program starts at `fn main`, and this file doesn't define one".to_string(),
                "add one to this file: fn main() { ... }".to_string(),
                None,
            ),
        );
    }
    let ghost d_main = if has_func(t.funcs, "main"@) {
        Seq::<SpecDiag>::empty()
    } else {
        seq![no_main()]
    };
    assert(crate::diag::diags_view(diags@) =~= t.diags + d_main);

    // Which consts are named in function bodies.
    let mut taken: Vec<String> = Vec::new();
    let mut k: usize = 0;
    assert(names_view(taken@) =~= Seq::<Seq<char>>::empty());
    while k < n
        invariant
            n == prog.items@.len(),
            iv == crate::ast::items_view(prog.items@),
            0 <= k <= n,
            names_view(const_names@) == t.consts,
            names_view(taken@) == items_refs(iv.take(k as int), t.consts),
        decreases n - k,
    {
        assert(iv.take(k + 1).drop_last() =~= iv.take(k as int));
        let ghost before = names_view(taken@);
        if let Item::Func(f) = &prog.items[k] {
            walk_stmts_for_const_refs(&f.body, &const_names, &mut taken);
        } else {
            assert(names_view(taken@) =~= before + Seq::<Seq<char>>::empty());
        }
        k += 1;
    }
    let ghost taken_spec = items_refs(iv, t.consts);
    assert(names_view(taken@) == taken_spec);

    // Mark consts and check function bodies.
    let ghost d1 = crate::diag::diags_view(diags@);
    let mut rest: Vec<Item> = Vec::new();
    std::mem::swap(&mut rest, &mut prog.items);
    let ghost orig = rest@;
    let mut out: Vec<Item> = Vec::new();
    let mut k: usize = 0;
    assert(iv.take(0) =~= Seq::<SpecItem>::empty());
    assert(crate::ast::items_view(out@) =~= Seq::<SpecItem>::empty());
    assert(d1 + Seq::<SpecDiag>::empty() =~= d1);
    while k < n
        invariant
            n == orig.len(),
            iv == crate::ast::items_view(orig),
            0 <= k <= n,
            rest@ == orig.subrange(k as int, n as int),
            funcs_view(funcs@) == t.funcs,
            names_view(taken@) == taken_spec,
            ({
                let (items, d) = check_items_spec(iv.take(k as int), t.funcs, taken_spec);
                &&& crate::ast::items_view(out@) == items
                &&& crate::diag::diags_view(diags@) == d1 + d
            }),
        decreases n - k,
    {
        assert(rest@.len() == n - k);
        let ghost before = rest@;
        let it = rest.remove(0);
        assert(it == orig[k as int]);
        assert(rest@ =~= orig.subrange(k + 1, n as int));
        assert(iv.take(k + 1).drop_last() =~= iv.take(k as int));
        assert(iv.take(k + 1).last() == it@);
        let ghost oo = crate::ast::items_view(out@);
        let ghost dd = crate::diag::diags_view(diags@);
        let it2 = check_item(it, &funcs, &structs, &taken, &mut diags);
        let ghost i2 = it2@;
        out.push(it2);
        proof {
            assert(crate::ast::items_view(out@) =~= oo.push(i2));
            let (prev, pd) = check_items_spec(iv.take(k as int), t.funcs, taken_spec);
            let (x, xd) = check_item_spec(iv[k as int], t.funcs, taken_spec);
            assert(d1 + (pd + xd) =~= (d1 + pd) + xd);
        }
        k += 1;
    }
    prog.items = out;
    assert(iv.take(n as int) =~= iv);
    assert(crate::diag::diags_view(diags@) =~= t.diags + d_main + check_items_spec(iv, t.funcs, taken_spec).1);
    diags
}

} // verus!
