//! lex — compiler library: the front end (lexer, parser, checker) of the
//! Lex language and its diagnostics.
//!
//! Pipeline: lex -> parse -> sema. The front end owns all user-facing
//! correctness and every diagnostic: a program that leaves `compile`
//! without errors is ready for a backend.
pub mod ast;
pub mod diag;
pub mod laws;
pub mod lexer;
pub mod parser;
pub mod sema;
pub mod syntax;
pub mod text;

pub use diag::render_all as render_diagnostics;

use ast::{Program, SpecProgram};
use diag::{diags_view, Diagnostic, Severity, SpecDiag};
use lexer::lex_spec;
use parser::parse_spec;
use sema::check_spec;
use text::fits_in_memory;
use vstd::prelude::*;

verus! {

/// Result of a successful compile: the checked program plus any lint
/// warnings.
#[derive(Debug)]
pub struct CompileOutput {
    pub program: Program,
    pub lints: Vec<Diagnostic>,
}

/// The diagnostics of `ds` with the given severity, in order.
pub open spec fn with_severity(ds: Seq<SpecDiag>, sev: Severity) -> Seq<SpecDiag>
    decreases ds.len(),
{
    if ds.len() == 0 {
        Seq::empty()
    } else if ds.last().severity == sev {
        with_severity(ds.drop_last(), sev).push(ds.last())
    } else {
        with_severity(ds.drop_last(), sev)
    }
}

/// What compiling `src` yields: the lexer's diagnostics if there are any;
/// else the parser's diagnostic if it fails; else the checker's errors if
/// there are any; else the checked program and the checker's lints.
pub open spec fn compile_spec(src: Seq<char>) -> Result<(SpecProgram, Seq<SpecDiag>), Seq<SpecDiag>> {
    let (toks, lex_diags) = lex_spec(src);
    if lex_diags.len() > 0 {
        Err(lex_diags)
    } else {
        match parse_spec(toks) {
            Err(d) => Err(seq![d]),
            Ok(prog) => {
                let (checked, diags) = check_spec(prog);
                let errors = with_severity(diags, Severity::Error);
                if errors.len() > 0 {
                    Err(errors)
                } else {
                    Ok((checked, with_severity(diags, Severity::Lint)))
                }
            },
        }
    }
}

/// Run the full front end on source text.
pub fn compile(src: &str) -> (r: Result<CompileOutput, Vec<Diagnostic>>)
    requires
        fits_in_memory(src@),
    ensures
        match r {
            Ok(out) => compile_spec(src@) == Ok::<(SpecProgram, Seq<SpecDiag>), Seq<SpecDiag>>(
                (out.program@, diags_view(out.lints@)),
            ),
            Err(ds) => compile_spec(src@) == Err::<(SpecProgram, Seq<SpecDiag>), Seq<SpecDiag>>(diags_view(ds@)),
        },
{
    let (toks, lex_diags) = lexer::lex(src);
    if lex_diags.len() > 0 {
        return Err(lex_diags);
    }
    proof {
        lexer::lemma_lex_from_ends_with_eof(lexer::source_model(src@), text::width_sum(src@) as usize, 0);
    }
    let mut prog = match parser::parse(toks.as_slice()) {
        Ok(p) => p,
        Err(d) => {
            let ghost dv = d@;
            let mut v = Vec::new();
            v.push(d);
            assert(diags_view(v@) =~= seq![dv]);
            return Err(v);
        },
    };
    let diags = sema::check(&mut prog);
    let ghost dv = diags_view(diags@);
    let mut errors: Vec<Diagnostic> = Vec::new();
    let mut lints: Vec<Diagnostic> = Vec::new();
    let mut rest = diags;
    let n = rest.len();
    let mut k: usize = 0;
    assert(dv.take(0) =~= Seq::<SpecDiag>::empty());
    assert(diags_view(errors@) =~= Seq::<SpecDiag>::empty());
    assert(diags_view(lints@) =~= Seq::<SpecDiag>::empty());
    while k < n
        invariant
            n == dv.len(),
            0 <= k <= n,
            diags_view(rest@) == dv.subrange(k as int, n as int),
            diags_view(errors@) == with_severity(dv.take(k as int), Severity::Error),
            diags_view(lints@) == with_severity(dv.take(k as int), Severity::Lint),
        decreases n - k,
    {
        assert(diags_view(rest@).len() == rest@.len());
        assert(diags_view(rest@)[0] == dv[k as int]);
        let ghost before = rest@;
        let d = rest.remove(0);
        assert(rest@ =~= before.subrange(1, before.len() as int));
        assert forall|m: int| 0 <= m < rest@.len() implies #[trigger] diags_view(rest@)[m] == dv[k + 1 + m] by {
            assert(rest@[m] == before[m + 1]);
            assert(diags_view(before)[m + 1] == dv[k + 1 + m]);
        }
        assert(diags_view(rest@) =~= dv.subrange(k + 1, n as int));
        assert(dv.take(k + 1).drop_last() =~= dv.take(k as int));
        assert(dv.take(k + 1).last() == d@);
        let ghost ev = diags_view(errors@);
        let ghost lv = diags_view(lints@);
        let ghost this = d@;
        match d.severity {
            Severity::Error => {
                errors.push(d);
                assert(diags_view(errors@) =~= ev.push(this));
            },
            Severity::Lint => {
                lints.push(d);
                assert(diags_view(lints@) =~= lv.push(this));
            },
        }
        k += 1;
    }
    assert(dv.take(n as int) =~= dv);
    if errors.len() > 0 {
        return Err(errors);
    }
    Ok(CompileOutput { program: prog, lints })
}

} // verus!
