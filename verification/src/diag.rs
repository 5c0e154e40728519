//! Diagnostics: every user-facing error in the language flows through here.
//!
//! Every Diagnostic has a stable code, a `what` (one line, plain language),
//! a `why` (the rule behind it), and a `fix` (a concrete next step).
use crate::text::{
    byte_offset, byte_offsets, chars_of, decimal, decimal_string, fits_in_memory,
    push_char, push_text, width_sum,
};
use vstd::prelude::*;

verus! {

#[derive(Debug, Clone, Copy, PartialEq, Eq, Structural)]
pub struct Span {
    /// Byte offset into the source, inclusive.
    pub start: usize,
    /// Byte offset into the source, exclusive.
    pub end: usize,
}

impl Span {
    pub fn new(start: usize, end: usize) -> (s: Self)
        ensures
            s == (Span { start, end }),
    {
        Span { start, end }
    }
}

#[derive(Debug, Clone, Copy, PartialEq, Eq, Structural)]
pub enum Severity {
    Error,
    Lint,
}

#[derive(Debug, Clone)]
pub struct Diagnostic {
    pub severity: Severity,
    pub code: &'static str,
    pub what: String,
    pub why: String,
    pub fix: String,
    pub span: Option<Span>,
}

/// The model of a diagnostic.
pub struct SpecDiag {
    pub severity: Severity,
    pub code: Seq<char>,
    pub what: Seq<char>,
    pub why: Seq<char>,
    pub fix: Seq<char>,
    pub span: Option<Span>,
}

impl View for Diagnostic {
    type V = SpecDiag;

    open spec fn view(&self) -> SpecDiag {
        SpecDiag {
            severity: self.severity,
            code: self.code@,
            what: self.what@,
            why: self.why@,
            fix: self.fix@,
            span: self.span,
        }
    }
}

pub open spec fn diags_view(v: Seq<Diagnostic>) -> Seq<SpecDiag> {
    v.map_values(|d: Diagnostic| d@)
}

/// The model of an error diagnostic.
pub open spec fn spec_error(
    code: Seq<char>,
    what: Seq<char>,
    why: Seq<char>,
    fix: Seq<char>,
    span: Option<Span>,
) -> SpecDiag {
    SpecDiag { severity: Severity::Error, code, what, why, fix, span }
}

/// The model of a lint diagnostic.
pub open spec fn spec_lint(
    code: Seq<char>,
    what: Seq<char>,
    why: Seq<char>,
    fix: Seq<char>,
    span: Option<Span>,
) -> SpecDiag {
    SpecDiag { severity: Severity::Lint, code, what, why, fix, span }
}

impl Diagnostic {
    pub fn error(code: &'static str, what: String, why: String, fix: String, span: Option<Span>) -> (d: Self)
        ensures
            d@ == spec_error(code@, what@, why@, fix@, span),
    {
        Diagnostic { severity: Severity::Error, code, what, why, fix, span }
    }

    pub fn lint(code: &'static str, what: String, why: String, fix: String, span: Option<Span>) -> (d: Self)
        ensures
            d@ == spec_lint(code@, what@, why@, fix@, span),
    {
        Diagnostic { severity: Severity::Lint, code, what, why, fix, span }
    }
}

// ---------------------------------------------------------------------
// Rendering.
// ---------------------------------------------------------------------

/// The index of the first character of `s`, from `k` on, that starts at or
/// after byte `offset` (or the length of `s`).
pub open spec fn chars_before(s: Seq<char>, offset: nat, k: int) -> int
    decreases s.len() - k,
{
    if k < 0 || k >= s.len() || byte_offset(s, k) >= offset {
        k
    } else {
        chars_before(s, offset, k + 1)
    }
}

/// 1-based (line, column) just after the first `k` characters of `s`;
/// columns count characters, not bytes.
pub open spec fn line_col_at(s: Seq<char>, k: int) -> (nat, nat)
    decreases k,
{
    if k <= 0 {
        (1, 1)
    } else {
        let (l, c) = line_col_at(s, k - 1);
        if s[k - 1] == '\n' {
            (l + 1, 1)
        } else {
            (l, c + 1)
        }
    }
}

/// 1-based (line, column) of byte `offset` in `s`.
pub open spec fn line_col_spec(s: Seq<char>, offset: nat) -> (nat, nat) {
    line_col_at(s, chars_before(s, offset, 0))
}

/// The index of the first newline of `s` at or after `k` (or the length).
pub open spec fn next_newline(s: Seq<char>, k: int) -> int
    decreases s.len() - k,
{
    if k < 0 || k >= s.len() || s[k] == '\n' {
        k
    } else {
        next_newline(s, k + 1)
    }
}

/// Where the `n`-th line (counting from 0) of `s` starts, if some newline
/// ends the line before it.
pub open spec fn line_start(s: Seq<char>, n: nat) -> Option<int>
    decreases n,
{
    if n == 0 {
        Some(0)
    } else {
        match line_start(s, (n - 1) as nat) {
            Some(st) => {
                let e = next_newline(s, st);
                if e < s.len() {
                    Some(e + 1)
                } else {
                    None
                }
            },
            None => None,
        }
    }
}

/// The `n`-th line of `s` as std `str::lines` yields it: lines end at `\n`,
/// a `\r` just before that `\n` is dropped, and a final line ending is
/// optional.
pub open spec fn nth_line(s: Seq<char>, n: nat) -> Option<Seq<char>> {
    match line_start(s, n) {
        Some(st) => if 0 <= st < s.len() {
            let e = next_newline(s, st);
            let stop = if e < s.len() && e > st && s[e - 1] == '\r' {
                e - 1
            } else {
                e
            };
            Some(s.subrange(st, stop))
        } else {
            None
        },
        None => None,
    }
}

/// The index of the character that starts at byte `b`, searching from `k`
/// (the length counts as the boundary at the end).
pub open spec fn boundary_index(s: Seq<char>, b: nat, k: int) -> Option<int>
    decreases s.len() + 1 - k,
{
    if k < 0 || k > s.len() {
        None
    } else if byte_offset(s, k) == b {
        Some(k)
    } else {
        boundary_index(s, b, k + 1)
    }
}

/// The source text that `span` covers, as std `str::get` on the byte range
/// (cut at the end of the text) yields it, or nothing when the range does
/// not fall on character boundaries.
pub open spec fn snippet(s: Seq<char>, span: Span) -> Seq<char> {
    let total = width_sum(s);
    let e: nat = if span.end <= total {
        span.end as nat
    } else {
        total
    };
    match (boundary_index(s, span.start as nat, 0), boundary_index(s, e, 0)) {
        (Some(a), Some(b)) => if span.start <= e && a <= b {
            s.subrange(a, b)
        } else {
            Seq::empty()
        },
        _ => Seq::empty(),
    }
}

/// How many carets underline `span`: its characters before any newline,
/// at least one, and no more than the line has from the column on.
pub open spec fn caret_count(s: Seq<char>, span: Span, line_text: Seq<char>, col: nat) -> nat {
    let snip = snippet(s, span);
    let raw = next_newline(snip, 0);
    let c0: nat = if raw >= 1 {
        raw as nat
    } else {
        1
    };
    let avail: int = if line_text.len() >= col - 1 {
        line_text.len() - (col - 1)
    } else {
        0
    };
    if avail > 0 && avail < c0 {
        avail as nat
    } else {
        c0
    }
}

pub open spec fn repeat_char(c: char, n: nat) -> Seq<char> {
    Seq::new(n, |i: int| c)
}

/// `d` right-aligned in a field three characters wide.
pub open spec fn pad3(d: Seq<char>) -> Seq<char> {
    if d.len() >= 3 {
        d
    } else {
        repeat_char(' ', (3 - d.len()) as nat) + d
    }
}

pub open spec fn severity_label(sev: Severity) -> Seq<char> {
    match sev {
        Severity::Error => "error"@,
        Severity::Lint => "warning"@,
    }
}

/// The location block of a diagnostic with a span: file, line and column,
/// the source line, and carets under the spanned text.
pub open spec fn location_block(file: Seq<char>, src: Seq<char>, span: Span) -> Seq<char> {
    let (line, col) = line_col_spec(src, span.start as nat);
    let line_text = match nth_line(src, (line - 1) as nat) {
        Some(t) => t,
        None => Seq::empty(),
    };
    let carets = caret_count(src, span, line_text, col);
    "  --> "@ + file + ":"@ + decimal(line) + ":"@ + decimal(col) + "\n"@
        + "    |\n"@
        + pad3(decimal(line)) + " | "@ + line_text + "\n"@
        + "    | "@ + repeat_char(' ', (col - 1) as nat) + repeat_char('^', carets) + "\n"@
}

/// The rendered text of a diagnostic.
pub open spec fn render_spec(d: SpecDiag, file: Seq<char>, src: Seq<char>) -> Seq<char> {
    let head = severity_label(d.severity) + "["@ + d.code + "]: "@ + d.what + "\n"@;
    let loc = match d.span {
        Some(span) => location_block(file, src, span),
        None => Seq::empty(),
    };
    head + loc + " why: "@ + d.why + "\n"@ + " fix: "@ + d.fix + "\n"@
}

/// The rendered text of several diagnostics, a blank line between each.
pub open spec fn render_all_spec(ds: Seq<SpecDiag>, file: Seq<char>, src: Seq<char>) -> Seq<char>
    decreases ds.len(),
{
    if ds.len() == 0 {
        Seq::empty()
    } else if ds.len() == 1 {
        render_spec(ds[0], file, src)
    } else {
        render_all_spec(ds.drop_last(), file, src) + "\n"@ + render_spec(ds.last(), file, src)
    }
}

/// 1-based (line, column) of byte `offset`, over the characters and their
/// byte offsets.
fn line_col_in(chars: &Vec<char>, offs: &Vec<usize>, offset: usize) -> (r: (usize, usize))
    requires
        offs@.len() == chars@.len() + 1,
        forall|k: int| 0 <= k <= chars@.len() ==> #[trigger] offs@[k] == byte_offset(chars@, k),
        chars@.len() <= isize::MAX,
    ensures
        (r.0 as nat, r.1 as nat) == line_col_spec(chars@, offset as nat),
        r.0 >= 1,
        r.1 >= 1,
{
    let n = chars.len();
    let mut line: usize = 1;
    let mut col: usize = 1;
    let mut k: usize = 0;
    while k < n && offs[k] < offset
        invariant
            n == chars@.len(),
            n <= isize::MAX,
            offs@.len() == n + 1,
            forall|m: int| 0 <= m <= n ==> #[trigger] offs@[m] == byte_offset(chars@, m),
            0 <= k <= n,
            chars_before(chars@, offset as nat, 0) == chars_before(chars@, offset as nat, k as int),
            (line as nat, col as nat) == line_col_at(chars@, k as int),
            1 <= line <= k + 1,
            1 <= col <= k + 1,
        decreases n - k,
    {
        if chars[k] == '\n' {
            line += 1;
            col = 1;
        } else {
            col += 1;
        }
        k += 1;
    }
    (line, col)
}

/// 1-based (line, column). Columns count characters, not bytes.
fn line_col(src: &str, offset: usize) -> (r: (usize, usize))
    requires
        fits_in_memory(src@),
    ensures
        (r.0 as nat, r.1 as nat) == line_col_spec(src@, offset as nat),
        r.0 >= 1,
        r.1 >= 1,
{
    let chars = chars_of(src);
    let offs = byte_offsets(&chars);
    line_col_in(&chars, &offs, offset)
}

/// The index of the first newline at or after `k`.
fn find_newline(chars: &Vec<char>, k: usize) -> (e: usize)
    requires
        k <= chars@.len(),
    ensures
        e == next_newline(chars@, k as int),
        k <= e <= chars@.len(),
{
    let n = chars.len();
    let mut e = k;
    while e < n && chars[e] != '\n'
        invariant
            n == chars@.len(),
            k <= e <= n,
            next_newline(chars@, k as int) == next_newline(chars@, e as int),
        decreases n - e,
    {
        e += 1;
    }
    e
}

/// The `n`-th line of the text, or nothing when there is no such line.
fn nth_line_in(chars: &Vec<char>, n: usize) -> (r: Option<String>)
    ensures
        match r {
            Some(t) => nth_line(chars@, n as nat) == Some(t@),
            None => nth_line(chars@, n as nat) is None,
        },
{
    let len = chars.len();
    let mut st: usize = 0;
    let mut m: usize = 0;
    while m < n
        invariant
            len == chars@.len(),
            0 <= m <= n,
            st <= len,
            line_start(chars@, m as nat) == Some(st as int),
        decreases n - m,
    {
        let e = find_newline(chars, st);
        if e < len {
            st = e + 1;
            m += 1;
        } else {
            proof {
                lemma_line_start_none(chars@, (m + 1) as nat, n as nat);
            }
            return None;
        }
    }
    if st >= len {
        return None;
    }
    let e = find_newline(chars, st);
    let stop = if e < len && e > st && chars[e - 1] == '\r' {
        e - 1
    } else {
        e
    };
    Some(crate::text::string_of_range(chars.as_slice(), st, stop))
}

proof fn lemma_line_start_none(s: Seq<char>, m: nat, n: nat)
    requires
        m <= n,
        line_start(s, m) is None,
    ensures
        line_start(s, n) is None,
    decreases n - m,
{
    if m < n {
        lemma_line_start_none(s, m, (n - 1) as nat);
    }
}

/// The character index at which byte `b` falls on a character boundary.
fn find_boundary(offs: &Vec<usize>, chars: &Vec<char>, b: usize) -> (r: Option<usize>)
    requires
        chars@.len() <= isize::MAX,
        offs@.len() == chars@.len() + 1,
        forall|k: int| 0 <= k <= chars@.len() ==> #[trigger] offs@[k] == byte_offset(chars@, k),
    ensures
        match r {
            Some(k) => boundary_index(chars@, b as nat, 0) == Some(k as int) && k <= chars@.len(),
            None => boundary_index(chars@, b as nat, 0) is None,
        },
{
    let n = chars.len();
    let mut k: usize = 0;
    while k <= n
        invariant
            n == chars@.len(),
            n <= isize::MAX,
            offs@.len() == n + 1,
            forall|m: int| 0 <= m <= n ==> #[trigger] offs@[m] == byte_offset(chars@, m),
            0 <= k <= n + 1,
            boundary_index(chars@, b as nat, 0) == boundary_index(chars@, b as nat, k as int),
        decreases n + 1 - k,
    {
        if offs[k] == b {
            return Some(k);
        }
        k += 1;
    }
    None
}

/// The number of characters of `v` before its first newline.
fn count_before_newline(v: &Vec<char>) -> (r: usize)
    ensures
        r == next_newline(v@, 0),
{
    find_newline(v, 0)
}

/// How many carets underline the span; see `caret_count`.
fn caret_len(chars: &Vec<char>, offs: &Vec<usize>, span: Span, line_text: &String, col: usize) -> (r: usize)
    requires
        chars@.len() <= isize::MAX,
        offs@.len() == chars@.len() + 1,
        offs@[chars@.len() as int] == width_sum(chars@),
        forall|k: int| 0 <= k <= chars@.len() ==> #[trigger] offs@[k] == byte_offset(chars@, k),
        col >= 1,
    ensures
        r == caret_count(chars@, span, line_text@, col as nat),
{
    let total = offs[chars.len()];
    let e = if span.end <= total { span.end } else { total };
    let snip: Vec<char> = match (find_boundary(offs, chars, span.start), find_boundary(offs, chars, e)) {
        (Some(a), Some(b)) => {
            if span.start <= e && a <= b {
                let mut v: Vec<char> = Vec::new();
                let mut k = a;
                while k < b
                    invariant
                        a <= k <= b <= chars@.len(),
                        v@ == chars@.subrange(a as int, k as int),
                    decreases b - k,
                {
                    v.push(chars[k]);
                    assert(chars@.subrange(a as int, k + 1) =~= chars@.subrange(a as int, k as int).push(chars@[k as int]));
                    k += 1;
                }
                v
            } else {
                Vec::new()
            }
        },
        _ => Vec::new(),
    };
    assert(snip@ == snippet(chars@, span));
    let raw = count_before_newline(&snip);
    let c0 = if raw >= 1 { raw } else { 1 };
    let lt = chars_of(line_text.as_str());
    let avail: usize = if lt.len() >= col - 1 { lt.len() - (col - 1) } else { 0 };
    if avail > 0 && avail < c0 {
        avail
    } else {
        c0
    }
}

fn push_repeat(out: &mut String, c: char, n: usize)
    ensures
        final(out)@ == old(out)@ + repeat_char(c, n as nat),
{
    let ghost start = out@;
    let mut k: usize = 0;
    while k < n
        invariant
            0 <= k <= n,
            out@ == start + repeat_char(c, k as nat),
        decreases n - k,
    {
        push_char(out, c);
        assert(start + repeat_char(c, (k + 1) as nat) =~= (start + repeat_char(c, k as nat)).push(c));
        k += 1;
    }
}

/// The location block of a diagnostic with a span; see `location_block`.
fn location(file: &str, src: &str, span: Span) -> (out: String)
    requires
        fits_in_memory(src@),
    ensures
        out@ == location_block(file@, src@, span),
{
    let (line, col) = line_col(src, span.start);
    let chars = chars_of(src);
    let offs = byte_offsets(&chars);
    let line_digits = decimal_string(line);
    let col_digits = decimal_string(col);
    let line_text = match nth_line_in(&chars, line - 1) {
        Some(t) => t,
        None => String::new(),
    };
    let carets = caret_len(&chars, &offs, span, &line_text, col);
    let mut out = String::new();
    push_text(&mut out, "  --> ");
    push_text(&mut out, file);
    push_text(&mut out, ":");
    push_text(&mut out, line_digits.as_str());
    push_text(&mut out, ":");
    push_text(&mut out, col_digits.as_str());
    push_text(&mut out, "\n");
    push_text(&mut out, "    |\n");
    let ghost part1 = out@;
    let mut padded = String::new();
    let width = line_digits.as_str().unicode_len();
    if width < 3 {
        push_repeat(&mut padded, ' ', 3 - width);
    }
    push_text(&mut padded, line_digits.as_str());
    assert(padded@ =~= pad3(decimal(line as nat)));
    push_text(&mut out, padded.as_str());
    push_text(&mut out, " | ");
    push_text(&mut out, line_text.as_str());
    push_text(&mut out, "\n");
    push_text(&mut out, "    | ");
    push_repeat(&mut out, ' ', col - 1);
    push_repeat(&mut out, '^', carets);
    push_text(&mut out, "\n");
    assert(out@ =~= location_block(file@, src@, span));
    out
}

impl Diagnostic {
    /// Render in the exact format of the diagnostics contract: a header line,
    /// then (for a diagnostic with a span) the location, the source line and
    /// carets under the spanned text, then the why and fix lines.
    pub fn render(&self, file: &str, src: &str) -> (out: String)
        requires
            fits_in_memory(src@),
        ensures
            out@ == render_spec(self@, file@, src@),
    {
        let mut out = String::new();
        match self.severity {
            Severity::Error => push_text(&mut out, "error"),
            Severity::Lint => push_text(&mut out, "warning"),
        }
        push_text(&mut out, "[");
        push_text(&mut out, self.code);
        push_text(&mut out, "]: ");
        push_text(&mut out, self.what.as_str());
        push_text(&mut out, "\n");
        let ghost head = out@;
        assert(head =~= severity_label(self.severity) + "["@ + self.code@ + "]: "@ + self.what@ + "\n"@);
        let loc = match self.span {
            Some(span) => location(file, src, span),
            None => String::new(),
        };
        push_text(&mut out, loc.as_str());
        push_text(&mut out, " why: ");
        push_text(&mut out, self.why.as_str());
        push_text(&mut out, "\n");
        push_text(&mut out, " fix: ");
        push_text(&mut out, self.fix.as_str());
        push_text(&mut out, "\n");
        assert(out@ =~= render_spec(self@, file@, src@));
        out
    }
}

/// Render a batch of diagnostics, blank line between each.
pub fn render_all(file: &str, src: &str, diags: &[Diagnostic]) -> (out: String)
    requires
        fits_in_memory(src@),
    ensures
        out@ == render_all_spec(diags_view(diags@), file@, src@),
{
    let mut out = String::new();
    let n = diags.len();
    let mut k: usize = 0;
    while k < n
        invariant
            n == diags@.len(),
            0 <= k <= n,
            fits_in_memory(src@),
            out@ == render_all_spec(diags_view(diags@.take(k as int)), file@, src@),
        decreases n - k,
    {
        let r = diags[k].render(file, src);
        let ghost before = diags_view(diags@.take(k as int));
        if k > 0 {
            push_text(&mut out, "\n");
        }
        push_text(&mut out, r.as_str());
        proof {
            let now = diags_view(diags@.take(k + 1));
            assert(now.drop_last() =~= before);
            assert(now.last() == diags@[k as int]@);
            if k == 0 {
                assert(out@ =~= render_spec(now[0], file@, src@));
            }
        }
        k += 1;
    }
    assert(diags@.take(n as int) =~= diags@);
    out
}

} // verus!
