//! Text helpers shared by the lexer, the diagnostics and the checker:
//! character sequences, decimal numbers, and the UTF-8 byte positions that
//! every span is measured in.
use vstd::prelude::*;

verus! {

/// Appends one character to a string (std `String::push`). The claim: the
/// string afterwards is the old one followed by `c`.
#[verifier::external_body]
pub(crate) fn push_char(s: &mut String, c: char)
    ensures
        final(s)@ == old(s)@.push(c),
{
    s.push(c);
}

/// Whether two pieces of text hold the same characters.
pub(crate) fn text_eq(a: &str, b: &str) -> (r: bool)
    ensures
        r == (a@ == b@),
{
    let av = chars_of(a);
    let bv = chars_of(b);
    if av.len() != bv.len() {
        return false;
    }
    let r = matches_at(&av, 0, &bv);
    assert(av@.subrange(0, bv@.len() as int) =~= av@);
    r
}

/// The characters of `s`, in order.
pub fn chars_of(s: &str) -> (v: Vec<char>)
    ensures
        v@ == s@,
{
    let mut v: Vec<char> = Vec::new();
    for c in it: s.chars()
        invariant
            v@ == it.seq().take(it.index() as int),
            it.seq() == s@,
    {
        v.push(c);
    }
    v
}

/// A string holding exactly the characters `v[from..to]`.
pub fn string_of_range(v: &[char], from: usize, to: usize) -> (s: String)
    requires
        from <= to <= v@.len(),
    ensures
        s@ == v@.subrange(from as int, to as int),
{
    let mut s = String::new();
    let mut k: usize = from;
    while k < to
        invariant
            from <= k <= to <= v@.len(),
            s@ == v@.subrange(from as int, k as int),
        decreases to - k,
    {
        push_char(&mut s, v[k]);
        assert(v@.subrange(from as int, k + 1) == v@.subrange(from as int, k as int).push(v@[k as int]));
        k += 1;
    }
    s
}

/// Appends the text of `t` to `s`.
pub fn push_text(s: &mut String, t: &str)
    ensures
        final(s)@ == old(s)@ + t@,
{
    s.append(t);
}

// ----- decimal numbers -----

/// The digit character for `d` (0..9).
pub open spec fn digit_char(d: nat) -> char {
    ((48 + d) as u8) as char
}

/// The decimal spelling of `n`, without sign or leading zeros.
pub open spec fn decimal(n: nat) -> Seq<char>
    decreases n,
{
    if n < 10 {
        seq![digit_char(n)]
    } else {
        decimal(n / 10).push(digit_char(n % 10))
    }
}

/// The decimal spelling of `n`.
pub fn decimal_string(n: usize) -> (s: String)
    ensures
        s@ == decimal(n as nat),
    decreases n,
{
    if n < 10 {
        let mut s = String::new();
        push_char(&mut s, ((48 + n) as u8) as char);
        s
    } else {
        let mut s = decimal_string(n / 10);
        push_char(&mut s, ((48 + n % 10) as u8) as char);
        s
    }
}

// ----- UTF-8 byte positions -----

/// The number of bytes that `c` takes in UTF-8.
pub open spec fn char_width(c: char) -> nat {
    let u: u32 = c as u32;
    if u <= 0x7F {
        1
    } else if u <= 0x7FF {
        2
    } else if u <= 0xFFFF {
        3
    } else {
        4
    }
}

/// The number of bytes that `s` takes in UTF-8.
pub open spec fn width_sum(s: Seq<char>) -> nat
    decreases s.len(),
{
    if s.len() == 0 {
        0
    } else {
        char_width(s[0]) + width_sum(s.drop_first())
    }
}

/// The byte offset at which the `k`-th character of `s` starts.
pub open spec fn byte_offset(s: Seq<char>, k: int) -> nat {
    width_sum(s.take(k))
}

/// The number of bytes that `c` takes in UTF-8.
pub fn char_width_of(c: char) -> (w: usize)
    ensures
        w == char_width(c),
        1 <= w <= 4,
{
    let u: u32 = c as u32;
    if u <= 0x7F {
        1
    } else if u <= 0x7FF {
        2
    } else if u <= 0xFFFF {
        3
    } else {
        4
    }
}

pub proof fn lemma_width_sum_append(a: Seq<char>, b: Seq<char>)
    ensures
        width_sum(a + b) == width_sum(a) + width_sum(b),
    decreases a.len(),
{
    if a.len() == 0 {
        assert(a + b =~= b);
    } else {
        lemma_width_sum_append(a.drop_first(), b);
        assert((a + b).drop_first() =~= a.drop_first() + b);
    }
}

pub proof fn lemma_byte_offset_step(s: Seq<char>, k: int)
    requires
        0 <= k < s.len(),
    ensures
        byte_offset(s, k + 1) == byte_offset(s, k) + char_width(s[k]),
{
    assert(s.take(k + 1) =~= s.take(k) + seq![s[k]]);
    lemma_width_sum_append(s.take(k), seq![s[k]]);
    assert(seq![s[k]].drop_first() =~= Seq::<char>::empty());
    assert(width_sum(seq![s[k]]) == char_width(s[k]) + width_sum(Seq::<char>::empty()));
}

pub proof fn lemma_byte_offset_mono(s: Seq<char>, j: int, k: int)
    requires
        0 <= j <= k <= s.len(),
    ensures
        byte_offset(s, j) <= byte_offset(s, k),
        j < k ==> byte_offset(s, j) < byte_offset(s, k),
    decreases k - j,
{
    if j < k {
        lemma_byte_offset_mono(s, j, k - 1);
        lemma_byte_offset_step(s, k - 1);
    }
}

/// The byte length of `s` as vstd encodes it equals the sum of the widths.
pub proof fn lemma_width_sum_is_encoding_len(s: Seq<char>)
    ensures
        width_sum(s) == vstd::utf8::encode_utf8(s).len(),
    decreases s.len(),
{
    if s.len() > 0 {
        lemma_width_sum_is_encoding_len(s.drop_first());
        vstd::utf8::char_is_scalar(s[0]);
    }
}

/// Source text that fits in memory: a `str` never holds more than
/// `isize::MAX` bytes.
pub open spec fn fits_in_memory(s: Seq<char>) -> bool {
    vstd::utf8::encode_utf8(s).len() <= isize::MAX
}

pub proof fn lemma_width_sum_ge_len(s: Seq<char>)
    ensures
        width_sum(s) >= s.len(),
    decreases s.len(),
{
    if s.len() > 0 {
        lemma_width_sum_ge_len(s.drop_first());
    }
}

/// The byte offset at which each character of `chars` starts, and the total.
pub fn byte_offsets(chars: &Vec<char>) -> (offs: Vec<usize>)
    requires
        fits_in_memory(chars@),
    ensures
        offs@.len() == chars@.len() + 1,
        forall|k: int| 0 <= k <= chars@.len() ==> #[trigger] offs@[k] == byte_offset(chars@, k),
        offs@[chars@.len() as int] == width_sum(chars@),
        width_sum(chars@) <= isize::MAX,
        chars@.len() <= isize::MAX,
{
    proof {
        lemma_width_sum_is_encoding_len(chars@);
        lemma_width_sum_ge_len(chars@);
        assert(chars@.take(chars@.len() as int) =~= chars@);
    }
    let n = chars.len();
    let mut offs: Vec<usize> = Vec::new();
    offs.push(0);
    assert(chars@.take(0) =~= Seq::<char>::empty());
    let mut k: usize = 0;
    while k < n
        invariant
            n == chars@.len(),
            0 <= k <= n,
            width_sum(chars@) <= isize::MAX,
            chars@.take(n as int) =~= chars@,
            offs@.len() == k + 1,
            forall|m: int| 0 <= m <= k ==> #[trigger] offs@[m] == byte_offset(chars@, m),
        decreases n - k,
    {
        proof {
            lemma_byte_offset_step(chars@, k as int);
            lemma_byte_offset_mono(chars@, k + 1, n as int);
        }
        let w = char_width_of(chars[k]);
        let next = offs[k] + w;
        offs.push(next);
        k += 1;
    }
    offs
}

// ----- prefixes and pieces of text -----

/// `p` is a prefix of `s`.
pub open spec fn has_prefix(s: Seq<char>, p: Seq<char>) -> bool {
    p.len() <= s.len() && s.take(p.len() as int) == p
}

/// `p` occurs somewhere inside `s`.
pub open spec fn has_infix(s: Seq<char>, p: Seq<char>) -> bool {
    exists|i: int| 0 <= i <= s.len() - p.len() && #[trigger] s.subrange(i, i + p.len()) == p
}

/// Whether `v[at..]` starts with `p`.
fn matches_at(v: &Vec<char>, at: usize, p: &Vec<char>) -> (r: bool)
    requires
        at + p@.len() <= v@.len(),
    ensures
        r == (v@.subrange(at as int, at + p@.len()) == p@),
{
    let n = v.len();
    let mut k: usize = 0;
    while k < p.len()
        invariant
            n == v@.len(),
            at + p@.len() <= v@.len(),
            0 <= k <= p@.len(),
            forall|m: int| 0 <= m < k ==> v@[at + m] == p@[m],
        decreases p.len() - k,
    {
        assert(at + k < v@.len());
        if v[at + k] != p[k] {
            assert(v@.subrange(at as int, at + p@.len())[k as int] != p@[k as int]);
            return false;
        }
        k += 1;
    }
    assert(v@.subrange(at as int, at + p@.len()) =~= p@);
    true
}

/// Whether `s` starts with `p` (std `str::starts_with` on text).
pub fn starts_with_text(s: &str, p: &str) -> (r: bool)
    ensures
        r == has_prefix(s@, p@),
{
    let v = chars_of(s);
    let w = chars_of(p);
    if w.len() > v.len() {
        return false;
    }
    let r = matches_at(&v, 0, &w);
    assert(v@.subrange(0, w@.len() as int) =~= v@.take(w@.len() as int));
    r
}

/// Whether `p` occurs inside `s` (std `str::contains` on text).
pub fn contains_text(s: &str, p: &str) -> (r: bool)
    ensures
        r == has_infix(s@, p@),
{
    let v = chars_of(s);
    let w = chars_of(p);
    if w.len() > v.len() {
        return false;
    }
    let last: usize = v.len() - w.len();
    let mut i: usize = 0;
    loop
        invariant
            last == v@.len() - w@.len(),
            0 <= i <= last,
            v@ == s@,
            w@ == p@,
            forall|m: int| 0 <= m < i ==> #[trigger] v@.subrange(m, m + w@.len()) != w@,
        decreases last + 1 - i,
    {
        if matches_at(&v, i, &w) {
            return true;
        }
        if i == last {
            return false;
        }
        i += 1;
    }
}

} // verus!
