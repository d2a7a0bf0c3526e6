use vstd::prelude::*;
use crate::text::push_char;

verus! {

/// The kinds of character runs the grammar reads.
pub enum CharKind {
    /// `0-9`
    Digit,
    /// `A-Z`, `a-z`, `0-9`
    Alnum,
    /// the characters of a class or id token
    ClassChar,
    /// the characters of a custom attribute's name
    AttrName,
    /// anything but a newline
    NotNewline,
    /// a newline
    Newline,
    /// a raw piece of a quoted attribute value
    RawQuoted,
    /// a raw piece of an unquoted attribute value
    RawUnquoted,
}

pub open spec fn is_digit(c: char) -> bool {
    '0' <= c <= '9'
}

pub open spec fn is_alnum(c: char) -> bool {
    is_digit(c) || ('a' <= c <= 'z') || ('A' <= c <= 'Z')
}

pub open spec fn is_space(c: char) -> bool {
    c == ' ' || c == '\t' || c == '\n' || c == '\r' || c == '\x0B' || c == '\x0C'
}

/// Whether `c` belongs to a run of kind `k`.
pub open spec fn in_kind(c: char, k: CharKind) -> bool {
    match k {
        CharKind::Digit => is_digit(c),
        CharKind::Alnum => is_alnum(c),
        CharKind::ClassChar => is_alnum(c) || c == '-' || c == '_' || c == '/' || c == ':' || c == '['
            || c == ']',
        CharKind::AttrName => is_alnum(c) || c == '-' || c == '_',
        CharKind::NotNewline => c != '\n',
        CharKind::Newline => c == '\n',
        CharKind::RawQuoted => c != '"' && c != '{',
        CharKind::RawUnquoted => !is_space(c) && c != '=' && c != ')' && c != '{',
    }
}

/// The end of the longest run of kind `k` that starts at `p`.
pub open spec fn span(s: Seq<char>, p: int, k: CharKind) -> int
    decreases s.len() - p,
{
    if 0 <= p < s.len() && in_kind(s[p], k) {
        span(s, p + 1, k)
    } else {
        p
    }
}

/// Whether `lit` stands in `s` at `p`.
pub open spec fn lit_at(s: Seq<char>, p: int, lit: Seq<char>) -> bool {
    0 <= p && p + lit.len() <= s.len() && s.subrange(p, p + lit.len()) == lit
}

/// The value of the decimal digits `s[p..q]`.
pub open spec fn digits_value(s: Seq<char>, p: int, q: int) -> nat
    decreases q - p,
{
    if q <= p {
        0
    } else {
        digits_value(s, p, q - 1) * 10 + ((s[q - 1] as nat) - ('0' as nat)) as nat
    }
}

/// The number written at `p` and where it ends, where its value fits in
/// a `usize`.
pub open spec fn number_at(s: Seq<char>, p: int) -> Option<(usize, int)> {
    let q = span(s, p, CharKind::Digit);
    if q > p && digits_value(s, p, q) <= usize::MAX {
        Some((digits_value(s, p, q) as usize, q))
    } else {
        None
    }
}

pub proof fn lemma_span_bounds(s: Seq<char>, p: int, k: CharKind)
    requires
        0 <= p <= s.len(),
    ensures
        p <= span(s, p, k) <= s.len(),
        forall|i: int| p <= i < span(s, p, k) ==> in_kind(#[trigger] s[i], k),
        span(s, p, k) < s.len() ==> !in_kind(s[span(s, p, k)], k),
    decreases s.len() - p,
{
    if p < s.len() && in_kind(s[p], k) {
        lemma_span_bounds(s, p + 1, k);
    }
}

fn in_kind_exec(c: char, k: &CharKind) -> (r: bool)
    ensures
        r == in_kind(c, *k),
{
    let digit = '0' <= c && c <= '9';
    let alnum = digit || ('a' <= c && c <= 'z') || ('A' <= c && c <= 'Z');
    let space = c == ' ' || c == '\t' || c == '\n' || c == '\r' || c == '\x0B' || c == '\x0C';
    match k {
        CharKind::Digit => digit,
        CharKind::Alnum => alnum,
        CharKind::ClassChar => alnum || c == '-' || c == '_' || c == '/' || c == ':' || c == '['
            || c == ']',
        CharKind::AttrName => alnum || c == '-' || c == '_',
        CharKind::NotNewline => c != '\n',
        CharKind::Newline => c == '\n',
        CharKind::RawQuoted => c != '"' && c != '{',
        CharKind::RawUnquoted => !space && c != '=' && c != ')' && c != '{',
    }
}

/// The end of the longest run of kind `k` that starts at `p`.
pub fn span_of(s: &Vec<char>, p: usize, k: CharKind) -> (r: usize)
    requires
        p <= s@.len(),
    ensures
        r == span(s@, p as int, k),
        p <= r <= s@.len(),
{
    let mut q = p;
    while q < s.len() && in_kind_exec(s[q], &k)
        invariant
            p <= q <= s@.len(),
            span(s@, p as int, k) == span(s@, q as int, k),
        decreases s@.len() - q,
    {
        q = q + 1;
    }
    q
}

/// Whether `lit` stands in `s` at `p`.
pub fn looking_at(s: &Vec<char>, p: usize, lit: &str) -> (r: bool)
    requires
        p <= s@.len(),
    ensures
        r == lit_at(s@, p as int, lit@),
{
    let n = lit.unicode_len();
    let len = s.len();
    if n > len - p {
        return false;
    }
    let mut i: usize = 0;
    while i < n
        invariant
            len == s@.len(),
            n == lit@.len(),
            p + n <= s@.len(),
            i <= n,
            s@.subrange(p as int, p + i) == lit@.take(i as int),
        decreases n - i,
    {
        assert(p + i < s@.len());
        let at = p + i;
        if s[at] != lit.get_char(i) {
            assert(s@.subrange(p as int, p + n)[i as int] != lit@[i as int]);
            return false;
        }
        assert(s@.subrange(p as int, p + i + 1) =~= lit@.take(i + 1));
        i = i + 1;
    }
    assert(lit@.take(n as int) =~= lit@);
    true
}

/// The characters `s[p..q]` as a string.
pub fn text_of(s: &Vec<char>, p: usize, q: usize) -> (r: String)
    requires
        p <= q <= s@.len(),
    ensures
        r@ == s@.subrange(p as int, q as int),
{
    let mut out = String::new();
    let mut i = p;
    while i < q
        invariant
            p <= i <= q <= s@.len(),
            out@ == s@.subrange(p as int, i as int),
        decreases q - i,
    {
        push_char(&mut out, s[i]);
        assert(out@ =~= s@.subrange(p as int, i + 1));
        i = i + 1;
    }
    out
}

/// The number written at `p`, where there is one that fits in a `usize`.
pub fn number(s: &Vec<char>, p: usize) -> (r: Option<(usize, usize)>)
    requires
        p <= s@.len(),
    ensures
        match r {
            Some((n, q)) => number_at(s@, p as int) == Some((n, q as int)),
            None => number_at(s@, p as int) is None,
        },
{
    let q = span_of(s, p, CharKind::Digit);
    if q == p {
        return None;
    }
    proof {
        lemma_span_bounds(s@, p as int, CharKind::Digit);
    }
    let mut v: usize = 0;
    let mut i = p;
    while i < q
        invariant
            p <= i <= q <= s@.len(),
            q == span(s@, p as int, CharKind::Digit),
            forall|j: int| p <= j < q ==> is_digit(#[trigger] s@[j]),
            v as nat == digits_value(s@, p as int, i as int),
        decreases q - i,
    {
        let d = (s[i] as u32 - '0' as u32) as usize;
        assert(is_digit(s@[i as int]));
        assert(d < 10);
        if v > (usize::MAX - d) / 10 {
            proof {
                lemma_digits_grow(s@, p as int, i as int + 1, q as int);
            }
            return None;
        }
        assert(v * 10 + d <= usize::MAX) by (nonlinear_arith)
            requires
                v <= (usize::MAX - d) / 10,
                d < 10,
        ;
        v = v * 10 + d;
        i = i + 1;
    }
    Some((v, q))
}

/// A run of kind `k` from `p` to `q` that nothing of kind `k` follows
/// ends at `q`.
pub proof fn lemma_span_exact(s: Seq<char>, p: int, q: int, k: CharKind)
    requires
        0 <= p <= q <= s.len(),
        forall|i: int| p <= i < q ==> in_kind(#[trigger] s[i], k),
        q == s.len() || !in_kind(s[q], k),
    ensures
        span(s, p, k) == q,
    decreases q - p,
{
    if p < q {
        lemma_span_exact(s, p + 1, q, k);
    }
}

/// The value of digits depends on the digits alone.
pub proof fn lemma_digits_same(s1: Seq<char>, pa: int, s2: Seq<char>, pb: int, n: int)
    requires
        0 <= n,
        0 <= pa,
        pa + n <= s1.len(),
        0 <= pb,
        pb + n <= s2.len(),
        s1.subrange(pa, pa + n) == s2.subrange(pb, pb + n),
    ensures
        digits_value(s1, pa, pa + n) == digits_value(s2, pb, pb + n),
    decreases n,
{
    if n > 0 {
        assert(s1.subrange(pa, pa + n - 1) =~= s1.subrange(pa, pa + n).drop_last());
        assert(s2.subrange(pb, pb + n - 1) =~= s2.subrange(pb, pb + n).drop_last());
        assert(s1[pa + n - 1] == s1.subrange(pa, pa + n)[n - 1]);
        assert(s2[pb + n - 1] == s2.subrange(pb, pb + n)[n - 1]);
        lemma_digits_same(s1, pa, s2, pb, n - 1);
    }
}

proof fn lemma_digits_grow(s: Seq<char>, p: int, i: int, q: int)
    requires
        p < i <= q <= s.len(),
        forall|j: int| p <= j < q ==> is_digit(#[trigger] s[j]),
        digits_value(s, p, i) > usize::MAX,
    ensures
        digits_value(s, p, q) > usize::MAX,
    decreases q - i,
{
    if i < q {
        assert(digits_value(s, p, i + 1) >= digits_value(s, p, i));
        lemma_digits_grow(s, p, i + 1, q);
    }
}

} // verus!
