use vstd::prelude::*;
use crate::context::{decimal, digit_char};
use crate::model::StepM;
use crate::parser::scan::{
    digits_value, in_kind, is_alnum, is_digit, lemma_digits_same, lemma_span_bounds, lemma_span_exact,
    number_at, span, CharKind,
};
use crate::parser::selector::{bracket_at, first_step, key_at, next_step, selectors_at, steps_from};

verus! {

/// The text of a step: a key, or an index in decimal.
pub open spec fn step_text(st: StepM) -> Seq<char> {
    match st {
        StepM::Key(k) => k,
        StepM::Index(n) => decimal(n as nat),
    }
}

/// How step `i` of a selector is written: the first as it is; an index
/// that follows a key in brackets; any other after a dot.
pub open spec fn step_part(steps: Seq<StepM>, i: int) -> Seq<char> {
    if i == 0 {
        step_text(steps[0])
    } else if steps[i] is Index && steps[i - 1] is Key {
        seq!['['] + step_text(steps[i]) + seq![']']
    } else {
        seq!['.'] + step_text(steps[i])
    }
}

/// A selector written out.
pub open spec fn serialize(steps: Seq<StepM>) -> Seq<char>
    decreases steps.len(),
{
    if steps.len() == 0 {
        Seq::empty()
    } else {
        serialize(steps.drop_last()) + step_part(steps, steps.len() - 1)
    }
}

/// A key that reads back as itself: letters and digits, not empty, and
/// not starting with a number that fits in a `usize`.
pub open spec fn key_ok(k: Seq<char>) -> bool {
    &&& k.len() > 0
    &&& forall|i: int| 0 <= i < k.len() ==> is_alnum(#[trigger] k[i])
    &&& (span(k, 0, CharKind::Digit) == 0 || digits_value(k, 0, span(k, 0, CharKind::Digit))
        > usize::MAX)
}

/// Every key among `steps` reads back as itself.
pub open spec fn keys_ok(steps: Seq<StepM>) -> bool {
    forall|i: int| 0 <= i < steps.len() ==> (#[trigger] steps[i] matches StepM::Key(k) ==> key_ok(k))
}

proof fn lemma_decimal(n: nat)
    ensures
        decimal(n).len() > 0,
        forall|i: int| 0 <= i < decimal(n).len() ==> is_digit(#[trigger] decimal(n)[i]),
        digits_value(decimal(n), 0, decimal(n).len() as int) == n,
    decreases n,
{
    let d = decimal(n);
    if n >= 10 {
        lemma_decimal(n / 10);
        let prefix = decimal(n / 10);
        assert(d.drop_last() =~= prefix);
        assert(d.subrange(0, d.len() - 1) =~= prefix.subrange(0, prefix.len() as int));
        lemma_digits_same(d, 0, prefix, 0, d.len() - 1);
        assert((digit_char(n % 10) as nat) - ('0' as nat) == n % 10);
        assert(d[d.len() - 1] == digit_char(n % 10));
        assert(n == (n / 10) * 10 + n % 10) by (nonlinear_arith);
        let l = d.len() as int;
        assert(l - 1 == prefix.len());
        assert(digits_value(d, 0, l - 1) == n / 10);
        assert(digits_value(d, 0, l) == digits_value(d, 0, l - 1) * 10 + ((d[l - 1] as nat) - ('0' as nat)) as nat);
        assert forall|i: int| 0 <= i < d.len() implies is_digit(#[trigger] d[i]) by {
            if i < d.len() - 1 {
                assert(d[i] == prefix[i]);
            }
        }
    } else {
        assert((digit_char(n) as nat) - ('0' as nat) == n);
        assert(d[0] == digit_char(n));
        assert(digits_value(d, 0, 0) == 0);
        assert(digits_value(d, 0, 1) == digits_value(d, 0, 0) * 10 + ((d[0] as nat) - ('0' as nat)) as nat);
    }
}

/// The digits of `n` at `o`, with no digit after them, read as `n`.
proof fn lemma_reads_number(s: Seq<char>, o: int, n: usize)
    requires
        0 <= o,
        o + decimal(n as nat).len() <= s.len(),
        s.subrange(o, o + decimal(n as nat).len()) == decimal(n as nat),
        o + decimal(n as nat).len() == s.len() || !is_digit(s[o + decimal(n as nat).len()]),
    ensures
        number_at(s, o) == Some((n, o + decimal(n as nat).len())),
{
    let d = decimal(n as nat);
    lemma_decimal(n as nat);
    assert forall|i: int| o <= i < o + d.len() implies in_kind(#[trigger] s[i], CharKind::Digit) by {
        assert(s[i] == s.subrange(o, o + d.len())[i - o]);
    }
    lemma_span_exact(s, o, o + d.len(), CharKind::Digit);
    assert(d.subrange(0, d.len() as int) =~= d);
    lemma_digits_same(s, o, d, 0, d.len() as int);
}

/// A key at `o` that no letter or digit follows reads as itself, and not
/// as a number or a bracket.
proof fn lemma_reads_key(s: Seq<char>, o: int, k: Seq<char>)
    requires
        0 <= o,
        o + k.len() <= s.len(),
        s.subrange(o, o + k.len()) == k,
        key_ok(k),
        o + k.len() == s.len() || !is_alnum(s[o + k.len()]),
    ensures
        number_at(s, o) is None,
        bracket_at(s, o) is None,
        key_at(s, o) == Some((StepM::Key(k), o + k.len())),
{
    assert forall|i: int| o <= i < o + k.len() implies s[i] == k[i - o] by {
        assert(s[i] == s.subrange(o, o + k.len())[i - o]);
    }
    assert(s[o] == k[0]);
    assert forall|i: int| o <= i < o + k.len() implies in_kind(#[trigger] s[i], CharKind::Alnum) by {
        assert(s[i] == k[i - o]);
    }
    lemma_span_exact(s, o, o + k.len(), CharKind::Alnum);
    let r = span(k, 0, CharKind::Digit);
    lemma_span_bounds(k, 0, CharKind::Digit);
    assert forall|i: int| o <= i < o + r implies in_kind(#[trigger] s[i], CharKind::Digit) by {
        assert(s[i] == k[i - o]);
        assert(in_kind(k[i - o], CharKind::Digit));
    }
    if r < k.len() {
        assert(s[o + r] == k[r]);
    }
    lemma_span_exact(s, o, o + r, CharKind::Digit);
    if r > 0 {
        assert(s.subrange(o, o + r) =~= k.subrange(0, r));
        lemma_digits_same(s, o, k, 0, r);
    }
}

/// What the parser reads where a key was found: a key that reads back.
proof fn lemma_found_key(s: Seq<char>, p: int)
    requires
        0 <= p <= s.len(),
        number_at(s, p) is None,
        key_at(s, p) is Some,
    ensures
        key_at(s, p)->Some_0.0 matches StepM::Key(k) && key_ok(k),
{
    let q = span(s, p, CharKind::Alnum);
    let k = s.subrange(p, q);
    lemma_span_bounds(s, p, CharKind::Alnum);
    lemma_span_bounds(s, p, CharKind::Digit);
    let r = span(s, p, CharKind::Digit);
    if r > q {
        assert(in_kind(s[q], CharKind::Digit));
    }
    assert forall|i: int| 0 <= i < r - p implies in_kind(#[trigger] k[i], CharKind::Digit) by {
        assert(k[i] == s[p + i]);
    }
    if r < q {
        assert(k[r - p] == s[r]);
    }
    lemma_span_exact(k, 0, r - p, CharKind::Digit);
    assert forall|i: int| 0 <= i < k.len() implies is_alnum(#[trigger] k[i]) by {
        assert(k[i] == s[p + i]);
        assert(in_kind(s[p + i], CharKind::Alnum));
    }
    if r > p {
        assert(s.subrange(p, r) =~= k.subrange(0, r - p));
        lemma_digits_same(s, p, k, 0, r - p);
    }
}

proof fn lemma_first_ok(s: Seq<char>, p: int)
    requires
        0 <= p <= s.len(),
        first_step(s, p) is Some,
    ensures
        first_step(s, p)->Some_0.0 matches StepM::Key(k) ==> key_ok(k),
{
    if number_at(s, p) is None && bracket_at(s, p) is None {
        lemma_found_key(s, p);
    }
}

proof fn lemma_next_ok(s: Seq<char>, p: int)
    requires
        0 <= p <= s.len(),
        next_step(s, p) is Some,
    ensures
        next_step(s, p)->Some_0.0 matches StepM::Key(k) ==> key_ok(k),
{
    let dot = 0 <= p < s.len() && s[p] == '.';
    if dot && number_at(s, p + 1) is None && bracket_at(s, p) is None {
        lemma_found_key(s, p + 1);
    }
}

proof fn lemma_steps_ok(s: Seq<char>, p: int)
    requires
        0 <= p <= s.len(),
    ensures
        keys_ok(steps_from(s, p).0),
    decreases s.len() - p,
{
    if let Some((st, q)) = next_step(s, p) {
        if p < q <= s.len() {
            lemma_next_ok(s, p);
            lemma_steps_ok(s, q);
            let rest = steps_from(s, q).0;
            assert forall|i: int| 0 <= i < (seq![st] + rest).len() implies (#[trigger] (seq![st]
                + rest)[i] matches StepM::Key(k) ==> key_ok(k)) by {
                if i > 0 {
                    assert((seq![st] + rest)[i] == rest[i - 1]);
                }
            }
        }
    }
}

proof fn lemma_serialize_take(steps: Seq<StepM>, i: int)
    requires
        0 <= i < steps.len(),
    ensures
        serialize(steps.take(i + 1)) == serialize(steps.take(i)) + step_part(steps, i),
{
    assert(steps.take(i + 1).drop_last() =~= steps.take(i));
    assert(step_part(steps.take(i + 1), i) == step_part(steps, i));
}

/// Where step `i` stands in the written selector, and what follows it.
proof fn lemma_split(steps: Seq<StepM>, i: int)
    requires
        0 <= i < steps.len(),
    ensures
        ({
            let t = serialize(steps);
            let o = serialize(steps.take(i)).len() as int;
            let e = serialize(steps.take(i + 1)).len() as int;
            &&& e == o + step_part(steps, i).len()
            &&& e <= t.len()
            &&& t.subrange(o, e) == step_part(steps, i)
            &&& (e == t.len() || t[e] == '.' || t[e] == '[')
        }),
    decreases steps.len(),
{
    lemma_serialize_take(steps, i);
    let t = serialize(steps);
    let last = steps.len() - 1;
    if i == last {
        assert(steps.take(i + 1) =~= steps);
        assert(steps.take(i) =~= steps.drop_last());
    } else {
        let shorter = steps.drop_last();
        lemma_split(shorter, i);
        assert(shorter.take(i) =~= steps.take(i));
        assert(shorter.take(i + 1) =~= steps.take(i + 1));
        let o = serialize(steps.take(i)).len() as int;
        let e = serialize(steps.take(i + 1)).len() as int;
        let t2 = serialize(shorter);
        assert(t == t2 + step_part(steps, last));
        assert(t.subrange(o, e) =~= t2.subrange(o, e));
        if e == t2.len() {
            assert(t[e] == step_part(steps, last)[0]);
        } else {
            assert(t[e] == t2[e]);
        }
    }
}

proof fn lemma_reads_step(steps: Seq<StepM>, i: int)
    requires
        1 <= i < steps.len(),
        keys_ok(steps),
    ensures
        next_step(serialize(steps), serialize(steps.take(i)).len() as int) == Some(
            (steps[i], serialize(steps.take(i + 1)).len() as int),
        ),
{
    let t = serialize(steps);
    let o = serialize(steps.take(i)).len() as int;
    let e = serialize(steps.take(i + 1)).len() as int;
    lemma_split(steps, i);
    let part = step_part(steps, i);
    assert(t[o] == part[0]);
    assert forall|j: int| 0 <= j < part.len() implies t[o + j] == part[j] by {
        assert(t.subrange(o, e)[j] == t[o + j]);
    }
    match steps[i] {
        StepM::Key(k) => {
            assert(steps[i] matches StepM::Key(kk) ==> key_ok(kk));
            assert(part =~= seq!['.'] + k);
            assert forall|j: int| 0 <= j < k.len() implies t.subrange(o + 1, e)[j] == k[j] by {
                assert(t[o + 1 + j] == part[j + 1]);
            }
            assert(t.subrange(o + 1, e) =~= k);
            lemma_reads_key(t, o + 1, k);
        },
        StepM::Index(n) => {
            let d = decimal(n as nat);
            if steps[i - 1] is Key {
                assert(part =~= seq!['['] + d + seq![']']);
                assert forall|j: int| 0 <= j < d.len() implies t.subrange(o + 1, o + 1 + d.len())[j]
                    == d[j] by {
                    assert(t[o + 1 + j] == part[j + 1]);
                }
                assert(t.subrange(o + 1, o + 1 + d.len()) =~= d);
                assert(t[o + 1 + d.len()] == part[d.len() + 1int]);
                lemma_reads_number(t, o + 1, n);
            } else {
                assert(part =~= seq!['.'] + d);
                assert forall|j: int| 0 <= j < d.len() implies t.subrange(o + 1, e)[j] == d[j] by {
                    assert(t[o + 1 + j] == part[j + 1]);
                }
                assert(t.subrange(o + 1, e) =~= d);
                lemma_reads_number(t, o + 1, n);
            }
        },
    }
}

proof fn lemma_reads_rest(steps: Seq<StepM>, i: int)
    requires
        1 <= i <= steps.len(),
        keys_ok(steps),
    ensures
        steps_from(serialize(steps), serialize(steps.take(i)).len() as int) == (
            steps.skip(i),
            serialize(steps).len() as int,
        ),
    decreases steps.len() - i,
{
    let t = serialize(steps);
    if i == steps.len() {
        assert(steps.take(i) =~= steps);
        assert(steps.skip(i) =~= Seq::<StepM>::empty());
    } else {
        lemma_reads_step(steps, i);
        lemma_split(steps, i);
        lemma_reads_rest(steps, i + 1);
        assert(seq![steps[i]] + steps.skip(i + 1) =~= steps.skip(i));
    }
}

/// Parsing a selector, writing its steps out (dots between them, brackets
/// around an index that follows a key) and parsing that again gives the
/// same steps, the whole written text being read.
pub proof fn lemma_selector_round_trip(s: Seq<char>)
    requires
        selectors_at(s, 0) is Some,
    ensures
        selectors_at(serialize(selectors_at(s, 0)->Some_0.0), 0) == Some(
            (
                selectors_at(s, 0)->Some_0.0,
                serialize(selectors_at(s, 0)->Some_0.0).len() as int,
            ),
        ),
{
    let (first, q) = first_step(s, 0)->Some_0;
    lemma_first_ok(s, 0);
    let rest = steps_from(s, q);
    let steps = seq![first] + rest.0;
    lemma_span_bounds(s, 0, CharKind::Digit);
    lemma_span_bounds(s, 0, CharKind::Alnum);
    assert(0 <= q <= s.len()) by {
        if number_at(s, 0) is None && bracket_at(s, 0) is Some {
            lemma_span_bounds(s, 1, CharKind::Digit);
        }
    }
    lemma_steps_ok(s, q);
    assert(keys_ok(steps)) by {
        assert forall|i: int| 0 <= i < steps.len() implies (#[trigger] steps[i] matches StepM::Key(k)
            ==> key_ok(k)) by {
            if i > 0 {
                assert(steps[i] == rest.0[i - 1]);
            }
        }
    }
    let t = serialize(steps);
    lemma_split(steps, 0);
    assert(steps.take(0) =~= Seq::<StepM>::empty());
    lemma_reads_rest(steps, 1);
    match first {
        StepM::Key(k) => {
            assert(t.subrange(0, k.len() as int) =~= k);
            lemma_reads_key(t, 0, k);
        },
        StepM::Index(n) => {
            lemma_reads_number(t, 0, n);
        },
    }
    assert(seq![steps[0]] + steps.skip(1) =~= steps);
}

} // verus!
