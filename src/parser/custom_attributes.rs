use vstd::prelude::*;
use crate::attribute::{Attribute, AttributeValueComponent};
use crate::model::{
    attr_model, attrs_model, lemma_attrs_push, lemma_pieces_push, piece_model, pieces_model, AttrM,
    PieceM,
};
use crate::parser::scan::{span, span_of, text_of, CharKind};
use crate::parser::selector::{selectors, selectors_at};
use crate::parser::{ParseFailure, Rule};
use crate::text::chars_of;

verus! {

/// `{selector}` at `p`.
pub open spec fn interpolated_at(s: Seq<char>, p: int) -> Option<(PieceM, int)> {
    if 0 <= p < s.len() && s[p] == '{' {
        match selectors_at(s, p + 1) {
            Some((steps, q)) => if 0 <= q < s.len() && s[q] == '}' {
                Some((PieceM::Interpolated(steps), q + 1))
            } else {
                None
            },
            None => None,
        }
    } else {
        None
    }
}

/// A raw piece at `p`: a non-empty run of kind `k`.
pub open spec fn raw_at(s: Seq<char>, p: int, k: CharKind) -> Option<(PieceM, int)> {
    let q = span(s, p, k);
    if q > p {
        Some((PieceM::Raw(s.subrange(p, q)), q))
    } else {
        None
    }
}

/// A piece of a value at `p`, inside quotes or not.
pub open spec fn piece_at(s: Seq<char>, p: int, quoted: bool) -> Option<(PieceM, int)> {
    if quoted {
        match raw_at(s, p, CharKind::RawQuoted) {
            Some(r) => Some(r),
            None => interpolated_at(s, p),
        }
    } else {
        match interpolated_at(s, p) {
            Some(r) => Some(r),
            None => raw_at(s, p, CharKind::RawUnquoted),
        }
    }
}

/// The pieces from `p` on, as many as there are, and where they end.
pub open spec fn pieces_from(s: Seq<char>, p: int, quoted: bool) -> (Seq<PieceM>, int)
    decreases s.len() - p,
{
    match piece_at(s, p, quoted) {
        Some((c, q)) => if p < q <= s.len() {
            let rest = pieces_from(s, q, quoted);
            (seq![c] + rest.0, rest.1)
        } else {
            (Seq::empty(), p)
        },
        None => (Seq::empty(), p),
    }
}

/// An attribute value at `p`: in quotes, or a run of unquoted pieces.
pub open spec fn value_at(s: Seq<char>, p: int) -> Option<(Seq<PieceM>, int)> {
    match quoted_at(s, p) {
        Some(v) => Some(v),
        None => if piece_at(s, p, false) is Some {
            Some(pieces_from(s, p, false))
        } else {
            None
        },
    }
}

/// `name=value` at `p`.
pub open spec fn pair_at(s: Seq<char>, p: int) -> Option<(AttrM, int)> {
    let n = span(s, p, CharKind::AttrName);
    if 0 <= n < s.len() && s[n] == '=' {
        match value_at(s, n + 1) {
            Some((v, q)) => Some((AttrM::Custom(s.subrange(p, n), v), q)),
            None => None,
        }
    } else {
        None
    }
}

/// The further pairs from `p` on, each after a space, and where they end.
pub open spec fn pairs_from(s: Seq<char>, p: int) -> (Seq<AttrM>, int)
    decreases s.len() - p,
{
    if 0 <= p < s.len() && s[p] == ' ' {
        match pair_at(s, p + 1) {
            Some((a, q)) => if p < q <= s.len() {
                let rest = pairs_from(s, q);
                (seq![a] + rest.0, rest.1)
            } else {
                (Seq::empty(), p)
            },
            None => (Seq::empty(), p),
        }
    } else {
        (Seq::empty(), p)
    }
}

/// `(name=value name=value ...)` at `p`.
pub open spec fn customs_at(s: Seq<char>, p: int) -> Option<(Seq<AttrM>, int)> {
    if 0 <= p < s.len() && s[p] == '(' {
        match pair_at(s, p + 1) {
            Some((a, q)) => {
                let rest = pairs_from(s, q);
                if 0 <= rest.1 < s.len() && s[rest.1] == ')' {
                    Some((seq![a] + rest.0, rest.1 + 1))
                } else {
                    None
                }
            },
            None => None,
        }
    } else {
        None
    }
}

fn interpolated(s: &Vec<char>, p: usize) -> (r: Option<(AttributeValueComponent, usize)>)
    requires
        p <= s@.len(),
    ensures
        match r {
            Some((c, q)) => interpolated_at(s@, p as int) == Some((piece_model(c), q as int)) && q <= s@.len(),
            None => interpolated_at(s@, p as int) is None,
        },
{
    if p < s.len() && s[p] == '{' {
        match selectors(s, p + 1) {
            Some((v, q)) => {
                if q < s.len() && s[q] == '}' {
                    Some((AttributeValueComponent::InterpolatedValue(v), q + 1))
                } else {
                    None
                }
            },
            None => None,
        }
    } else {
        None
    }
}

fn raw(s: &Vec<char>, p: usize, k: CharKind) -> (r: Option<(AttributeValueComponent, usize)>)
    requires
        p <= s@.len(),
    ensures
        match r {
            Some((c, q)) => raw_at(s@, p as int, k) == Some((piece_model(c), q as int)) && q <= s@.len(),
            None => raw_at(s@, p as int, k) is None,
        },
{
    let q = span_of(s, p, k);
    if q > p {
        Some((AttributeValueComponent::RawValue(text_of(s, p, q)), q))
    } else {
        None
    }
}

fn piece(s: &Vec<char>, p: usize, quoted: bool) -> (r: Option<(AttributeValueComponent, usize)>)
    requires
        p <= s@.len(),
    ensures
        match r {
            Some((c, q)) => piece_at(s@, p as int, quoted) == Some((piece_model(c), q as int)) && q <= s@.len(),
            None => piece_at(s@, p as int, quoted) is None,
        },
{
    if quoted {
        match raw(s, p, CharKind::RawQuoted) {
            Some(r) => Some(r),
            None => interpolated(s, p),
        }
    } else {
        match interpolated(s, p) {
            Some(r) => Some(r),
            None => raw(s, p, CharKind::RawUnquoted),
        }
    }
}

fn pieces(s: &Vec<char>, p: usize, quoted: bool) -> (r: (Vec<AttributeValueComponent>, usize))
    requires
        p <= s@.len(),
    ensures
        pieces_from(s@, p as int, quoted) == (pieces_model(r.0@), r.1 as int),
        r.1 <= s@.len(),
{
    let mut v: Vec<AttributeValueComponent> = Vec::new();
    let ghost goal = pieces_from(s@, p as int, quoted);
    let mut q = p;
    assert(pieces_model(v@) =~= Seq::<PieceM>::empty());
    loop
        invariant
            q <= s@.len(),
            pieces_model(v@) + pieces_from(s@, q as int, quoted).0 == goal.0,
            pieces_from(s@, q as int, quoted).1 == goal.1,
        ensures
            q <= s@.len(),
            pieces_model(v@) == goal.0,
            q == goal.1,
        decreases s@.len() - q,
    {
        match piece(s, q, quoted) {
            Some((c, e)) => {
                if q < e {
                    proof {
                        lemma_pieces_push(v@, c);
                        let rest = pieces_from(s@, e as int, quoted);
                        assert(pieces_model(v@).push(piece_model(c)) + rest.0 =~= pieces_model(v@) + (
                        seq![piece_model(c)] + rest.0));
                    }
                    v.push(c);
                    q = e;
                } else {
                    assert(pieces_model(v@) + Seq::<PieceM>::empty() =~= pieces_model(v@));
                    break;
                }
            },
            None => {
                assert(pieces_model(v@) + Seq::<PieceM>::empty() =~= pieces_model(v@));
                break;
            },
        }
    }
    (v, q)
}

fn value(s: &Vec<char>, p: usize) -> (r: Option<(Vec<AttributeValueComponent>, usize)>)
    requires
        p <= s@.len(),
    ensures
        match r {
            Some((v, q)) => value_at(s@, p as int) == Some((pieces_model(v@), q as int)) && q <= s@.len(),
            None => value_at(s@, p as int) is None,
        },
{
    if p < s.len() && s[p] == '"' && piece(s, p + 1, true).is_some() {
        let (v, e) = pieces(s, p + 1, true);
        if v.len() > 0 && e < s.len() && s[e] == '"' {
            return Some((v, e + 1));
        }
    }
    if piece(s, p, false).is_some() {
        let (v, e) = pieces(s, p, false);
        Some((v, e))
    } else {
        None
    }
}

fn pair(s: &Vec<char>, p: usize) -> (r: Option<(Attribute, usize)>)
    requires
        p <= s@.len(),
    ensures
        match r {
            Some((a, q)) => pair_at(s@, p as int) == Some((attr_model(a), q as int)) && q <= s@.len(),
            None => pair_at(s@, p as int) is None,
        },
{
    let n = span_of(s, p, CharKind::AttrName);
    if n < s.len() && s[n] == '=' {
        match value(s, n + 1) {
            Some((v, q)) => Some((Attribute::Custom(text_of(s, p, n), v), q)),
            None => None,
        }
    } else {
        None
    }
}

/// `(name=value ...)` at `p`: the custom attributes and where they end.
pub fn customs(s: &Vec<char>, p: usize) -> (r: Option<(Vec<Attribute>, usize)>)
    requires
        p <= s@.len(),
    ensures
        match r {
            Some((v, q)) => customs_at(s@, p as int) == Some((attrs_model(v@), q as int)) && q <= s@.len(),
            None => customs_at(s@, p as int) is None,
        },
{
    if !(p < s.len() && s[p] == '(') {
        return None;
    }
    match pair(s, p + 1) {
        None => None,
        Some((a, q0)) => {
            let ghost goal = pairs_from(s@, q0 as int);
            let mut v: Vec<Attribute> = Vec::new();
            v.push(a);
            assert(attrs_model(v@) =~= seq![attr_model(a)]);
            let mut q = q0;
            loop
                invariant
                    q <= s@.len(),
                    attrs_model(v@) + pairs_from(s@, q as int).0 == seq![attr_model(a)] + goal.0,
                    pairs_from(s@, q as int).1 == goal.1,
                ensures
                    q <= s@.len(),
                    attrs_model(v@) == seq![attr_model(a)] + goal.0,
                    q == goal.1,
                decreases s@.len() - q,
            {
                if q < s.len() && s[q] == ' ' {
                    match pair(s, q + 1) {
                        Some((b, e)) => {
                            if q < e {
                                proof {
                                    lemma_attrs_push(v@, b);
                                    let rest = pairs_from(s@, e as int);
                                    assert(attrs_model(v@).push(attr_model(b)) + rest.0 =~= attrs_model(v@) + (
                                    seq![attr_model(b)] + rest.0));
                                }
                                v.push(b);
                                q = e;
                            } else {
                                assert(attrs_model(v@) + Seq::<AttrM>::empty() =~= attrs_model(v@));
                                break;
                            }
                        },
                        None => {
                            assert(attrs_model(v@) + Seq::<AttrM>::empty() =~= attrs_model(v@));
                            break;
                        },
                    }
                } else {
                    assert(attrs_model(v@) + Seq::<AttrM>::empty() =~= attrs_model(v@));
                    break;
                }
            }
            if q < s.len() && s[q] == ')' {
                Some((v, q + 1))
            } else {
                None
            }
        },
    }
}

/// Parses custom attributes at the start of `input`: the attributes and
/// the text left after them.
pub fn parse(input: &str) -> (r: Result<(String, Vec<Attribute>), ParseFailure>)
    ensures
        match customs_at(input@, 0) {
            Some((attrs, q)) => r matches Ok((rest, v)) && attrs_model(v@) == attrs && rest@
                == input@.subrange(q, input@.len() as int),
            None => r == Err::<(String, Vec<Attribute>), ParseFailure>(
                ParseFailure { position: 0, rule: Rule::CustomAttributes },
            ),
        },
{
    let s = chars_of(input);
    match customs(&s, 0) {
        Some((v, q)) => Ok((text_of(&s, q, s.len()), v)),
        None => Err(ParseFailure { position: 0, rule: Rule::CustomAttributes }),
    }
}

/// Parses an unquoted attribute value at the start of `input`: its pieces
/// and the text left after them.
pub fn unwrapped_string(input: &str) -> (r: Result<(String, Vec<AttributeValueComponent>), ParseFailure>)
    ensures
        match piece_at(input@, 0, false) {
            Some(_) => r matches Ok((rest, v)) && (pieces_model(v@), input@.len() - rest@.len())
                == pieces_from(input@, 0, false) && rest@ == input@.subrange(
                pieces_from(input@, 0, false).1,
                input@.len() as int,
            ),
            None => r == Err::<(String, Vec<AttributeValueComponent>), ParseFailure>(
                ParseFailure { position: 0, rule: Rule::UnquotedValue },
            ),
        },
{
    let s = chars_of(input);
    if piece(&s, 0, false).is_none() {
        return Err(ParseFailure { position: 0, rule: Rule::UnquotedValue });
    }
    let (v, q) = pieces(&s, 0, false);
    Ok((text_of(&s, q, s.len()), v))
}

/// Parses a quoted attribute value at the start of `input`: its pieces and
/// the text left after the closing quote.
pub fn wrapped_string(input: &str) -> (r: Result<(String, Vec<AttributeValueComponent>), ParseFailure>)
    ensures
        match quoted_at(input@, 0) {
            Some((pieces, q)) => r matches Ok((rest, v)) && pieces_model(v@) == pieces && rest@
                == input@.subrange(q, input@.len() as int),
            None => r == Err::<(String, Vec<AttributeValueComponent>), ParseFailure>(
                ParseFailure { position: 0, rule: Rule::QuotedValue },
            ),
        },
{
    let s = chars_of(input);
    if s.len() > 0 && s[0] == '"' && piece(&s, 1, true).is_some() {
        let (v, e) = pieces(&s, 1, true);
        if v.len() > 0 && e < s.len() && s[e] == '"' {
            return Ok((text_of(&s, e + 1, s.len()), v));
        }
    }
    Err(ParseFailure { position: 0, rule: Rule::QuotedValue })
}

/// A quoted value at `p`: the pieces between the quotes and where it ends.
pub open spec fn quoted_at(s: Seq<char>, p: int) -> Option<(Seq<PieceM>, int)> {
    if 0 <= p < s.len() && s[p] == '"' && piece_at(s, p + 1, true) is Some {
        let rest = pieces_from(s, p + 1, true);
        if rest.0.len() > 0 && 0 <= rest.1 < s.len() && s[rest.1] == '"' {
            Some((rest.0, rest.1 + 1))
        } else {
            None
        }
    } else {
        None
    }
}

} // verus!
