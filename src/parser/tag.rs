use vstd::prelude::*;
use crate::attribute::Attribute;
use crate::model::{attr_model, attrs_model, lemma_attrs_push, tag_model, AttrM, TagM};
use crate::parser::custom_attributes::{customs, customs_at};
use crate::parser::scan::{span, span_of, text_of, CharKind};
use crate::parser::{ParseFailure, Rule};
use crate::tag::Tag;
use crate::text::chars_of;

verus! {

/// `.class` or `#id` at `p`.
pub open spec fn shortcut_at(s: Seq<char>, p: int) -> Option<(AttrM, int)> {
    if 0 <= p < s.len() && (s[p] == '.' || s[p] == '#') {
        let q = span(s, p + 1, CharKind::ClassChar);
        if q > p + 1 {
            if s[p] == '.' {
                Some((AttrM::Class(s.subrange(p + 1, q)), q))
            } else {
                Some((AttrM::Id(s.subrange(p + 1, q)), q))
            }
        } else {
            None
        }
    } else {
        None
    }
}

/// The class and id shortcuts from `p` on, and where they end.
pub open spec fn shortcuts_from(s: Seq<char>, p: int) -> (Seq<AttrM>, int)
    decreases s.len() - p,
{
    match shortcut_at(s, p) {
        Some((a, q)) => if p < q <= s.len() {
            let rest = shortcuts_from(s, q);
            (seq![a] + rest.0, rest.1)
        } else {
            (Seq::empty(), p)
        },
        None => (Seq::empty(), p),
    }
}

/// The shortcuts at `p` followed by the custom attributes there, if any.
pub open spec fn with_customs(s: Seq<char>, attrs: Seq<AttrM>, p: int) -> (Seq<AttrM>, int) {
    match customs_at(s, p) {
        Some((c, q)) => (attrs + c, q),
        None => (attrs, p),
    }
}

/// A tag at `p`: `%name` with optional shortcuts and custom attributes, or
/// shortcuts (at least one) for a `div`, with optional custom attributes.
pub open spec fn tag_at(s: Seq<char>, p: int) -> Option<(TagM, int)> {
    if 0 <= p < s.len() && s[p] == '%' {
        let n = span(s, p + 1, CharKind::Alnum);
        if n > p + 1 {
            let short = shortcuts_from(s, n);
            let all = with_customs(s, short.0, short.1);
            Some((TagM { name: s.subrange(p + 1, n), attributes: all.0 }, all.1))
        } else {
            None
        }
    } else {
        let short = shortcuts_from(s, p);
        if short.0.len() > 0 {
            let all = with_customs(s, short.0, short.1);
            Some((TagM { name: "div"@, attributes: all.0 }, all.1))
        } else {
            None
        }
    }
}

fn shortcut(s: &Vec<char>, p: usize) -> (r: Option<(Attribute, usize)>)
    requires
        p <= s@.len(),
    ensures
        match r {
            Some((a, q)) => shortcut_at(s@, p as int) == Some((attr_model(a), q as int)) && q <= s@.len(),
            None => shortcut_at(s@, p as int) is None,
        },
{
    if p < s.len() && (s[p] == '.' || s[p] == '#') {
        let q = span_of(s, p + 1, CharKind::ClassChar);
        if q > p + 1 {
            let token = text_of(s, p + 1, q);
            if s[p] == '.' {
                Some((Attribute::Class(token), q))
            } else {
                Some((Attribute::Id(token), q))
            }
        } else {
            None
        }
    } else {
        None
    }
}

fn shortcuts(s: &Vec<char>, p: usize) -> (r: (Vec<Attribute>, usize))
    requires
        p <= s@.len(),
    ensures
        shortcuts_from(s@, p as int) == (attrs_model(r.0@), r.1 as int),
        r.1 <= s@.len(),
{
    let mut v: Vec<Attribute> = Vec::new();
    let ghost goal = shortcuts_from(s@, p as int);
    let mut q = p;
    assert(attrs_model(v@) =~= Seq::<AttrM>::empty());
    loop
        invariant
            q <= s@.len(),
            attrs_model(v@) + shortcuts_from(s@, q as int).0 == goal.0,
            shortcuts_from(s@, q as int).1 == goal.1,
        ensures
            q <= s@.len(),
            attrs_model(v@) == goal.0,
            q == goal.1,
        decreases s@.len() - q,
    {
        match shortcut(s, q) {
            Some((a, e)) => {
                if q < e {
                    proof {
                        lemma_attrs_push(v@, a);
                        let rest = shortcuts_from(s@, e as int);
                        assert(attrs_model(v@).push(attr_model(a)) + rest.0 =~= attrs_model(v@) + (
                        seq![attr_model(a)] + rest.0));
                    }
                    v.push(a);
                    q = e;
                } else {
                    assert(attrs_model(v@) + Seq::<AttrM>::empty() =~= attrs_model(v@));
                    break;
                }
            },
            None => {
                assert(attrs_model(v@) + Seq::<AttrM>::empty() =~= attrs_model(v@));
                break;
            },
        }
    }
    (v, q)
}

fn add_customs(s: &Vec<char>, attrs: Vec<Attribute>, p: usize) -> (r: (Vec<Attribute>, usize))
    requires
        p <= s@.len(),
    ensures
        with_customs(s@, attrs_model(attrs@), p as int) == (attrs_model(r.0@), r.1 as int),
        r.1 <= s@.len(),
{
    match customs(s, p) {
        Some((c, q)) => {
            let mut all = attrs;
            let mut more = c;
            let ghost front = attrs_model(all@);
            let ghost back = attrs_model(more@);
            all.append(&mut more);
            assert(attrs_model(all@) =~= front + back);
            (all, q)
        },
        None => (attrs, p),
    }
}

/// The tag at `p` and where it ends.
pub fn tag(s: &Vec<char>, p: usize) -> (r: Option<(Tag, usize)>)
    requires
        p <= s@.len(),
    ensures
        match r {
            Some((t, q)) => tag_at(s@, p as int) == Some((tag_model(t), q as int)) && q <= s@.len(),
            None => tag_at(s@, p as int) is None,
        },
{
    if p < s.len() && s[p] == '%' {
        let n = span_of(s, p + 1, CharKind::Alnum);
        if n > p + 1 {
            let (short, q) = shortcuts(s, n);
            let (attributes, e) = add_customs(s, short, q);
            Some((Tag { name: text_of(s, p + 1, n), attributes }, e))
        } else {
            None
        }
    } else {
        let (short, q) = shortcuts(s, p);
        if short.len() > 0 {
            let (attributes, e) = add_customs(s, short, q);
            Some((Tag { name: "div".to_string(), attributes }, e))
        } else {
            None
        }
    }
}

/// Parses a tag at the start of `input`: the tag and the text left after it.
pub fn parse(input: &str) -> (r: Result<(String, Tag), ParseFailure>)
    ensures
        match tag_at(input@, 0) {
            Some((t, q)) => r matches Ok((rest, v)) && tag_model(v) == t && rest@ == input@.subrange(
                q,
                input@.len() as int,
            ),
            None => r == Err::<(String, Tag), ParseFailure>(ParseFailure { position: 0, rule: Rule::Tag }),
        },
{
    let s = chars_of(input);
    match tag(&s, 0) {
        Some((t, q)) => Ok((text_of(&s, q, s.len()), t)),
        None => Err(ParseFailure { position: 0, rule: Rule::Tag }),
    }
}

/// Parses a class or id token at the start of `input`: the token and the
/// text left after it.
pub fn parse_html_class(input: &str) -> (r: Result<(String, String), ParseFailure>)
    ensures
        span(input@, 0, CharKind::ClassChar) > 0 ==> (r matches Ok((rest, token)) && token@
            == input@.subrange(0, span(input@, 0, CharKind::ClassChar)) && rest@ == input@.subrange(
            span(input@, 0, CharKind::ClassChar),
            input@.len() as int,
        )),
        span(input@, 0, CharKind::ClassChar) <= 0 ==> r == Err::<(String, String), ParseFailure>(
            ParseFailure { position: 0, rule: Rule::ClassName },
        ),
{
    let s = chars_of(input);
    let q = span_of(&s, 0, CharKind::ClassChar);
    if q > 0 {
        Ok((text_of(&s, q, s.len()), text_of(&s, 0, q)))
    } else {
        Err(ParseFailure { position: 0, rule: Rule::ClassName })
    }
}

} // verus!
