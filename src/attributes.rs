use vstd::prelude::*;
use crate::attribute::{Attribute, AttributeValueComponent};
use crate::context::{binding_text, scope_find, Context, Scope};
use crate::text::{concat, join, join_with, texts};

verus! {

/// The attributes of a tag sorted for output: the first id, the classes
/// and the custom attributes, each in source order.
pub struct Attributes<'a> {
    id: Option<&'a String>,
    classes: Vec<&'a String>,
    custom: Vec<(&'a String, &'a Vec<AttributeValueComponent>)>,
}

/// The first id among `attrs`.
pub open spec fn first_id(attrs: Seq<Attribute>) -> Option<Seq<char>>
    decreases attrs.len(),
{
    if attrs.len() == 0 {
        None
    } else {
        match first_id(attrs.drop_last()) {
            Some(v) => Some(v),
            None => match attrs.last() {
                Attribute::Id(v) => Some(v@),
                _ => None,
            },
        }
    }
}

/// The classes among `attrs`, in order.
pub open spec fn class_names(attrs: Seq<Attribute>) -> Seq<Seq<char>>
    decreases attrs.len(),
{
    if attrs.len() == 0 {
        Seq::empty()
    } else {
        match attrs.last() {
            Attribute::Class(v) => class_names(attrs.drop_last()).push(v@),
            _ => class_names(attrs.drop_last()),
        }
    }
}

/// The custom attributes among `attrs`, in order.
pub open spec fn custom_pairs(attrs: Seq<Attribute>) -> Seq<(Seq<char>, Seq<AttributeValueComponent>)>
    decreases attrs.len(),
{
    if attrs.len() == 0 {
        Seq::empty()
    } else {
        match attrs.last() {
            Attribute::Custom(k, v) => custom_pairs(attrs.drop_last()).push((k@, v@)),
            _ => custom_pairs(attrs.drop_last()),
        }
    }
}

/// The text of one value component: an absent interpolation gives nothing.
pub open spec fn component_text(c: AttributeValueComponent, scope: Scope) -> Seq<char> {
    match c {
        AttributeValueComponent::RawValue(s) => s@,
        AttributeValueComponent::InterpolatedValue(path) => match scope_find(scope, path@) {
            Some(b) => binding_text(b),
            None => Seq::empty(),
        },
    }
}

/// The text of a custom attribute's value: its components one after another.
pub open spec fn value_text(cs: Seq<AttributeValueComponent>, scope: Scope) -> Seq<char>
    decreases cs.len(),
{
    if cs.len() == 0 {
        Seq::empty()
    } else {
        value_text(cs.drop_last(), scope) + component_text(cs.last(), scope)
    }
}

/// `name="value"`.
pub open spec fn quoted(name: Seq<char>, value: Seq<char>) -> Seq<char> {
    name + "=\""@ + value + "\""@
}

/// The rendered custom attributes, in order.
pub open spec fn custom_texts(
    pairs: Seq<(Seq<char>, Seq<AttributeValueComponent>)>,
    scope: Scope,
) -> Seq<Seq<char>>
    decreases pairs.len(),
{
    if pairs.len() == 0 {
        Seq::empty()
    } else {
        custom_texts(pairs.drop_last(), scope).push(
            quoted(pairs.last().0, value_text(pairs.last().1, scope)),
        )
    }
}

/// The rendered attributes: the id first, then the classes as one
/// attribute, then each custom attribute in source order.
pub open spec fn attribute_texts(
    id: Option<Seq<char>>,
    classes: Seq<Seq<char>>,
    custom: Seq<(Seq<char>, Seq<AttributeValueComponent>)>,
    scope: Scope,
) -> Seq<Seq<char>> {
    let id_part = match id {
        Some(v) => seq![quoted("id"@, v)],
        None => Seq::empty(),
    };
    let class_part = if classes.len() > 0 {
        seq![quoted("class"@, join_with(classes, " "@))]
    } else {
        Seq::empty()
    };
    id_part + class_part + custom_texts(custom, scope)
}

/// The rendered attributes of `attrs`.
pub open spec fn rendered_attributes(attrs: Seq<Attribute>, scope: Scope) -> Seq<Seq<char>> {
    attribute_texts(first_id(attrs), class_names(attrs), custom_pairs(attrs), scope)
}

impl<'a> View for Attributes<'a> {
    type V = (Option<Seq<char>>, Seq<Seq<char>>, Seq<(Seq<char>, Seq<AttributeValueComponent>)>);

    closed spec fn view(&self) -> Self::V {
        (
            match self.id {
                Some(v) => Some(v@),
                None => None,
            },
            self.classes@.map_values(|c: &String| c@),
            self.custom@.map_values(|p: (&String, &Vec<AttributeValueComponent>)| (p.0@, p.1@)),
        )
    }
}

impl<'a> Attributes<'a> {
    /// Sorts `attrs` into the first id, the classes and the custom attributes.
    pub fn new(attrs: &'a Vec<Attribute>) -> (r: Attributes<'a>)
        ensures
            r@ == (first_id(attrs@), class_names(attrs@), custom_pairs(attrs@)),
    {
        let mut id: Option<&'a String> = None;
        let mut classes: Vec<&'a String> = Vec::new();
        let mut custom: Vec<(&'a String, &'a Vec<AttributeValueComponent>)> = Vec::new();
        let mut i: usize = 0;
        while i < attrs.len()
            invariant
                i <= attrs@.len(),
                (Attributes { id, classes, custom })@ == (
                    first_id(attrs@.take(i as int)),
                    class_names(attrs@.take(i as int)),
                    custom_pairs(attrs@.take(i as int)),
                ),
            decreases attrs@.len() - i,
        {
            let ghost before = Attributes { id, classes, custom };
            proof {
                assert(attrs@.take(i + 1).drop_last() =~= attrs@.take(i as int));
            }
            match &attrs[i] {
                Attribute::Id(v) => {
                    if id.is_none() {
                        id = Some(v);
                    }
                },
                Attribute::Class(v) => {
                    classes.push(v);
                },
                Attribute::Custom(k, v) => {
                    custom.push((k, v));
                },
            }
            proof {
                let after = Attributes { id, classes, custom };
                assert(after@.1 =~= class_names(attrs@.take(i + 1)));
                assert(after@.2 =~= custom_pairs(attrs@.take(i + 1)));
            }
            i = i + 1;
        }
        assert(attrs@.take(i as int) =~= attrs@);
        Attributes { id, classes, custom }
    }

    /// The rendered attributes, in output order.
    pub fn to_html(&self, context: &Context) -> (r: Vec<String>)
        ensures
            texts(r@) == attribute_texts(self@.0, self@.1, self@.2, context@),
    {
        let mut results: Vec<String> = Vec::new();
        if let Some(id) = self.id {
            results.push(quote("id", id.as_str()));
        }
        if self.classes.len() > 0 {
            let joined = join_classes(&self.classes);
            results.push(quote("class", joined.as_str()));
        }
        let ghost start = texts(results@);
        assert(start.len() == results@.len());
        let mut i: usize = 0;
        while i < self.custom.len()
            invariant
                i <= self.custom@.len(),
                results@.len() == start.len() + i,
                texts(results@) == start + custom_texts(self@.2.take(i as int), context@),
            decreases self.custom@.len() - i,
        {
            proof {
                assert(self@.2.take(i + 1).drop_last() =~= self@.2.take(i as int));
            }
            assert(self@.2[i as int] == (self.custom@[i as int].0@, self.custom@[i as int].1@));
            let value = evaluate_attribute_value_components(self.custom[i].1, context);
            let ghost old_results = results@;
            results.push(quote(self.custom[i].0.as_str(), value.as_str()));
            proof {
                let goal = start + custom_texts(self@.2.take(i + 1), context@);
                assert(self@.2.take(i + 1).last() == self@.2[i as int]);
                assert(self@.2.take(i + 1).len() == i + 1);
                assert(custom_texts(self@.2.take(i + 1), context@) == custom_texts(self@.2.take(i as int), context@).push(
                    quoted(self@.2[i as int].0, value_text(self@.2[i as int].1, context@))));
                assert(texts(old_results).len() == old_results.len());
                assert(goal.len() == results@.len());
                assert forall|j: int| 0 <= j < results@.len() implies texts(results@)[j] == goal[j] by {
                    if j < old_results.len() {
                        assert(texts(results@)[j] == texts(old_results)[j]);
                        assert(texts(old_results)[j] == (start + custom_texts(self@.2.take(i as int), context@))[j]);
                    }
                }
                assert(texts(results@) =~= start + custom_texts(self@.2.take(i + 1), context@));
            }
            i = i + 1;
        }
        assert(self@.2.take(i as int) =~= self@.2);
        let ghost id_part = match self@.0 {
            Some(v) => seq![quoted("id"@, v)],
            None => Seq::<Seq<char>>::empty(),
        };
        assert(texts(results@) =~= attribute_texts(self@.0, self@.1, self@.2, context@));
        results
    }
}

fn join_classes(classes: &Vec<&String>) -> (r: String)
    ensures
        r@ == join_with(classes@.map_values(|c: &String| c@), " "@),
{
    let mut owned: Vec<String> = Vec::new();
    let mut i: usize = 0;
    while i < classes.len()
        invariant
            i <= classes@.len(),
            owned@.len() == i,
            texts(owned@) == classes@.take(i as int).map_values(|c: &String| c@),
        decreases classes@.len() - i,
    {
        let c: String = (*classes[i]).clone();
        let ghost old_owned = owned@;
        owned.push(c);
        proof {
            assert forall|j: int| 0 <= j < i implies texts(owned@)[j] == texts(old_owned)[j] by {}
            assert(c@ == classes@[i as int]@);
            assert(texts(owned@)[i as int] == c@);
            assert(classes@.take(i + 1).map_values(|c: &String| c@)[i as int] == classes@[i as int]@);
            assert forall|j: int| 0 <= j < i implies texts(owned@)[j] == classes@.take(i + 1).map_values(|c: &String| c@)[j] by {
                assert(texts(old_owned)[j] == classes@.take(i as int).map_values(|c: &String| c@)[j]);
            }
            assert(texts(owned@) =~= classes@.take(i + 1).map_values(|c: &String| c@));
        }
        i = i + 1;
    }
    assert(classes@.take(i as int) =~= classes@);
    join(&owned, " ")
}

/// `name="value"`.
fn quote(name: &str, value: &str) -> (r: String)
    ensures
        r@ == quoted(name@, value@),
{
    let a = concat(name, "=\"");
    let b = concat(a.as_str(), value);
    concat(b.as_str(), "\"")
}

/// The text of a custom attribute's value in `context`.
fn evaluate_attribute_value_components(values: &Vec<AttributeValueComponent>, context: &Context) -> (r: String)
    ensures
        r@ == value_text(values@, context@),
{
    let mut out = String::new();
    let mut i: usize = 0;
    while i < values.len()
        invariant
            i <= values@.len(),
            out@ == value_text(values@.take(i as int), context@),
        decreases values@.len() - i,
    {
        proof {
            assert(values@.take(i + 1).drop_last() =~= values@.take(i as int));
        }
        match &values[i] {
            AttributeValueComponent::RawValue(v) => {
                out.append(v.as_str());
            },
            AttributeValueComponent::InterpolatedValue(path) => {
                if let Some(v) = context.interpret(path) {
                    out.append(v.as_str());
                }
            },
        }
        i = i + 1;
    }
    assert(values@.take(i as int) =~= values@);
    out
}

} // verus!
