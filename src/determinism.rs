use vstd::prelude::*;
use crate::attribute::{Attribute, AttributeValueComponent};
use crate::attributes::{class_names, custom_pairs, custom_texts, first_id, rendered_attributes, value_text};
use crate::context::{binding_at, frame_for, json_at, Binding, Json, Scope, scope_find, Selector};
use crate::fragments::{fragment_index, lemma_fragment_index_bounds, lemma_model_index, table_model, FragmentError};
use crate::model::{attr_model, attrs_model, blocks_model, list_model, node_model, nodes_model, piece_model, pieces_model, step_model, steps_model};
use crate::node::Node;
use crate::nodes::Nodes;
use crate::render::{block_index, eval_list, eval_loop, eval_node, eval_nodes, item_scope, overlay};

verus! {

/// Two sets of bindings that bind the same names to the same values.
pub open spec fn frames_match<'a>(a: Seq<(&'a String, Binding<'a>)>, b: Seq<(&'a String, Binding<'a>)>) -> bool {
    a.len() == b.len() && forall|i: int| 0 <= i < a.len() ==> a[i].0@ == b[i].0@ && a[i].1 == b[i].1
}

/// Two scopes that find the same values.
pub open spec fn scopes_match<'a>(a: Scope<'a>, b: Scope<'a>) -> bool {
    a.root == b.root && frames_match(a.frames, b.frames)
}

/// Two block tables with the same names and the same bodies.
pub open spec fn tables_match<'a>(a: Seq<(&'a String, &'a Nodes)>, b: Seq<(&'a String, &'a Nodes)>) -> bool {
    a.len() == b.len() && forall|i: int|
        0 <= i < a.len() ==> a[i].0@ == b[i].0@ && nodes_model(*a[i].1) == nodes_model(*b[i].1)
}

proof fn lemma_json_at(j: Json, pa: Seq<Selector>, pb: Seq<Selector>)
    requires
        steps_model(pa) == steps_model(pb),
    ensures
        json_at(j, pa) == json_at(j, pb),
    decreases pa.len(),
{
    assert(pa.len() == steps_model(pa).len());
    assert(pb.len() == steps_model(pb).len());
    if pa.len() > 0 {
        assert(steps_model(pa)[0] == step_model(pa[0]));
        assert(steps_model(pb)[0] == step_model(pb[0]));
        assert(steps_model(pa.drop_first()) =~= steps_model(pa).drop_first());
        assert(steps_model(pb.drop_first()) =~= steps_model(pb).drop_first());
        match pa[0] {
            Selector::Key(k1) => {
                assert(pb[0] is Key);
                assert(pb[0]->Key_0@ == k1@);
                if let Json::Object(entries) = j {
                    if let Some(v) = crate::context::entry_for(entries@, k1@) {
                        lemma_json_at(v, pa.drop_first(), pb.drop_first());
                    }
                }
            },
            Selector::Index(n) => {
                assert(pb[0] == Selector::Index(n));
                if let Json::Array(items) = j {
                    if n < items.len() {
                        lemma_json_at(items@[n as int], pa.drop_first(), pb.drop_first());
                    }
                }
            },
        }
    }
}

proof fn lemma_frame_for<'a>(a: Seq<(&'a String, Binding<'a>)>, b: Seq<(&'a String, Binding<'a>)>, key: Seq<char>)
    requires
        frames_match(a, b),
    ensures
        frame_for(a, key) == frame_for(b, key),
    decreases a.len(),
{
    if a.len() > 0 {
        lemma_frame_for(a.drop_last(), b.drop_last(), key);
    }
}

proof fn lemma_binding_at<'a>(x: Binding<'a>, pa: Seq<Selector>, pb: Seq<Selector>)
    requires
        steps_model(pa) == steps_model(pb),
    ensures
        binding_at(x, pa) == binding_at(x, pb),
{
    assert(pa.len() == steps_model(pa).len());
    assert(pb.len() == steps_model(pb).len());
    if let Binding::Value(j) = x {
        lemma_json_at(*j, pa, pb);
    }
}

/// Matching scopes find the same thing for paths with the same steps.
pub proof fn lemma_scope_find<'a>(a: Scope<'a>, b: Scope<'a>, pa: Seq<Selector>, pb: Seq<Selector>)
    requires
        scopes_match(a, b),
        steps_model(pa) == steps_model(pb),
    ensures
        scope_find(a, pa) == scope_find(b, pb),
{
    assert(pa.len() == steps_model(pa).len());
    assert(pb.len() == steps_model(pb).len());
    lemma_binding_at(Binding::Value(&a.root), pa, pb);
    if pa.len() > 0 {
        assert(steps_model(pa)[0] == step_model(pa[0]));
        assert(steps_model(pb)[0] == step_model(pb[0]));
        assert(pa[0] is Key <==> pb[0] is Key);
        if pa[0] is Key {
            assert(pa[0]->Key_0@ == pb[0]->Key_0@);
        }
        assert(steps_model(pa.drop_first()) =~= steps_model(pa).drop_first());
        assert(steps_model(pb.drop_first()) =~= steps_model(pb).drop_first());
        if pa[0] is Key {
            lemma_frame_for(a.frames, b.frames, pa[0]->Key_0@);
            if let Some(x) = frame_for(a.frames, pa[0]->Key_0@) {
                lemma_binding_at(x, pa.drop_first(), pb.drop_first());
            }
        }
    }
}

proof fn lemma_value_text<'a>(c1: Seq<AttributeValueComponent>, c2: Seq<AttributeValueComponent>, a: Scope<'a>, b: Scope<'a>)
    requires
        pieces_model(c1) == pieces_model(c2),
        scopes_match(a, b),
    ensures
        value_text(c1, a) == value_text(c2, b),
    decreases c1.len(),
{
    assert(c1.len() == pieces_model(c1).len());
    assert(c2.len() == pieces_model(c2).len());
    if c1.len() > 0 {
        assert(pieces_model(c1.drop_last()) =~= pieces_model(c1).drop_last());
        assert(pieces_model(c2.drop_last()) =~= pieces_model(c2).drop_last());
        lemma_value_text(c1.drop_last(), c2.drop_last(), a, b);
        assert(pieces_model(c1)[c1.len() - 1] == piece_model(c1[c1.len() - 1]));
        assert(pieces_model(c2)[c2.len() - 1] == piece_model(c2[c2.len() - 1]));
        if let AttributeValueComponent::InterpolatedValue(pa) = c1.last() {
            if let AttributeValueComponent::InterpolatedValue(pb) = c2.last() {
                lemma_scope_find(a, b, pa@, pb@);
            }
        }
    }
}

proof fn lemma_attributes<'a>(x: Seq<Attribute>, y: Seq<Attribute>, a: Scope<'a>, b: Scope<'a>)
    requires
        attrs_model(x) == attrs_model(y),
        scopes_match(a, b),
    ensures
        first_id(x) == first_id(y),
        class_names(x) == class_names(y),
        custom_texts(custom_pairs(x), a) == custom_texts(custom_pairs(y), b),
    decreases x.len(),
{
    assert(x.len() == attrs_model(x).len());
    assert(y.len() == attrs_model(y).len());
    if x.len() > 0 {
        assert(attrs_model(x.drop_last()) =~= attrs_model(x).drop_last());
        assert(attrs_model(y.drop_last()) =~= attrs_model(y).drop_last());
        lemma_attributes(x.drop_last(), y.drop_last(), a, b);
        assert(attrs_model(x)[x.len() - 1] == attr_model(x[x.len() - 1]));
        assert(attrs_model(y)[y.len() - 1] == attr_model(y[y.len() - 1]));
        if let Attribute::Custom(k1, v1) = x.last() {
            if let Attribute::Custom(k2, v2) = y.last() {
                lemma_value_text(v1@, v2@, a, b);
                assert(custom_pairs(x).drop_last() =~= custom_pairs(x.drop_last()));
                assert(custom_pairs(y).drop_last() =~= custom_pairs(y.drop_last()));
            }
        }
    }
}

/// Attributes with the same value render the same in matching scopes.
pub proof fn lemma_rendered_attributes<'a>(x: Seq<Attribute>, y: Seq<Attribute>, a: Scope<'a>, b: Scope<'a>)
    requires
        attrs_model(x) == attrs_model(y),
        scopes_match(a, b),
    ensures
        rendered_attributes(x, a) == rendered_attributes(y, b),
{
    lemma_attributes(x, y, a, b);
}

proof fn lemma_block_index<'a>(a: Seq<(&'a String, &'a Nodes)>, b: Seq<(&'a String, &'a Nodes)>, name: Seq<char>)
    requires
        tables_match(a, b),
    ensures
        block_index(a, name) == block_index(b, name),
        block_index(a, name) matches Some(i) ==> 0 <= i < a.len(),
    decreases a.len(),
{
    if a.len() > 0 {
        lemma_block_index(a.drop_last(), b.drop_last(), name);
    }
}

proof fn lemma_overlay<'a>(
    o1: Seq<(String, Nodes)>,
    o2: Seq<(String, Nodes)>,
    a: Seq<(&'a String, &'a Nodes)>,
    b: Seq<(&'a String, &'a Nodes)>,
)
    requires
        blocks_model(o1) == blocks_model(o2),
        tables_match(a, b),
    ensures
        tables_match(overlay(o1, a), overlay(o2, b)),
{
    assert(o1.len() == blocks_model(o1).len());
    assert(o2.len() == blocks_model(o2).len());
    assert forall|i: int| 0 <= i < o1.len() implies o1[i].0@ == o2[i].0@ && nodes_model(o1[i].1) == nodes_model(o2[i].1) by {
        assert(blocks_model(o1)[i] == blocks_model(o2)[i]);
    }
}

proof fn lemma_item_scope<'a>(
    a: Scope<'a>,
    b: Scope<'a>,
    i1: Option<String>,
    i2: Option<String>,
    l1: String,
    l2: String,
    item: Json,
    k: int,
)
    requires
        scopes_match(a, b),
        l1@ == l2@,
        i1 is Some <==> i2 is Some,
        i1 is Some ==> i1->Some_0@ == i2->Some_0@,
    ensures
        scopes_match(item_scope(a, i1, l1, item, k), item_scope(b, i2, l2, item, k)),
{
}

/// Templates with the same value render to the same text, with matching
/// scopes and block tables and fragment tables with the same contents.
pub proof fn lemma_node_text<'a>(
    n1: Node,
    n2: Node,
    a: Scope<'a>,
    b: Scope<'a>,
    f1: Seq<(String, Result<Nodes, FragmentError>)>,
    f2: Seq<(String, Result<Nodes, FragmentError>)>,
    t1: Seq<(&'a String, &'a Nodes)>,
    t2: Seq<(&'a String, &'a Nodes)>,
    styles: Option<String>,
    fuel: nat,
)
    requires
        node_model(n1) == node_model(n2),
        scopes_match(a, b),
        table_model(f1) == table_model(f2),
        tables_match(t1, t2),
    ensures
        eval_node(n1, a, f1, t1, styles, fuel).0 == eval_node(n2, b, f2, t2, styles, fuel).0,
    decreases fuel, n1, 0nat,
{
    match n1 {
        Node::Text(_) => {},
        Node::Markdown(l1) => {
            if let Node::Markdown(l2) = n2 {
                assert(crate::text::texts(l1@) =~= crate::text::texts(l2@)) by {
                    assert(crate::model::lines_model(l1@) == crate::model::lines_model(l2@));
                    assert(l1@.len() == crate::model::lines_model(l1@).len());
                    assert forall|i: int| 0 <= i < l1@.len() implies l1@[i]@ == l2@[i]@ by {
                        assert(crate::model::lines_model(l1@)[i] == crate::model::lines_model(l2@)[i]);
                    }
                }
            }
        },
        Node::InterpolatedText(pa) => {
            if let Node::InterpolatedText(pb) = n2 {
                lemma_scope_find(a, b, pa@, pb@);
            }
        },
        Node::BlockValue(name) => {
            lemma_block_index(t1, t2, name@);
            if let Some(i) = block_index(t1, name@) {
                if fuel > 0 {
                    lemma_nodes_text(*t1[i].1, *t2[i].1, a, b, f1, f2, t1, t2, styles, (fuel - 1) as nat);
                }
            }
        },
        Node::Element { tag: g1, children: c1 } => {
            if let Node::Element { tag: g2, children: c2 } = n2 {
                lemma_rendered_attributes(g1.attributes@, g2.attributes@, a, b);
                lemma_nodes_text(c1, c2, a, b, f1, f2, t1, t2, styles, fuel);
            }
        },
        Node::ForLoop { index: i1, local: l1, selectors: pa, children: c1 } => {
            if let Node::ForLoop { index: i2, local: l2, selectors: pb, children: c2 } = n2 {
                lemma_scope_find(a, b, pa@, pb@);
                if let Some(Binding::Value(j)) = scope_find(a, pa@) {
                    if let Json::Array(items) = *j {
                        lemma_loop_text(items@, i1, i2, l1, l2, c1, c2, a, b, f1, f2, t1, t2, styles, fuel, items.len() as nat);
                    }
                }
            }
        },
        Node::IfElse { selectors: pa, true_children: y1, false_children: z1 } => {
            if let Node::IfElse { selectors: pb, true_children: y2, false_children: z2 } = n2 {
                lemma_scope_find(a, b, pa@, pb@);
                lemma_nodes_text(y1, y2, a, b, f1, f2, t1, t2, styles, fuel);
                lemma_nodes_text(z1, z2, a, b, f1, f2, t1, t2, styles, fuel);
            }
        },
        Node::Fragment { path } => {
            lemma_model_index(f1, path@);
            lemma_model_index(f2, path@);
            lemma_fragment_index_bounds(f1, path@);
            assert(f1.len() == table_model(f1).len());
            assert(f2.len() == table_model(f2).len());
            if let Some(i) = fragment_index(f1, path@) {
                assert(table_model(f1)[i] == table_model(f2)[i]);
                if f1[i].1 is Ok && fuel > 0 {
                    lemma_nodes_text(f1[i].1->Ok_0, f2[i].1->Ok_0, a, b, f1, f2, t1, t2, styles, (fuel - 1) as nat);
                }
            }
        },
        Node::Block { name, children: c1 } => {
            if let Node::Block { name: m2, children: c2 } = n2 {
                lemma_block_index(t1, t2, name@);
                if let Some(i) = block_index(t1, name@) {
                    if fuel > 0 {
                        lemma_nodes_text(*t1[i].1, *t2[i].1, a, b, f1, f2, t1, t2, styles, (fuel - 1) as nat);
                    }
                } else {
                    lemma_nodes_text(c1, c2, a, b, f1, f2, t1, t2, styles, fuel);
                }
            }
        },
    }
}

pub proof fn lemma_nodes_text<'a>(
    n1: Nodes,
    n2: Nodes,
    a: Scope<'a>,
    b: Scope<'a>,
    f1: Seq<(String, Result<Nodes, FragmentError>)>,
    f2: Seq<(String, Result<Nodes, FragmentError>)>,
    t1: Seq<(&'a String, &'a Nodes)>,
    t2: Seq<(&'a String, &'a Nodes)>,
    styles: Option<String>,
    fuel: nat,
)
    requires
        nodes_model(n1) == nodes_model(n2),
        scopes_match(a, b),
        table_model(f1) == table_model(f2),
        tables_match(t1, t2),
    ensures
        eval_nodes(n1, a, f1, t1, styles, fuel).0 == eval_nodes(n2, b, f2, t2, styles, fuel).0,
    decreases fuel, n1, 0nat,
{
    match n1 {
        Nodes::Fragment { nodes: l1 } => {
            if let Nodes::Fragment { nodes: l2 } = n2 {
                assert(l1@.len() == list_model(l1@).len());
                assert(l2@.len() == list_model(l2@).len());
                lemma_list_text(l1@, l2@, a, b, f1, f2, t1, t2, styles, fuel, l1.len() as nat);
            }
        },
        Nodes::Document { nodes: l1 } => {
            if let Nodes::Document { nodes: l2 } = n2 {
                assert(l1@.len() == list_model(l1@).len());
                assert(l2@.len() == list_model(l2@).len());
                lemma_list_text(l1@, l2@, a, b, f1, f2, t1, t2, styles, fuel, l1.len() as nat);
            }
        },
        Nodes::FragmentSubclass { layout, blocks: o1 } => {
            if let Nodes::FragmentSubclass { layout: m2, blocks: o2 } = n2 {
                lemma_model_index(f1, layout@);
                lemma_model_index(f2, layout@);
                lemma_fragment_index_bounds(f1, layout@);
                assert(f1.len() == table_model(f1).len());
                assert(f2.len() == table_model(f2).len());
                if let Some(i) = fragment_index(f1, layout@) {
                    assert(table_model(f1)[i] == table_model(f2)[i]);
                    if f1[i].1 is Ok && fuel > 0 {
                        lemma_overlay(o1@, o2@, t1, t2);
                        lemma_nodes_text(
                            f1[i].1->Ok_0,
                            f2[i].1->Ok_0,
                            a,
                            b,
                            f1,
                            f2,
                            overlay(o1@, t1),
                            overlay(o2@, t2),
                            styles,
                            (fuel - 1) as nat,
                        );
                    }
                }
            }
        },
    }
}

proof fn lemma_list_text<'a>(
    l1: Seq<Node>,
    l2: Seq<Node>,
    a: Scope<'a>,
    b: Scope<'a>,
    f1: Seq<(String, Result<Nodes, FragmentError>)>,
    f2: Seq<(String, Result<Nodes, FragmentError>)>,
    t1: Seq<(&'a String, &'a Nodes)>,
    t2: Seq<(&'a String, &'a Nodes)>,
    styles: Option<String>,
    fuel: nat,
    n: nat,
)
    requires
        list_model(l1) == list_model(l2),
        scopes_match(a, b),
        table_model(f1) == table_model(f2),
        tables_match(t1, t2),
    ensures
        eval_list(l1, a, f1, t1, styles, fuel, n).0 == eval_list(l2, b, f2, t2, styles, fuel, n).0,
    decreases fuel, l1, n,
{
    assert(l1.len() == list_model(l1).len());
    assert(l2.len() == list_model(l2).len());
    if n > 0 && n <= l1.len() {
        lemma_list_text(l1, l2, a, b, f1, f2, t1, t2, styles, fuel, (n - 1) as nat);
        assert(list_model(l1)[n - 1] == node_model(l1[n - 1]));
        assert(list_model(l2)[n - 1] == node_model(l2[n - 1]));
        lemma_node_text(l1[n - 1], l2[n - 1], a, b, f1, f2, t1, t2, styles, fuel);
    }
}

proof fn lemma_loop_text<'a>(
    items: Seq<Json>,
    i1: Option<String>,
    i2: Option<String>,
    l1: String,
    l2: String,
    c1: Nodes,
    c2: Nodes,
    a: Scope<'a>,
    b: Scope<'a>,
    f1: Seq<(String, Result<Nodes, FragmentError>)>,
    f2: Seq<(String, Result<Nodes, FragmentError>)>,
    t1: Seq<(&'a String, &'a Nodes)>,
    t2: Seq<(&'a String, &'a Nodes)>,
    styles: Option<String>,
    fuel: nat,
    n: nat,
)
    requires
        nodes_model(c1) == nodes_model(c2),
        l1@ == l2@,
        i1 is Some <==> i2 is Some,
        i1 is Some ==> i1->Some_0@ == i2->Some_0@,
        scopes_match(a, b),
        table_model(f1) == table_model(f2),
        tables_match(t1, t2),
    ensures
        eval_loop(items, i1, l1, c1, a, f1, t1, styles, fuel, n).0 == eval_loop(
            items,
            i2,
            l2,
            c2,
            b,
            f2,
            t2,
            styles,
            fuel,
            n,
        ).0,
    decreases fuel, c1, n + 1,
{
    if n > 0 && n <= items.len() {
        lemma_loop_text(items, i1, i2, l1, l2, c1, c2, a, b, f1, f2, t1, t2, styles, fuel, (n - 1) as nat);
        lemma_item_scope(a, b, i1, i2, l1, l2, items[n - 1], n - 1);
        lemma_nodes_text(
            c1,
            c2,
            item_scope(a, i1, l1, items[n - 1], n - 1),
            item_scope(b, i2, l2, items[n - 1], n - 1),
            f1,
            f2,
            t1,
            t2,
            styles,
            fuel,
        );
    }
}

} // verus!
