use vstd::prelude::*;
use crate::attribute::{Attribute, AttributeValueComponent};
use crate::context::Selector;
use crate::node::Node;
use crate::nodes::Nodes;
use crate::tag::Tag;

verus! {

/// The value of a selector step.
pub enum StepM {
    Key(Seq<char>),
    Index(usize),
}

/// The value of a piece of an attribute value.
pub enum PieceM {
    Raw(Seq<char>),
    Interpolated(Seq<StepM>),
}

/// The value of an attribute.
pub enum AttrM {
    Id(Seq<char>),
    Class(Seq<char>),
    Custom(Seq<char>, Seq<PieceM>),
}

/// The value of a tag.
pub struct TagM {
    pub name: Seq<char>,
    pub attributes: Seq<AttrM>,
}

/// The value of a node.
pub enum NodeM {
    Text(Seq<char>),
    Markdown(Seq<Seq<char>>),
    InterpolatedText(Seq<StepM>),
    BlockValue(Seq<char>),
    Element(TagM, NodesM),
    ForLoop(Option<Seq<char>>, Seq<char>, Seq<StepM>, NodesM),
    IfElse(Seq<StepM>, NodesM, NodesM),
    Fragment(Seq<char>),
    Block(Seq<char>, NodesM),
}

/// The value of a template.
pub enum NodesM {
    Fragment(Seq<NodeM>),
    Document(Seq<NodeM>),
    Subclass(Seq<char>, Seq<(Seq<char>, NodesM)>),
}

pub open spec fn step_model(s: Selector) -> StepM {
    match s {
        Selector::Key(k) => StepM::Key(k@),
        Selector::Index(i) => StepM::Index(i),
    }
}

pub open spec fn steps_model(v: Seq<Selector>) -> Seq<StepM> {
    v.map_values(|s: Selector| step_model(s))
}

pub open spec fn piece_model(c: AttributeValueComponent) -> PieceM {
    match c {
        AttributeValueComponent::RawValue(s) => PieceM::Raw(s@),
        AttributeValueComponent::InterpolatedValue(p) => PieceM::Interpolated(steps_model(p@)),
    }
}

pub open spec fn pieces_model(v: Seq<AttributeValueComponent>) -> Seq<PieceM> {
    v.map_values(|c: AttributeValueComponent| piece_model(c))
}

pub open spec fn attr_model(a: Attribute) -> AttrM {
    match a {
        Attribute::Id(s) => AttrM::Id(s@),
        Attribute::Class(s) => AttrM::Class(s@),
        Attribute::Custom(k, v) => AttrM::Custom(k@, pieces_model(v@)),
    }
}

pub open spec fn attrs_model(v: Seq<Attribute>) -> Seq<AttrM> {
    v.map_values(|a: Attribute| attr_model(a))
}

pub open spec fn tag_model(t: Tag) -> TagM {
    TagM { name: t.name@, attributes: attrs_model(t.attributes@) }
}

pub open spec fn lines_model(v: Seq<String>) -> Seq<Seq<char>> {
    v.map_values(|s: String| s@)
}

pub open spec fn node_model(n: Node) -> NodeM
    decreases n, 0nat,
{
    match n {
        Node::Text(s) => NodeM::Text(s@),
        Node::Markdown(lines) => NodeM::Markdown(lines_model(lines@)),
        Node::InterpolatedText(p) => NodeM::InterpolatedText(steps_model(p@)),
        Node::BlockValue(name) => NodeM::BlockValue(name@),
        Node::Element { tag, children } => NodeM::Element(tag_model(tag), nodes_model(children)),
        Node::ForLoop { index, local, selectors, children } => NodeM::ForLoop(
            match index {
                Some(i) => Some(i@),
                None => None,
            },
            local@,
            steps_model(selectors@),
            nodes_model(children),
        ),
        Node::IfElse { selectors, true_children, false_children } => NodeM::IfElse(
            steps_model(selectors@),
            nodes_model(true_children),
            nodes_model(false_children),
        ),
        Node::Fragment { path } => NodeM::Fragment(path@),
        Node::Block { name, children } => NodeM::Block(name@, nodes_model(children)),
    }
}

pub open spec fn list_model(v: Seq<Node>) -> Seq<NodeM>
    decreases v, 0nat,
{
    Seq::new(
        v.len(),
        |i: int|
            if 0 <= i < v.len() {
                node_model(v[i])
            } else {
                NodeM::Text(Seq::empty())
            },
    )
}

pub open spec fn blocks_model(v: Seq<(String, Nodes)>) -> Seq<(Seq<char>, NodesM)>
    decreases v, 0nat,
{
    Seq::new(
        v.len(),
        |i: int|
            if 0 <= i < v.len() {
                (v[i].0@, nodes_model(v[i].1))
            } else {
                (Seq::empty(), NodesM::Fragment(Seq::empty()))
            },
    )
}

pub open spec fn nodes_model(n: Nodes) -> NodesM
    decreases n, 0nat,
{
    match n {
        Nodes::Fragment { nodes } => NodesM::Fragment(list_model(nodes@)),
        Nodes::Document { nodes } => NodesM::Document(list_model(nodes@)),
        Nodes::FragmentSubclass { layout, blocks } => NodesM::Subclass(layout@, blocks_model(blocks@)),
    }
}

pub proof fn lemma_list_push(v: Seq<Node>, n: Node)
    ensures
        list_model(v.push(n)) == list_model(v).push(node_model(n)),
{
    assert(list_model(v.push(n)) =~= list_model(v).push(node_model(n)));
}

pub proof fn lemma_list_prepend(v: Seq<Node>, n: Node)
    ensures
        list_model(v.insert(0, n)) == seq![node_model(n)] + list_model(v),
{
    assert(list_model(v.insert(0, n)) =~= seq![node_model(n)] + list_model(v));
}

pub proof fn lemma_steps_push(v: Seq<Selector>, s: Selector)
    ensures
        steps_model(v.push(s)) == steps_model(v).push(step_model(s)),
{
    assert(steps_model(v.push(s)) =~= steps_model(v).push(step_model(s)));
}

pub proof fn lemma_pieces_push(v: Seq<AttributeValueComponent>, c: AttributeValueComponent)
    ensures
        pieces_model(v.push(c)) == pieces_model(v).push(piece_model(c)),
{
    assert(pieces_model(v.push(c)) =~= pieces_model(v).push(piece_model(c)));
}

pub proof fn lemma_attrs_push(v: Seq<Attribute>, a: Attribute)
    ensures
        attrs_model(v.push(a)) == attrs_model(v).push(attr_model(a)),
{
    assert(attrs_model(v.push(a)) =~= attrs_model(v).push(attr_model(a)));
}

} // verus!
