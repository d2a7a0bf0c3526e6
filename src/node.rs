use vstd::prelude::*;
use crate::context::Selector;
use crate::nodes::Nodes;
use crate::tag::Tag;

verus! {

/// A node of a template.
#[derive(Debug)]
pub enum Node {
    Text(String),
    Markdown(Vec<String>),
    InterpolatedText(Vec<Selector>),
    BlockValue(String),
    Element { tag: Tag, children: Nodes },
    ForLoop { index: Option<String>, local: String, selectors: Vec<Selector>, children: Nodes },
    IfElse { selectors: Vec<Selector>, true_children: Nodes, false_children: Nodes },
    Fragment { path: String },
    Block { name: String, children: Nodes },
}

/// A non-fatal error met while rendering; it names the part of the
/// template that it concerns.
#[derive(Debug)]
pub enum NodeError<'a> {
    InvalidFragmentPath(&'a String),
    InvalidBlockName(&'a String),
    JSONValueMissingAtSelector(&'a Vec<Selector>),
    JSONValueNotArrayAtSelector(&'a Vec<Selector>),
    JSONValueNotBoolAtSelector(&'a Vec<Selector>),
    /// The fragment or layout at this path was not entered: too many
    /// fragments, blocks and layouts were already entered inside one another.
    FragmentTooDeep(&'a String),
    /// The block of this name was not entered, for the same reason.
    BlockTooDeep(&'a String),
}

} // verus!
