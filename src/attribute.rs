use vstd::prelude::*;
use crate::context::Selector;

verus! {

/// An attribute written on a tag.
#[derive(Debug, PartialEq)]
pub enum Attribute {
    Id(String),
    Class(String),
    Custom(String, Vec<AttributeValueComponent>),
}

/// A piece of a custom attribute's value.
#[derive(Debug, PartialEq)]
pub enum AttributeValueComponent {
    RawValue(String),
    InterpolatedValue(Vec<Selector>),
}

} // verus!
