pub mod attribute;
pub mod attributes;
pub mod builder;
pub mod context;
pub mod determinism;
pub mod flags;
pub mod fragments;
pub mod laws;
pub mod markdown;
pub mod model;
pub mod node;
pub mod nodes;
pub mod parser;
pub mod render;
pub mod roundtrip;
pub mod socket;
pub mod styles;
pub mod tag;
pub mod text;

pub use crate::attribute::{Attribute, AttributeValueComponent};
pub use crate::attributes::Attributes;
pub use crate::builder::Builder;
pub use crate::context::{Binding, Context, ContextError, Json, Selector};
pub use crate::flags::Flags;
pub use crate::fragments::{FragmentError, Fragments};
pub use crate::node::{Node, NodeError};
pub use crate::nodes::Nodes;
pub use crate::render::INCLUSION_LIMIT;
pub use crate::socket::{concat_parts, Socket, SocketError};
pub use crate::styles::{SassCompileError, Styles};
pub use crate::tag::Tag;
