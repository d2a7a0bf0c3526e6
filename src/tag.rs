use vstd::prelude::*;
use crate::attribute::Attribute;
use crate::attributes::{rendered_attributes, Attributes};
use crate::context::{Context, Scope};
use crate::text::{concat, join, join_with};

verus! {

/// An element's name and the attributes written on it.
#[derive(Debug)]
pub struct Tag {
    pub name: String,
    pub attributes: Vec<Attribute>,
}

/// The open tag of `tag` in `scope`.
pub open spec fn open_tag(tag: Tag, scope: Scope) -> Seq<char> {
    let parts = rendered_attributes(tag.attributes@, scope);
    if parts.len() == 0 {
        "<"@ + tag.name@ + ">"@
    } else {
        "<"@ + tag.name@ + " "@ + join_with(parts, " "@) + ">"@
    }
}

/// The close tag for `name`.
pub open spec fn close_tag(name: Seq<char>) -> Seq<char> {
    "</"@ + name + ">"@
}

/// What follows the children of an element named `name`: the stylesheet,
/// for a `head` when there is one that is not empty.
pub open spec fn extra_markup(name: Seq<char>, styles: Option<String>) -> Seq<char> {
    match styles {
        Some(css) => if name == "head"@ && css@.len() > 0 {
            "<style>\n"@ + css@ + "</style>"@
        } else {
            Seq::empty()
        },
        None => Seq::empty(),
    }
}

impl Tag {
    /// `<name>`, or `<name a="..." b="...">` with the attributes in output order.
    pub fn open_tag_html(&self, context: &Context) -> (r: String)
        ensures
            r@ == open_tag(*self, context@),
    {
        let attributes = Attributes::new(&self.attributes);
        let parts = attributes.to_html(context);
        let start = concat("<", self.name.as_str());
        if parts.len() == 0 {
            concat(start.as_str(), ">")
        } else {
            let spaced = concat(start.as_str(), " ");
            let joined = join(&parts, " ");
            let body = concat(spaced.as_str(), joined.as_str());
            concat(body.as_str(), ">")
        }
    }

    /// `</name>`.
    pub fn close_tag_html(&self) -> (r: String)
        ensures
            r@ == close_tag(self.name@),
    {
        let start = concat("</", self.name.as_str());
        concat(start.as_str(), ">")
    }

    /// The stylesheet block for a `head` element, else nothing.
    pub fn additional_markup(&self, styles: &Option<String>) -> (r: String)
        ensures
            r@ == extra_markup(self.name@, *styles),
    {
        let head = "head".to_string();
        match styles {
            Some(css) => {
                if self.name == head && css.as_str().unicode_len() > 0 {
                    let start = concat("<style>\n", css.as_str());
                    concat(start.as_str(), "</style>")
                } else {
                    String::new()
                }
            },
            None => String::new(),
        }
    }
}

} // verus!
