use vstd::prelude::*;
use crate::builder::Builder;
use crate::text::{flatten, texts};
use crate::context::{Context, ContextError, Json, Scope};
use crate::fragments::{load_all, table_model, Fragments};
use crate::model::nodes_model;
use crate::nodes::Nodes;
use crate::parser::{parse, source_at, ParseFailure};
use crate::render::{eval_nodes, INCLUSION_LIMIT};
use crate::styles::{style_text, SassCompileError, Styles};

verus! {

/// Why a template could not be set up.
#[derive(Debug)]
pub enum SocketError {
    ParseError(ParseFailure),
    StyleError(SassCompileError),
    ContextError(ContextError),
}

/// A parsed template with the context, the fragments and the stylesheet it
/// is rendered with.
pub struct Socket {
    nodes: Nodes,
    context: Json,
    fragments: Fragments,
    styles: Styles,
}

/// The text of `parts` one after another.
pub fn concat_parts(parts: &[String]) -> (r: String)
    ensures
        r@ == flatten(texts(parts@)),
{
    let mut out = String::new();
    let mut i: usize = 0;
    while i < parts.len()
        invariant
            i <= parts@.len(),
            out@ == flatten(texts(parts@.take(i as int))),
        decreases parts@.len() - i,
    {
        assert(texts(parts@.take(i + 1)).drop_last() =~= texts(parts@.take(i as int)));
        out.append(parts[i].as_str());
        i = i + 1;
    }
    assert(parts@.take(i as int) =~= parts@);
    out
}

/// What a template renders to with `context`, the `fragments` and the
/// stylesheet `styles`, outside of any block.
pub open spec fn rendered(
    nodes: Nodes,
    context: Json,
    fragments: Seq<(String, Result<Nodes, crate::fragments::FragmentError>)>,
    styles: Option<String>,
) -> Seq<char> {
    flatten(eval_nodes(
        nodes,
        Scope { root: context, frames: Seq::empty() },
        fragments,
        Seq::empty(),
        styles,
        INCLUSION_LIMIT as nat,
    ).0)
}

impl Socket {
    pub closed spec fn template(&self) -> Nodes {
        self.nodes
    }

    pub closed spec fn context_value(&self) -> Json {
        self.context
    }

    pub closed spec fn fragment_entries(&self) -> Seq<(String, Result<Nodes, crate::fragments::FragmentError>)> {
        self.fragments@
    }

    pub closed spec fn styles_value(&self) -> Styles {
        self.styles
    }

    /// Parses `input`, with no context, fragments or stylesheet yet.
    pub fn parse(input: &str) -> (r: Result<Socket, SocketError>)
        ensures
            r matches Ok(k) && nodes_model(k.template()) == source_at(input@).0 && k.context_value()
                == Json::Null && k.fragment_entries().len() == 0 && k.styles_value() is NotProcessed,
    {
        let (_, nodes) = parse(input);
        Ok(Socket { nodes, context: Json::Null, fragments: Fragments::new(), styles: Styles::NotProcessed })
    }

    /// Takes the context where one is given and it could be had; its error
    /// where it could not.
    pub fn with_context(&mut self, context: Option<Result<Json, ContextError>>) -> (r: Result<(), SocketError>)
        ensures
            final(self).template() == old(self).template(),
            final(self).fragment_entries() == old(self).fragment_entries(),
            final(self).styles_value() == old(self).styles_value(),
            match context {
                Some(Ok(v)) => r is Ok && final(self).context_value() == v,
                Some(Err(e)) => r == Err::<(), SocketError>(SocketError::ContextError(e))
                    && final(self).context_value() == old(self).context_value(),
                None => r is Ok && final(self).context_value() == old(self).context_value(),
            },
    {
        match context {
            Some(Ok(v)) => {
                self.context = v;
                Ok(())
            },
            Some(Err(e)) => Err(SocketError::ContextError(e)),
            None => Ok(()),
        }
    }

    /// Takes the stylesheet.
    pub fn with_styles(&mut self, styles: Styles)
        ensures
            final(self).template() == old(self).template(),
            final(self).context_value() == old(self).context_value(),
            final(self).fragment_entries() == old(self).fragment_entries(),
            final(self).styles_value() == styles,
    {
        self.styles = styles;
    }

    /// Parses each fragment source (a path and its text) and keeps it under
    /// its path.
    pub fn with_fragments(&mut self, frags: &Vec<(String, String)>)
        ensures
            final(self).template() == old(self).template(),
            final(self).context_value() == old(self).context_value(),
            final(self).styles_value() == old(self).styles_value(),
            table_model(final(self).fragment_entries()) == load_all(
                table_model(old(self).fragment_entries()),
                frags@,
            ),
    {
        self.fragments.load(frags);
    }

    /// The HTML of the template; what an error left out stays out.
    pub fn to_html(&self) -> (r: String)
        ensures
            r@ == rendered(self.template(), self.context_value(), self.fragment_entries(), style_text(self.styles_value())),
    {
        let styles = self.styles.as_option();
        let context = Context::new(&self.context);
        let blocks: Vec<(&String, &Nodes)> = Vec::new();
        assert(blocks@ =~= Seq::<(&String, &Nodes)>::empty());
        assert(context@.frames =~= Seq::<(&String, crate::context::Binding)>::empty());
        let b = self.nodes.to_html(Builder::new(), &context, &self.fragments, &blocks, &styles);
        let out = concat_parts(b.result());
        proof {
            assert(texts(Seq::<String>::empty()) =~= Seq::<Seq<char>>::empty());
        }
        out
    }
}

} // verus!
