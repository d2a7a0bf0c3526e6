use vstd::prelude::*;
use crate::attribute::Attribute;
use crate::attributes::{
    class_names, custom_pairs, custom_texts, first_id, quoted, rendered_attributes, value_text,
};
use crate::context::{Json, Scope};
use crate::determinism::lemma_nodes_text;
use crate::fragments::{table_model, FragmentError};
use crate::model::nodes_model;
use crate::node::Node;
use crate::nodes::Nodes;
use crate::parser::{html_header_at, source_at};
use crate::parser::scan::{lit_at, span, CharKind};
use crate::node::NodeError;
use crate::render::{eval_list, eval_node, Out, INCLUSION_LIMIT};
use crate::socket::rendered;
use crate::text::{flatten, join_with};

verus! {

/// Rendering a parsed source is a function of the inputs: two templates
/// parsed from the same source, rendered with the same context, the same
/// stylesheet and fragment tables of the same contents, give the same text.
pub proof fn lemma_determinism(
    source: Seq<char>,
    n1: Nodes,
    n2: Nodes,
    context: Json,
    f1: Seq<(String, Result<Nodes, FragmentError>)>,
    f2: Seq<(String, Result<Nodes, FragmentError>)>,
    styles: Option<String>,
)
    requires
        nodes_model(n1) == source_at(source).0,
        nodes_model(n2) == source_at(source).0,
        table_model(f1) == table_model(f2),
    ensures
        rendered(n1, context, f1, styles) == rendered(n2, context, f2, styles),
{
    let scope = Scope { root: context, frames: Seq::empty() };
    assert(f1.len() == table_model(f1).len());
    assert(f2.len() == table_model(f2).len());
    lemma_nodes_text(
        n1,
        n2,
        scope,
        scope,
        f1,
        f2,
        Seq::empty(),
        Seq::empty(),
        styles,
        INCLUSION_LIMIT as nat,
    );
}

proof fn lemma_custom_texts(
    pairs: Seq<(Seq<char>, Seq<crate::attribute::AttributeValueComponent>)>,
    scope: Scope,
)
    ensures
        custom_texts(pairs, scope).len() == pairs.len(),
        forall|i: int|
            0 <= i < pairs.len() ==> #[trigger] custom_texts(pairs, scope)[i] == quoted(
                pairs[i].0,
                value_text(pairs[i].1, scope),
            ),
    decreases pairs.len(),
{
    if pairs.len() > 0 {
        lemma_custom_texts(pairs.drop_last(), scope);
        assert forall|i: int| 0 <= i < pairs.len() implies #[trigger] custom_texts(pairs, scope)[i]
            == quoted(pairs[i].0, value_text(pairs[i].1, scope)) by {
            if i < pairs.len() - 1 {
                assert(pairs.drop_last()[i] == pairs[i]);
            }
        }
    }
}

/// In an open tag the id attribute comes first (where there is one), then
/// the class attribute with the classes in source order (where there are
/// any), then each custom attribute in source order.
pub proof fn lemma_attribute_order(attrs: Seq<Attribute>, scope: Scope)
    ensures
        ({
            let r = rendered_attributes(attrs, scope);
            let ids: int = if first_id(attrs) is Some {
                1
            } else {
                0
            };
            let k: int = ids + if class_names(attrs).len() > 0 {
                1int
            } else {
                0int
            };
            &&& r.len() == k + custom_pairs(attrs).len()
            &&& first_id(attrs) is Some ==> r[0] == quoted("id"@, first_id(attrs)->Some_0)
            &&& class_names(attrs).len() > 0 ==> r[ids] == quoted(
                "class"@,
                join_with(class_names(attrs), " "@),
            )
            &&& forall|i: int|
                0 <= i < custom_pairs(attrs).len() ==> r[k + i] == quoted(
                    custom_pairs(attrs)[i].0,
                    value_text(custom_pairs(attrs)[i].1, scope),
                )
        }),
{
    lemma_custom_texts(custom_pairs(attrs), scope);
}

/// A source parses to a document exactly when its first line is `!HTML`,
/// with custom attributes or without; otherwise to a fragment, or to a
/// template that extends a layout, which only a source whose first line
/// that is not blank starts with `- extends ` does.
pub proof fn lemma_doctype(s: Seq<char>)
    ensures
        source_at(s).0 is Document <==> html_header_at(s) is Some,
        html_header_at(s) is Some ==> lit_at(s, 0, "!HTML"@),
        html_header_at(s) is None ==> (source_at(s).0 is Fragment || source_at(s).0 is Subclass),
        source_at(s).0 is Subclass ==> lit_at(s, span(s, 0, CharKind::Newline), "- extends "@),
{
}

/// What each node of `list` renders to, alone.
pub open spec fn node_outputs<'a>(
    list: Seq<Node>,
    scope: Scope<'a>,
    frags: Seq<(String, Result<Nodes, FragmentError>)>,
    blocks: Seq<(&'a String, &'a Nodes)>,
    styles: Option<String>,
    fuel: nat,
) -> Seq<Out<'a>> {
    Seq::new(list.len(), |k: int| eval_node(list[k], scope, frags, blocks, styles, fuel))
}

/// The pieces of each output.
pub open spec fn pieces_of<'a>(outs: Seq<Out<'a>>) -> Seq<Seq<Seq<char>>> {
    outs.map_values(|o: Out<'a>| o.0)
}

/// The errors of each output.
pub open spec fn errors_of<'a>(outs: Seq<Out<'a>>) -> Seq<Seq<NodeError<'a>>> {
    outs.map_values(|o: Out<'a>| o.1)
}

/// `s` with its entries `i` and `j` exchanged.
pub open spec fn swapped<A>(s: Seq<A>, i: int, j: int) -> Seq<A> {
    s.update(i, s[j]).update(j, s[i])
}

proof fn lemma_list_outputs<'a>(
    list: Seq<Node>,
    scope: Scope<'a>,
    frags: Seq<(String, Result<Nodes, FragmentError>)>,
    blocks: Seq<(&'a String, &'a Nodes)>,
    styles: Option<String>,
    fuel: nat,
    n: nat,
)
    requires
        n <= list.len(),
    ensures
        ({
            let outs = node_outputs(list, scope, frags, blocks, styles, fuel);
            &&& eval_list(list, scope, frags, blocks, styles, fuel, n).0 == flatten(
                pieces_of(outs).take(n as int),
            )
            &&& eval_list(list, scope, frags, blocks, styles, fuel, n).1 == flatten(
                errors_of(outs).take(n as int),
            )
        }),
    decreases n,
{
    let outs = node_outputs(list, scope, frags, blocks, styles, fuel);
    if n > 0 {
        lemma_list_outputs(list, scope, frags, blocks, styles, fuel, (n - 1) as nat);
        assert(pieces_of(outs).take(n as int).drop_last() =~= pieces_of(outs).take(n - 1));
        assert(errors_of(outs).take(n as int).drop_last() =~= errors_of(outs).take(n - 1));
    } else {
        assert(pieces_of(outs).take(0) =~= Seq::<Seq<Seq<char>>>::empty());
        assert(errors_of(outs).take(0) =~= Seq::<Seq<NodeError<'a>>>::empty());
    }
}

/// A list of nodes renders to what each of its nodes renders to, in order;
/// so exchanging two sibling nodes exchanges their pieces and their errors
/// and leaves the rest of the output as it was.
pub proof fn lemma_sibling_order<'a>(
    list: Seq<Node>,
    i: int,
    j: int,
    scope: Scope<'a>,
    frags: Seq<(String, Result<Nodes, FragmentError>)>,
    blocks: Seq<(&'a String, &'a Nodes)>,
    styles: Option<String>,
    fuel: nat,
)
    requires
        0 <= i < list.len(),
        0 <= j < list.len(),
    ensures
        ({
            let outs = node_outputs(list, scope, frags, blocks, styles, fuel);
            let other = eval_list(swapped(list, i, j), scope, frags, blocks, styles, fuel, list.len());
            &&& eval_list(list, scope, frags, blocks, styles, fuel, list.len()).0 == flatten(pieces_of(outs))
            &&& eval_list(list, scope, frags, blocks, styles, fuel, list.len()).1 == flatten(errors_of(outs))
            &&& other.0 == flatten(swapped(pieces_of(outs), i, j))
            &&& other.1 == flatten(swapped(errors_of(outs), i, j))
        }),
{
    let outs = node_outputs(list, scope, frags, blocks, styles, fuel);
    let other = swapped(list, i, j);
    let other_outs = node_outputs(other, scope, frags, blocks, styles, fuel);
    lemma_list_outputs(list, scope, frags, blocks, styles, fuel, list.len());
    lemma_list_outputs(other, scope, frags, blocks, styles, fuel, list.len());
    assert(pieces_of(outs).take(list.len() as int) =~= pieces_of(outs));
    assert(errors_of(outs).take(list.len() as int) =~= errors_of(outs));
    assert(pieces_of(other_outs).take(list.len() as int) =~= pieces_of(other_outs));
    assert(errors_of(other_outs).take(list.len() as int) =~= errors_of(other_outs));
    assert(pieces_of(other_outs) =~= swapped(pieces_of(outs), i, j));
    assert(errors_of(other_outs) =~= swapped(errors_of(outs), i, j));
}

} // verus!
