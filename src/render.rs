use vstd::prelude::*;
use crate::builder::Builder;
use crate::context::{binding_text, scope_extend, scope_find, Binding, Context, Json, Scope};
use crate::fragments::{fragment_index, Fragments, FragmentError};
use crate::markdown::{markdown_html, markdown_source, markdown_to_html};
use crate::node::{Node, NodeError};
use crate::nodes::Nodes;
use crate::tag::{close_tag, extra_markup, open_tag};
use crate::text::texts;

verus! {

/// How many fragments, blocks and layouts may be entered inside one another
/// while rendering. It bounds the stack that rendering uses; where it runs
/// out, the fragment or block renders nothing and an error says so.
pub const INCLUSION_LIMIT: usize = 100;

/// The rendered pieces, each one value added to the builder, and the
/// errors met on the way.
pub type Out<'a> = (Seq<Seq<char>>, Seq<NodeError<'a>>);

/// `x` followed by `y`.
pub open spec fn then<'a>(x: Out<'a>, y: Out<'a>) -> Out<'a> {
    (x.0 + y.0, x.1 + y.1)
}

/// One piece of text and no error.
pub open spec fn emit<'a>(t: Seq<char>) -> Out<'a> {
    (seq![t], Seq::empty())
}

/// No piece and no error.
pub open spec fn nothing<'a>() -> Out<'a> {
    (Seq::empty(), Seq::empty())
}

/// One error and no piece.
pub open spec fn fault<'a>(e: NodeError<'a>) -> Out<'a> {
    (Seq::empty(), seq![e])
}

/// The position of the block named `name`: the first one that has it.
pub open spec fn block_index<'a>(table: Seq<(&'a String, &'a Nodes)>, name: Seq<char>) -> Option<int>
    decreases table.len(),
{
    if table.len() == 0 {
        None
    } else if table.last().0@ == name && block_index(table.drop_last(), name) is None {
        Some(table.len() - 1)
    } else {
        block_index(table.drop_last(), name)
    }
}

/// Where the prefix of length `i` has no block `name` and entry `i` is
/// one, entry `i` is the block `name`.
proof fn lemma_block_prefix<'a>(table: Seq<(&'a String, &'a Nodes)>, name: Seq<char>, i: int)
    requires
        0 <= i < table.len(),
        block_index(table.take(i), name) is None,
        table[i].0@ == name,
    ensures
        block_index(table, name) == Some(i),
    decreases table.len(),
{
    if table.len() - 1 == i {
        assert(table.drop_last() =~= table.take(i));
    } else {
        assert(table.drop_last().take(i) =~= table.take(i));
        lemma_block_prefix(table.drop_last(), name, i);
    }
}

/// The blocks of a template that extends a layout, laid over `ambient`.
pub open spec fn overlay<'a>(overrides: Seq<(String, Nodes)>, ambient: Seq<(&'a String, &'a Nodes)>) -> Seq<(&'a String, &'a Nodes)> {
    Seq::new(overrides.len(), |i: int| (&overrides[i].0, &overrides[i].1)) + ambient
}

/// The scope of one pass of a loop: the item under `local` and, where the
/// loop has one, its position under `index`.
pub open spec fn item_scope<'a>(scope: Scope<'a>, index: Option<String>, local: String, item: Json, k: int) -> Scope<'a> {
    let with_item = scope_extend(scope, &local, Binding::Value(&item));
    match index {
        Some(name) => scope_extend(with_item, &name, Binding::Index(k as usize)),
        None => with_item,
    }
}

/// What a node renders to, where `fuel` more fragments, blocks and
/// layouts may be entered inside one another.
pub open spec fn eval_node<'a>(
    node: Node,
    scope: Scope<'a>,
    frags: Seq<(String, Result<Nodes, FragmentError>)>,
    blocks: Seq<(&'a String, &'a Nodes)>,
    styles: Option<String>,
    fuel: nat,
) -> Out<'a>
    decreases fuel, node, 0nat,
{
    match node {
        Node::Text(s) => emit(s@),
        Node::Markdown(lines) => emit(markdown_html(markdown_source(lines@))),
        Node::InterpolatedText(path) => match scope_find(scope, path@) {
            Some(b) => emit(binding_text(b)),
            None => fault(NodeError::JSONValueMissingAtSelector(&path)),
        },
        Node::BlockValue(name) => match block_index(blocks, name@) {
            Some(i) => if fuel > 0 {
                eval_nodes(*blocks[i].1, scope, frags, blocks, styles, (fuel - 1) as nat)
            } else {
                fault(NodeError::BlockTooDeep(&name))
            },
            None => fault(NodeError::InvalidBlockName(&name)),
        },
        Node::Element { tag, children } => then(
            then(
                then(
                    emit(open_tag(tag, scope)),
                    eval_nodes(children, scope, frags, blocks, styles, fuel),
                ),
                emit(extra_markup(tag.name@, styles)),
            ),
            emit(close_tag(tag.name@)),
        ),
        Node::ForLoop { index, local, selectors, children } => match scope_find(scope, selectors@) {
            Some(Binding::Value(j)) => match *j {
                Json::Array(items) => eval_loop(
                    items@,
                    index,
                    local,
                    children,
                    scope,
                    frags,
                    blocks,
                    styles,
                    fuel,
                    items.len() as nat,
                ),
                _ => fault(NodeError::JSONValueNotArrayAtSelector(&selectors)),
            },
            Some(Binding::Index(_)) => fault(NodeError::JSONValueNotArrayAtSelector(&selectors)),
            None => fault(NodeError::JSONValueMissingAtSelector(&selectors)),
        },
        Node::IfElse { selectors, true_children, false_children } => match scope_find(scope, selectors@) {
            Some(Binding::Value(j)) => match *j {
                Json::Bool(v) => if v {
                    eval_nodes(true_children, scope, frags, blocks, styles, fuel)
                } else {
                    eval_nodes(false_children, scope, frags, blocks, styles, fuel)
                },
                _ => fault(NodeError::JSONValueNotBoolAtSelector(&selectors)),
            },
            Some(Binding::Index(_)) => fault(NodeError::JSONValueNotBoolAtSelector(&selectors)),
            None => fault(NodeError::JSONValueMissingAtSelector(&selectors)),
        },
        Node::Fragment { path } => match fragment_index(frags, path@) {
            Some(i) => match frags[i].1 {
                Ok(nodes) => if fuel > 0 {
                    eval_nodes(nodes, scope, frags, blocks, styles, (fuel - 1) as nat)
                } else {
                    fault(NodeError::FragmentTooDeep(&path))
                },
                Err(_) => fault(NodeError::InvalidFragmentPath(&path)),
            },
            None => fault(NodeError::InvalidFragmentPath(&path)),
        },
        Node::Block { name, children } => match block_index(blocks, name@) {
            Some(i) => if fuel > 0 {
                eval_nodes(*blocks[i].1, scope, frags, blocks, styles, (fuel - 1) as nat)
            } else {
                fault(NodeError::BlockTooDeep(&name))
            },
            None => eval_nodes(children, scope, frags, blocks, styles, fuel),
        },
    }
}

/// What the first `n` passes of a loop over `items` render to.
pub open spec fn eval_loop<'a>(
    items: Seq<Json>,
    index: Option<String>,
    local: String,
    children: Nodes,
    scope: Scope<'a>,
    frags: Seq<(String, Result<Nodes, FragmentError>)>,
    blocks: Seq<(&'a String, &'a Nodes)>,
    styles: Option<String>,
    fuel: nat,
    n: nat,
) -> Out<'a>
    decreases fuel, children, n + 1,
{
    if n == 0 || n > items.len() {
        nothing()
    } else {
        then(
            eval_loop(items, index, local, children, scope, frags, blocks, styles, fuel, (n - 1) as nat),
            eval_nodes(
                children,
                item_scope(scope, index, local, items[n - 1], n - 1),
                frags,
                blocks,
                styles,
                fuel,
            ),
        )
    }
}

/// What the first `n` nodes of `list` render to.
pub open spec fn eval_list<'a>(
    list: Seq<Node>,
    scope: Scope<'a>,
    frags: Seq<(String, Result<Nodes, FragmentError>)>,
    blocks: Seq<(&'a String, &'a Nodes)>,
    styles: Option<String>,
    fuel: nat,
    n: nat,
) -> Out<'a>
    decreases fuel, list, n,
{
    if n == 0 || n > list.len() {
        nothing()
    } else {
        then(
            eval_list(list, scope, frags, blocks, styles, fuel, (n - 1) as nat),
            eval_node(list[n - 1], scope, frags, blocks, styles, fuel),
        )
    }
}

/// What a template renders to.
pub open spec fn eval_nodes<'a>(
    nodes: Nodes,
    scope: Scope<'a>,
    frags: Seq<(String, Result<Nodes, FragmentError>)>,
    blocks: Seq<(&'a String, &'a Nodes)>,
    styles: Option<String>,
    fuel: nat,
) -> Out<'a>
    decreases fuel, nodes, 0nat,
{
    match nodes {
        Nodes::Fragment { nodes } => eval_list(nodes@, scope, frags, blocks, styles, fuel, nodes.len() as nat),
        Nodes::Document { nodes } => then(
            emit("<!DOCTYPE html>"@),
            eval_list(nodes@, scope, frags, blocks, styles, fuel, nodes.len() as nat),
        ),
        Nodes::FragmentSubclass { layout, blocks: overrides } => match fragment_index(frags, layout@) {
            Some(i) => match frags[i].1 {
                Ok(base) => if fuel > 0 {
                    eval_nodes(
                        base,
                        scope,
                        frags,
                        overlay(overrides@, blocks),
                        styles,
                        (fuel - 1) as nat,
                    )
                } else {
                    fault(NodeError::FragmentTooDeep(&layout))
                },
                Err(_) => fault(NodeError::InvalidFragmentPath(&layout)),
            },
            None => fault(NodeError::InvalidFragmentPath(&layout)),
        },
    }
}

/// The builder `after` holds the values and errors that `before` held,
/// followed by the pieces and the errors of `out`.
pub open spec fn extended_by<'a>(
    before: (Seq<String>, Seq<NodeError<'a>>),
    after: (Seq<String>, Seq<NodeError<'a>>),
    out: Out<'a>,
) -> bool {
    texts(after.0) == texts(before.0) + out.0 && after.1 == before.1 + out.1
}

proof fn lemma_chain<'a>(
    b0: (Seq<String>, Seq<NodeError<'a>>),
    b1: (Seq<String>, Seq<NodeError<'a>>),
    b2: (Seq<String>, Seq<NodeError<'a>>),
    x: Out<'a>,
    y: Out<'a>,
)
    requires
        extended_by(b0, b1, x),
        extended_by(b1, b2, y),
    ensures
        extended_by(b0, b2, then(x, y)),
{
    assert(texts(b0.0) + x.0 + y.0 =~= texts(b0.0) + (x.0 + y.0));
    assert(b0.1 + x.1 + y.1 =~= b0.1 + (x.1 + y.1));
}

proof fn lemma_same<'a>(b0: (Seq<String>, Seq<NodeError<'a>>))
    ensures
        extended_by(b0, b0, nothing()),
{
    assert(texts(b0.0) + Seq::<Seq<char>>::empty() =~= texts(b0.0));
    assert(b0.1 + Seq::<NodeError<'a>>::empty() =~= b0.1);
}

fn put<'a>(b: &mut Builder<String, NodeError<'a>>, s: String)
    ensures
        extended_by(old(b)@, final(b)@, emit(s@)),
{
    let ghost before = b@;
    b.append(s);
    proof {
        assert(texts(b@.0) =~= texts(before.0) + seq![s@]);
        assert(before.1 + Seq::<NodeError<'a>>::empty() =~= before.1);
    }
}

fn report<'a>(b: &mut Builder<String, NodeError<'a>>, e: NodeError<'a>)
    ensures
        extended_by(old(b)@, final(b)@, fault(e)),
{
    let ghost before = b@;
    b.warn(e);
    proof {
        assert(texts(before.0) + Seq::<Seq<char>>::empty() =~= texts(before.0));
        assert(before.1 + seq![e] =~= before.1.push(e));
    }
}

/// The position of the block named `name`.
fn find_block<'a>(table: &Vec<(&'a String, &'a Nodes)>, name: &String) -> (r: Option<usize>)
    ensures
        match r {
            Some(i) => block_index(table@, name@) == Some(i as int) && i < table@.len(),
            None => block_index(table@, name@) is None,
        },
{
    let mut i: usize = 0;
    while i < table.len()
        invariant
            i <= table@.len(),
            block_index(table@.take(i as int), name@) is None,
        decreases table@.len() - i,
    {
        assert(table@.take(i + 1).drop_last() =~= table@.take(i as int));
        if *table[i].0 == *name {
            proof {
                lemma_block_prefix(table@, name@, i as int);
            }
            return Some(i);
        }
        i = i + 1;
    }
    assert(table@.take(i as int) =~= table@);
    None
}

/// The blocks of a template that extends a layout, laid over `ambient`.
fn overlay_table<'a>(overrides: &'a Vec<(String, Nodes)>, ambient: &Vec<(&'a String, &'a Nodes)>) -> (r: Vec<(&'a String, &'a Nodes)>)
    ensures
        r@ == overlay(overrides@, ambient@),
{
    let mut r: Vec<(&'a String, &'a Nodes)> = Vec::new();
    let mut i: usize = 0;
    while i < overrides.len()
        invariant
            i <= overrides@.len(),
            r@ == Seq::new(i as nat, |k: int| (&overrides@[k].0, &overrides@[k].1)),
        decreases overrides@.len() - i,
    {
        r.push((&overrides[i].0, &overrides[i].1));
        assert(r@ =~= Seq::new((i + 1) as nat, |k: int| (&overrides@[k].0, &overrides@[k].1)));
        i = i + 1;
    }
    let mut k: usize = 0;
    let ghost first = r@;
    while k < ambient.len()
        invariant
            k <= ambient@.len(),
            r@ == first + ambient@.take(k as int),
        decreases ambient@.len() - k,
    {
        r.push(ambient[k]);
        assert(r@ =~= first + ambient@.take(k + 1));
        k = k + 1;
    }
    assert(ambient@.take(k as int) =~= ambient@);
    assert(r@ =~= overlay(overrides@, ambient@));
    r
}

fn render_list<'a>(
    nodes: &'a Vec<Node>,
    b: &mut Builder<String, NodeError<'a>>,
    ctx: &Context<'a>,
    frags: &'a Fragments,
    blocks: &Vec<(&'a String, &'a Nodes)>,
    styles: &Option<String>,
    depth: usize,
)
    ensures
        extended_by(
            old(b)@,
            final(b)@,
            eval_list(nodes@, ctx@, frags@, blocks@, *styles, depth as nat, nodes@.len()),
        ),
    decreases depth, nodes@, 1nat,
{
    let ghost b0 = b@;
    proof {
        lemma_same(b0);
    }
    let mut i: usize = 0;
    while i < nodes.len()
        invariant
            i <= nodes@.len(),
            extended_by(b0, b@, eval_list(nodes@, ctx@, frags@, blocks@, *styles, depth as nat, i as nat)),
        decreases nodes@.len() - i,
    {
        let ghost b1 = b@;
        nodes[i].render(b, ctx, frags, blocks, styles, depth);
        proof {
            lemma_chain(
                b0,
                b1,
                b@,
                eval_list(nodes@, ctx@, frags@, blocks@, *styles, depth as nat, i as nat),
                eval_node(nodes@[i as int], ctx@, frags@, blocks@, *styles, depth as nat),
            );
        }
        i = i + 1;
    }
}

impl Node {
    fn render<'a>(
        &'a self,
        b: &mut Builder<String, NodeError<'a>>,
        ctx: &Context<'a>,
        frags: &'a Fragments,
        blocks: &Vec<(&'a String, &'a Nodes)>,
        styles: &Option<String>,
        depth: usize,
    )
        ensures
            extended_by(old(b)@, final(b)@, eval_node(*self, ctx@, frags@, blocks@, *styles, depth as nat)),
        decreases depth, *self, 0nat,
    {
        match self {
            Node::Text(s) => put(b, s.clone()),
            Node::Markdown(lines) => put(b, markdown_to_html(lines)),
            Node::InterpolatedText(path) => match ctx.interpret(path) {
                Some(v) => put(b, v),
                None => report(b, NodeError::JSONValueMissingAtSelector(path)),
            },
            Node::BlockValue(name) => match find_block(blocks, name) {
                Some(i) => {
                    if depth > 0 {
                        blocks[i].1.render(b, ctx, frags, blocks, styles, depth - 1);
                    } else {
                        report(b, NodeError::BlockTooDeep(name));
                    }
                },
                None => report(b, NodeError::InvalidBlockName(name)),
            },
            Node::Element { tag, children } => {
                let ghost b0 = b@;
                put(b, tag.open_tag_html(ctx));
                let ghost b1 = b@;
                children.render(b, ctx, frags, blocks, styles, depth);
                let ghost b2 = b@;
                put(b, tag.additional_markup(styles));
                let ghost b3 = b@;
                put(b, tag.close_tag_html());
                proof {
                    let o = emit(open_tag(*tag, ctx@));
                    let c = eval_nodes(*children, ctx@, frags@, blocks@, *styles, depth as nat);
                    let x = emit(extra_markup(tag.name@, *styles));
                    lemma_chain(b0, b1, b2, o, c);
                    lemma_chain(b0, b2, b3, then(o, c), x);
                    lemma_chain(b0, b3, b@, then(then(o, c), x), emit(close_tag(tag.name@)));
                }
            },
            Node::ForLoop { index, local, selectors, children } => match ctx.at(selectors) {
                Some(Binding::Value(j)) => match j {
                    Json::Array(items) => {
                        let ghost b0 = b@;
                        proof {
                            lemma_same(b0);
                        }
                        assert(decreases_to!(*self => *children));
                        let mut k: usize = 0;
                        while k < items.len()
                            invariant
                                k <= items@.len(),
                                decreases_to!(*self => *children),
                                extended_by(
                                    b0,
                                    b@,
                                    eval_loop(items@, *index, *local, *children, ctx@, frags@, blocks@, *styles, depth as nat, k as nat),
                                ),
                            decreases items@.len() - k,
                        {
                            let ghost b1 = b@;
                            let with_item = ctx.extend(local, Binding::Value(&items[k]));
                            let scope = match index {
                                Some(name) => with_item.extend(name, Binding::Index(k)),
                                None => with_item,
                            };
                            children.render(b, &scope, frags, blocks, styles, depth);
                            proof {
                                lemma_chain(
                                    b0,
                                    b1,
                                    b@,
                                    eval_loop(items@, *index, *local, *children, ctx@, frags@, blocks@, *styles, depth as nat, k as nat),
                                    eval_nodes(*children, scope@, frags@, blocks@, *styles, depth as nat),
                                );
                            }
                            k = k + 1;
                        }
                    },
                    _ => report(b, NodeError::JSONValueNotArrayAtSelector(selectors)),
                },
                Some(Binding::Index(_)) => report(b, NodeError::JSONValueNotArrayAtSelector(selectors)),
                None => report(b, NodeError::JSONValueMissingAtSelector(selectors)),
            },
            Node::IfElse { selectors, true_children, false_children } => match ctx.at(selectors) {
                Some(Binding::Value(j)) => match j {
                    Json::Bool(v) => {
                        if *v {
                            true_children.render(b, ctx, frags, blocks, styles, depth);
                        } else {
                            false_children.render(b, ctx, frags, blocks, styles, depth);
                        }
                    },
                    _ => report(b, NodeError::JSONValueNotBoolAtSelector(selectors)),
                },
                Some(Binding::Index(_)) => report(b, NodeError::JSONValueNotBoolAtSelector(selectors)),
                None => report(b, NodeError::JSONValueMissingAtSelector(selectors)),
            },
            Node::Fragment { path } => match frags.find(path) {
                Some(i) => match frags.at_index(i) {
                    Ok(nodes) => {
                        if depth > 0 {
                            nodes.render(b, ctx, frags, blocks, styles, depth - 1);
                        } else {
                            report(b, NodeError::FragmentTooDeep(path));
                        }
                    },
                    Err(_) => report(b, NodeError::InvalidFragmentPath(path)),
                },
                None => report(b, NodeError::InvalidFragmentPath(path)),
            },
            Node::Block { name, children } => match find_block(blocks, name) {
                Some(i) => {
                    if depth > 0 {
                        blocks[i].1.render(b, ctx, frags, blocks, styles, depth - 1);
                    } else {
                        report(b, NodeError::BlockTooDeep(name));
                    }
                },
                None => children.render(b, ctx, frags, blocks, styles, depth),
            },
        }
    }

    /// Renders this node into `builder`: its text is added to the values
    /// and the errors met to the errors.
    pub fn to_html<'a>(
        &'a self,
        builder: Builder<String, NodeError<'a>>,
        context: &Context<'a>,
        fragments: &'a Fragments,
        blocks: &Vec<(&'a String, &'a Nodes)>,
        styles: &Option<String>,
    ) -> (r: Builder<String, NodeError<'a>>)
        ensures
            extended_by(
                builder@,
                r@,
                eval_node(*self, context@, fragments@, blocks@, *styles, INCLUSION_LIMIT as nat),
            ),
    {
        self.to_html_within(builder, context, fragments, blocks, styles, INCLUSION_LIMIT)
    }

    /// Renders this node into `builder` as `to_html` does, with `depth`
    /// fragments, blocks and layouts entered inside one another at most.
    pub fn to_html_within<'a>(
        &'a self,
        builder: Builder<String, NodeError<'a>>,
        context: &Context<'a>,
        fragments: &'a Fragments,
        blocks: &Vec<(&'a String, &'a Nodes)>,
        styles: &Option<String>,
        depth: usize,
    ) -> (r: Builder<String, NodeError<'a>>)
        ensures
            extended_by(builder@, r@, eval_node(*self, context@, fragments@, blocks@, *styles, depth as nat)),
    {
        let mut b = builder;
        self.render(&mut b, context, fragments, blocks, styles, depth);
        b
    }
}

impl Nodes {
    fn render<'a>(
        &'a self,
        b: &mut Builder<String, NodeError<'a>>,
        ctx: &Context<'a>,
        frags: &'a Fragments,
        blocks: &Vec<(&'a String, &'a Nodes)>,
        styles: &Option<String>,
        depth: usize,
    )
        ensures
            extended_by(old(b)@, final(b)@, eval_nodes(*self, ctx@, frags@, blocks@, *styles, depth as nat)),
        decreases depth, *self, 0nat,
    {
        match self {
            Nodes::Fragment { nodes } => render_list(nodes, b, ctx, frags, blocks, styles, depth),
            Nodes::Document { nodes } => {
                let ghost b0 = b@;
                put(b, "<!DOCTYPE html>".to_string());
                let ghost b1 = b@;
                render_list(nodes, b, ctx, frags, blocks, styles, depth);
                proof {
                    lemma_chain(
                        b0,
                        b1,
                        b@,
                        emit("<!DOCTYPE html>"@),
                        eval_list(nodes@, ctx@, frags@, blocks@, *styles, depth as nat, nodes@.len()),
                    );
                }
            },
            Nodes::FragmentSubclass { layout, blocks: overrides } => match frags.find(layout) {
                Some(i) => match frags.at_index(i) {
                    Ok(base) => {
                        if depth > 0 {
                            let table = overlay_table(overrides, blocks);
                            base.render(b, ctx, frags, &table, styles, depth - 1);
                        } else {
                            report(b, NodeError::FragmentTooDeep(layout));
                        }
                    },
                    Err(_) => report(b, NodeError::InvalidFragmentPath(layout)),
                },
                None => report(b, NodeError::InvalidFragmentPath(layout)),
            },
        }
    }

    /// Renders this template into `builder`: its text is added to the
    /// values and the errors met to the errors.
    pub fn to_html<'a>(
        &'a self,
        builder: Builder<String, NodeError<'a>>,
        context: &Context<'a>,
        fragments: &'a Fragments,
        blocks: &Vec<(&'a String, &'a Nodes)>,
        styles: &Option<String>,
    ) -> (r: Builder<String, NodeError<'a>>)
        ensures
            extended_by(
                builder@,
                r@,
                eval_nodes(*self, context@, fragments@, blocks@, *styles, INCLUSION_LIMIT as nat),
            ),
    {
        self.to_html_within(builder, context, fragments, blocks, styles, INCLUSION_LIMIT)
    }

    /// Renders this template into `builder` as `to_html` does, with `depth`
    /// fragments, blocks and layouts entered inside one another at most.
    pub fn to_html_within<'a>(
        &'a self,
        builder: Builder<String, NodeError<'a>>,
        context: &Context<'a>,
        fragments: &'a Fragments,
        blocks: &Vec<(&'a String, &'a Nodes)>,
        styles: &Option<String>,
        depth: usize,
    ) -> (r: Builder<String, NodeError<'a>>)
        ensures
            extended_by(builder@, r@, eval_nodes(*self, context@, fragments@, blocks@, *styles, depth as nat)),
    {
        let mut b = builder;
        self.render(&mut b, context, fragments, blocks, styles, depth);
        b
    }
}

} // verus!
