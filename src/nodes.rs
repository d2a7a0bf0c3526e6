use vstd::prelude::*;
use crate::model::{blocks_model, lemma_list_prepend, list_model, node_model, nodes_model, NodeM, NodesM};
use crate::node::Node;

verus! {

/// A compiled template: a fragment, a document (rendered after a doctype),
/// or a template that extends a layout and overrides its blocks.
#[derive(Debug)]
pub enum Nodes {
    Fragment { nodes: Vec<Node> },
    Document { nodes: Vec<Node> },
    FragmentSubclass { layout: String, blocks: Vec<(String, Nodes)> },
}

/// `table` with `name` set to `body`: in place where it has the name,
/// else at the end.
pub open spec fn upsert(table: Seq<(Seq<char>, NodesM)>, name: Seq<char>, body: NodesM) -> Seq<(Seq<char>, NodesM)> {
    match key_index(table, name) {
        Some(i) => table.update(i, (name, body)),
        None => table.push((name, body)),
    }
}

/// The position of the first entry of `table` named `name`.
pub open spec fn key_index(table: Seq<(Seq<char>, NodesM)>, name: Seq<char>) -> Option<int>
    decreases table.len(),
{
    if table.len() == 0 {
        None
    } else if table.last().0 == name && key_index(table.drop_last(), name) is None {
        Some(table.len() - 1)
    } else {
        key_index(table.drop_last(), name)
    }
}

/// The blocks that the block nodes of `list` define, a later definition
/// of a name replacing an earlier one.
pub open spec fn block_table(list: Seq<NodeM>) -> Seq<(Seq<char>, NodesM)>
    decreases list.len(),
{
    if list.len() == 0 {
        Seq::empty()
    } else {
        match list.last() {
            NodeM::Block(name, body) => upsert(block_table(list.drop_last()), name, body),
            _ => block_table(list.drop_last()),
        }
    }
}

proof fn lemma_key_prefix(table: Seq<(Seq<char>, NodesM)>, name: Seq<char>, i: int)
    requires
        0 <= i < table.len(),
        key_index(table.take(i), name) is None,
        table[i].0 == name,
    ensures
        key_index(table, name) == Some(i),
    decreases table.len(),
{
    if table.len() - 1 == i {
        assert(table.drop_last() =~= table.take(i));
    } else {
        assert(table.drop_last().take(i) =~= table.take(i));
        lemma_key_prefix(table.drop_last(), name, i);
    }
}

proof fn lemma_key_index_bounds(table: Seq<(Seq<char>, NodesM)>, name: Seq<char>)
    ensures
        key_index(table, name) matches Some(i) ==> 0 <= i < table.len(),
    decreases table.len(),
{
    if table.len() > 0 {
        lemma_key_index_bounds(table.drop_last(), name);
    }
}

impl Nodes {
    /// Adds `node` in front of the nodes of a fragment or a document; a
    /// template that extends a layout stays as it is.
    pub fn prepend(&mut self, node: Node)
        ensures
            match nodes_model(*old(self)) {
                NodesM::Fragment(l) => nodes_model(*final(self)) == NodesM::Fragment(seq![node_model(node)] + l),
                NodesM::Document(l) => nodes_model(*final(self)) == NodesM::Document(seq![node_model(node)] + l),
                NodesM::Subclass(..) => nodes_model(*final(self)) == nodes_model(*old(self)),
            },
    {
        match self {
            Nodes::Fragment { nodes } => {
                proof {
                    lemma_list_prepend(nodes@, node);
                }
                nodes.insert(0, node);
            },
            Nodes::Document { nodes } => {
                proof {
                    lemma_list_prepend(nodes@, node);
                }
                nodes.insert(0, node);
            },
            Nodes::FragmentSubclass { .. } => {},
        }
    }

    /// A fragment of `nodes`.
    pub fn new_fragment(nodes: Vec<Node>) -> (r: Nodes)
        ensures
            nodes_model(r) == NodesM::Fragment(list_model(nodes@)),
    {
        Nodes::Fragment { nodes }
    }

    /// A document of `nodes`.
    pub fn new_document(nodes: Vec<Node>) -> (r: Nodes)
        ensures
            nodes_model(r) == NodesM::Document(list_model(nodes@)),
    {
        Nodes::Document { nodes }
    }

    /// A template that extends `layout`, overriding the blocks that the
    /// block nodes among `nodes` define; other nodes are left out.
    pub fn new_fragment_subclass(layout: String, nodes: Vec<Node>) -> (r: Nodes)
        ensures
            nodes_model(r) == NodesM::Subclass(layout@, block_table(list_model(nodes@))),
    {
        let ghost all = nodes@;
        let mut blocks: Vec<(String, Nodes)> = Vec::new();
        for node in it: nodes.into_iter()
            invariant
                it.seq() == all,
                blocks_model(blocks@) == block_table(list_model(all.take(it.index() as int))),
        {
            proof {
                assert(list_model(all.take(it.index() + 1)).drop_last() =~= list_model(all.take(it.index() as int)));
                assert(list_model(all.take(it.index() + 1)).last() == node_model(node));
            }
            if let Node::Block { name, children } = node {
                let ghost before = blocks_model(blocks@);
                let mut i: usize = 0;
                let mut found = false;
                loop
                    invariant_except_break
                        !found,
                    invariant
                        i <= blocks@.len(),
                        before == blocks_model(blocks@),
                        key_index(before.take(i as int), name@) is None,
                    ensures
                        found ==> i < blocks@.len() && before[i as int].0 == name@,
                        !found ==> i == blocks@.len(),
                        key_index(before.take(i as int), name@) is None,
                    decreases blocks@.len() - i,
                {
                    if i >= blocks.len() {
                        break;
                    }
                    assert(before.take(i + 1).drop_last() =~= before.take(i as int));
                    if blocks[i].0 == name {
                        found = true;
                        break;
                    }
                    i = i + 1;
                }
                proof {
                    lemma_key_index_bounds(before, name@);
                }
                if found {
                    proof {
                        lemma_key_prefix(before, name@, i as int);
                    }
                    let ghost entry = (name, children);
                    blocks.set(i, (name, children));
                    assert(blocks_model(blocks@) =~= before.update(i as int, (entry.0@, nodes_model(entry.1))));
                } else {
                    assert(before.take(i as int) =~= before);
                    let ghost entry = (name, children);
                    blocks.push((name, children));
                    assert(blocks_model(blocks@) =~= before.push((entry.0@, nodes_model(entry.1))));
                }
            }
        }
        assert(all.take(all.len() as int) =~= all);
        Nodes::FragmentSubclass { layout, blocks }
    }
}

} // verus!
