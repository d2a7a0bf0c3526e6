use vstd::prelude::*;
use crate::model::{nodes_model, NodesM};
use crate::nodes::Nodes;
use crate::parser::{parse, source_at};

verus! {

/// Why a fragment could not be used.
#[derive(Debug)]
pub enum FragmentError {
    /// The parser stopped before the end of the fragment at this path.
    IncompleteParse(String),
}

/// Templates that others include by path, each parsed, or the reason it
/// could not be.
pub struct Fragments {
    entries: Vec<(String, Result<Nodes, FragmentError>)>,
}

/// The position of the entry for `path`: the first one that has it.
pub open spec fn fragment_index(entries: Seq<(String, Result<Nodes, FragmentError>)>, path: Seq<char>) -> Option<int>
    decreases entries.len(),
{
    if entries.len() == 0 {
        None
    } else if entries.last().0@ == path && fragment_index(entries.drop_last(), path) is None {
        Some(entries.len() - 1)
    } else {
        fragment_index(entries.drop_last(), path)
    }
}

/// The parsed template at `path`, if it parsed.
pub open spec fn fragment_at(entries: Seq<(String, Result<Nodes, FragmentError>)>, path: Seq<char>) -> Option<Nodes> {
    match fragment_index(entries, path) {
        Some(i) => match entries[i].1 {
            Ok(n) => Some(n),
            Err(_) => None,
        },
        None => None,
    }
}

pub proof fn lemma_fragment_index_bounds(entries: Seq<(String, Result<Nodes, FragmentError>)>, path: Seq<char>)
    ensures
        fragment_index(entries, path) matches Some(i) ==> 0 <= i < entries.len() && entries[i].0@ == path,
    decreases entries.len(),
{
    if entries.len() > 0 {
        lemma_fragment_index_bounds(entries.drop_last(), path);
    }
}

/// What an entry holds: its path, and the parsed template or, where the
/// parser stopped early, the path again.
pub open spec fn entry_model(e: (String, Result<Nodes, FragmentError>)) -> (Seq<char>, Result<NodesM, Seq<char>>) {
    (
        e.0@,
        match e.1 {
            Ok(n) => Ok(nodes_model(n)),
            Err(FragmentError::IncompleteParse(p)) => Err(p@),
        },
    )
}

/// What the entries of a table hold.
pub open spec fn table_model(t: Seq<(String, Result<Nodes, FragmentError>)>) -> Seq<(Seq<char>, Result<NodesM, Seq<char>>)> {
    t.map_values(|e: (String, Result<Nodes, FragmentError>)| entry_model(e))
}

/// The position of the first entry for `path` in a table's contents.
pub open spec fn model_index(t: Seq<(Seq<char>, Result<NodesM, Seq<char>>)>, path: Seq<char>) -> Option<int>
    decreases t.len(),
{
    if t.len() == 0 {
        None
    } else if t.last().0 == path && model_index(t.drop_last(), path) is None {
        Some(t.len() - 1)
    } else {
        model_index(t.drop_last(), path)
    }
}

/// A fragment's source parsed: the template where the parser reached the
/// end, else the error naming `path`.
pub open spec fn source_result(path: Seq<char>, source: Seq<char>) -> Result<NodesM, Seq<char>> {
    if source_at(source).1 == source.len() {
        Ok(source_at(source).0)
    } else {
        Err(path)
    }
}

/// `t` with the entry for `path` set to `r`, in place of an earlier one.
pub open spec fn load_one(
    t: Seq<(Seq<char>, Result<NodesM, Seq<char>>)>,
    path: Seq<char>,
    r: Result<NodesM, Seq<char>>,
) -> Seq<(Seq<char>, Result<NodesM, Seq<char>>)> {
    match model_index(t, path) {
        Some(i) => t.update(i, (path, r)),
        None => t.push((path, r)),
    }
}

/// `t` with each of `sources` parsed and set in turn.
pub open spec fn load_all(
    t: Seq<(Seq<char>, Result<NodesM, Seq<char>>)>,
    sources: Seq<(String, String)>,
) -> Seq<(Seq<char>, Result<NodesM, Seq<char>>)>
    decreases sources.len(),
{
    if sources.len() == 0 {
        t
    } else {
        let before = load_all(t, sources.drop_last());
        load_one(before, sources.last().0@, source_result(sources.last().0@, sources.last().1@))
    }
}

pub proof fn lemma_model_index(t: Seq<(String, Result<Nodes, FragmentError>)>, path: Seq<char>)
    ensures
        model_index(table_model(t), path) == fragment_index(t, path),
    decreases t.len(),
{
    if t.len() > 0 {
        lemma_model_index(t.drop_last(), path);
        assert(table_model(t).drop_last() =~= table_model(t.drop_last()));
    }
}

proof fn lemma_insert_model(
    before: Seq<(String, Result<Nodes, FragmentError>)>,
    after: Seq<(String, Result<Nodes, FragmentError>)>,
    key: String,
    value: Result<Nodes, FragmentError>,
)
    requires
        match fragment_index(before, key@) {
            Some(i) => after == before.update(i, (key, value)),
            None => after == before.push((key, value)),
        },
    ensures
        table_model(after) == load_one(table_model(before), key@, entry_model((key, value)).1),
{
    lemma_model_index(before, key@);
    lemma_fragment_index_bounds(before, key@);
    match fragment_index(before, key@) {
        Some(i) => {
            assert(table_model(after) =~= table_model(before).update(i, entry_model((key, value))));
        },
        None => {
            assert(table_model(after) =~= table_model(before).push(entry_model((key, value))));
        },
    }
}

impl View for Fragments {
    type V = Seq<(String, Result<Nodes, FragmentError>)>;

    closed spec fn view(&self) -> Self::V {
        self.entries@
    }
}

impl Fragments {
    /// A table with no fragment.
    pub fn new() -> (r: Fragments)
        ensures
            r@.len() == 0,
    {
        Fragments { entries: Vec::new() }
    }

    /// The position of the entry for `path`.
    pub fn find(&self, path: &String) -> (r: Option<usize>)
        ensures
            match r {
                Some(i) => fragment_index(self@, path@) == Some(i as int) && i < self@.len(),
                None => fragment_index(self@, path@) is None,
            },
    {
        let mut i: usize = 0;
        while i < self.entries.len()
            invariant
                i <= self.entries@.len(),
                fragment_index(self.entries@.take(i as int), path@) is None,
            decreases self.entries@.len() - i,
        {
            assert(self.entries@.take(i + 1).drop_last() =~= self.entries@.take(i as int));
            if self.entries[i].0 == *path {
                proof {
                    lemma_prefix_index(self.entries@, path@, i as int);
                }
                return Some(i);
            }
            i = i + 1;
        }
        assert(self.entries@.take(i as int) =~= self.entries@);
        None
    }

    /// Parses the source of the fragment at `path`; it is complete only
    /// where the parser reaches its end.
    pub fn parse(path: &String, input: &str) -> (r: Result<Nodes, FragmentError>)
        ensures
            match r {
                Ok(n) => source_result(path@, input@) == Ok::<NodesM, Seq<char>>(nodes_model(n)),
                Err(FragmentError::IncompleteParse(p)) => source_result(path@, input@) == Err::<NodesM, Seq<char>>(p@),
            },
    {
        let (rest, nodes) = parse(input);
        if rest.as_str().unicode_len() == 0 {
            Ok(nodes)
        } else {
            Err(FragmentError::IncompleteParse(path.clone()))
        }
    }

    /// Parses each of `sources` (a path and its text) and sets it under its
    /// path, in order.
    pub fn load(&mut self, sources: &Vec<(String, String)>)
        ensures
            table_model(final(self)@) == load_all(table_model(old(self)@), sources@),
    {
        let ghost start = table_model(self@);
        let mut i: usize = 0;
        while i < sources.len()
            invariant
                i <= sources@.len(),
                table_model(self@) == load_all(start, sources@.take(i as int)),
            decreases sources@.len() - i,
        {
            proof {
                assert(sources@.take(i + 1).drop_last() =~= sources@.take(i as int));
            }
            let key = sources[i].0.clone();
            let parsed = Fragments::parse(&sources[i].0, sources[i].1.as_str());
            let ghost before = self@;
            let ghost k = key;
            let ghost v = parsed;
            self.insert(key, parsed);
            proof {
                lemma_insert_model(before, self@, k, v);
            }
            i = i + 1;
        }
        assert(sources@.take(i as int) =~= sources@);
    }

    /// The number of entries.
    pub fn len(&self) -> (r: usize)
        ensures
            r == self@.len(),
    {
        self.entries.len()
    }

    /// The parsed template, or the reason it could not be, of entry `i`.
    pub fn at_index(&self, i: usize) -> (r: &Result<Nodes, FragmentError>)
        requires
            i < self@.len(),
        ensures
            *r == self@[i as int].1,
    {
        &self.entries[i].1
    }

    /// The parsed template at `key`; none where it is absent or did not parse.
    pub fn get(&self, key: &String) -> (r: Option<&Nodes>)
        ensures
            match r {
                Some(n) => fragment_at(self@, key@) == Some(*n),
                None => fragment_at(self@, key@) is None,
            },
    {
        match self.find(key) {
            Some(i) => match &self.entries[i].1 {
                Ok(n) => Some(n),
                Err(_) => None,
            },
            None => None,
        }
    }

    /// Sets the entry for `key`, in place of an earlier one.
    pub fn insert(&mut self, key: String, value: Result<Nodes, FragmentError>)
        ensures
            match fragment_index(old(self)@, key@) {
                Some(i) => final(self)@ == old(self)@.update(i, (key, value)),
                None => final(self)@ == old(self)@.push((key, value)),
            },
    {
        match self.find(&key) {
            Some(i) => {
                self.entries.set(i, (key, value));
            },
            None => {
                self.entries.push((key, value));
            },
        }
    }
}

/// Where the prefix of length `i` has no entry for `path` and entry `i`
/// has it, entry `i` is the one for `path`.
proof fn lemma_prefix_index(entries: Seq<(String, Result<Nodes, FragmentError>)>, path: Seq<char>, i: int)
    requires
        0 <= i < entries.len(),
        fragment_index(entries.take(i), path) is None,
        entries[i].0@ == path,
    ensures
        fragment_index(entries, path) == Some(i),
    decreases entries.len(),
{
    if entries.len() - 1 == i {
        assert(entries.drop_last() =~= entries.take(i));
    } else {
        assert(entries.drop_last().take(i) =~= entries.take(i));
        lemma_prefix_index(entries.drop_last(), path, i);
    }
}

} // verus!
