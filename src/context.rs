use vstd::prelude::*;
use crate::text::push_char;

verus! {

/// A JSON value as the evaluator reads it. Numbers keep their canonical
/// decimal text. An object keeps its entries in order; where a key stands
/// in more than one entry, a lookup finds the first of them (a JSON parser
/// that keeps the last one should hand over its map, whose keys are unique).
#[derive(Debug)]
pub enum Json {
    Null,
    Bool(bool),
    Number(String),
    String(String),
    Array(Vec<Json>),
    Object(Vec<(String, Json)>),
}

/// Why a context could not be had.
#[derive(Debug)]
pub enum ContextError {
    /// The text is not JSON; the message says why.
    JsonError(String),
    /// The file could not be read; the message says why.
    ContextIOError(String),
}

/// One step of a selector path.
#[derive(Debug, PartialEq)]
pub enum Selector {
    Key(String),
    Index(usize),
}

/// What a selector path finds: a JSON value of the context, or the
/// position bound by an indexed loop.
pub enum Binding<'c> {
    Value(&'c Json),
    Index(usize),
}

/// A JSON root with the loop bindings laid over it, the latest last.
pub struct Context<'c> {
    root: &'c Json,
    frames: Vec<(&'c String, Binding<'c>)>,
}

/// The entry of `entries` for `key`: the first one that has it.
pub open spec fn entry_for(entries: Seq<(String, Json)>, key: Seq<char>) -> Option<Json>
    decreases entries.len(),
{
    if entries.len() == 0 {
        None
    } else if entries[0].0@ == key {
        Some(entries[0].1)
    } else {
        entry_for(entries.drop_first(), key)
    }
}

/// The value reached from `j` by following `path`.
pub open spec fn json_at(j: Json, path: Seq<Selector>) -> Option<Json>
    decreases path.len(),
{
    if path.len() == 0 {
        Some(j)
    } else {
        match path[0] {
            Selector::Key(k) => match j {
                Json::Object(entries) => match entry_for(entries@, k@) {
                    Some(v) => json_at(v, path.drop_first()),
                    None => None,
                },
                _ => None,
            },
            Selector::Index(i) => match j {
                Json::Array(items) => if i < items.len() {
                    json_at(items@[i as int], path.drop_first())
                } else {
                    None
                },
                _ => None,
            },
        }
    }
}

/// The digit for `d`, below ten.
pub open spec fn digit_char(d: nat) -> char {
    if d == 0 {
        '0'
    } else if d == 1 {
        '1'
    } else if d == 2 {
        '2'
    } else if d == 3 {
        '3'
    } else if d == 4 {
        '4'
    } else if d == 5 {
        '5'
    } else if d == 6 {
        '6'
    } else if d == 7 {
        '7'
    } else if d == 8 {
        '8'
    } else {
        '9'
    }
}

/// The decimal digits of `n`.
pub open spec fn decimal(n: nat) -> Seq<char>
    decreases n,
{
    if n < 10 {
        seq![digit_char(n)]
    } else {
        decimal(n / 10).push(digit_char(n % 10))
    }
}

/// The text a JSON value stands for in the output.
pub open spec fn json_text(j: Json) -> Seq<char> {
    match j {
        Json::Null => Seq::empty(),
        Json::Bool(b) => if b { "true"@ } else { "false"@ },
        Json::Number(n) => n@,
        Json::String(s) => s@,
        Json::Array(_) => "array"@,
        Json::Object(_) => "object"@,
    }
}

/// What `path` finds below a binding.
pub open spec fn binding_at<'c>(b: Binding<'c>, path: Seq<Selector>) -> Option<Binding<'c>> {
    match b {
        Binding::Value(j) => match json_at(*j, path) {
            Some(v) => Some(Binding::Value(&v)),
            None => None,
        },
        Binding::Index(n) => if path.len() == 0 {
            Some(Binding::Index(n))
        } else {
            None
        },
    }
}

/// The text a binding stands for in the output.
pub open spec fn binding_text(b: Binding) -> Seq<char> {
    match b {
        Binding::Value(j) => json_text(*j),
        Binding::Index(n) => decimal(n as nat),
    }
}

/// The binding of `key` in `frames`: the latest one.
pub open spec fn frame_for<'c>(frames: Seq<(&'c String, Binding<'c>)>, key: Seq<char>) -> Option<
    Binding<'c>,
>
    decreases frames.len(),
{
    if frames.len() == 0 {
        None
    } else if frames.last().0@ == key {
        Some(frames.last().1)
    } else {
        frame_for(frames.drop_last(), key)
    }
}

/// The digit for `d`.
fn digit(d: usize) -> (r: char)
    requires
        d < 10,
    ensures
        r == digit_char(d as nat),
{
    if d == 0 {
        '0'
    } else if d == 1 {
        '1'
    } else if d == 2 {
        '2'
    } else if d == 3 {
        '3'
    } else if d == 4 {
        '4'
    } else if d == 5 {
        '5'
    } else if d == 6 {
        '6'
    } else if d == 7 {
        '7'
    } else if d == 8 {
        '8'
    } else {
        '9'
    }
}

/// Adds the decimal digits of `n` to `out`.
fn push_decimal(out: &mut String, n: usize)
    ensures
        final(out)@ == old(out)@ + decimal(n as nat),
    decreases n,
{
    let ghost start = out@;
    if n >= 10 {
        push_decimal(out, n / 10);
    }
    let ghost mid = out@;
    push_char(out, digit(n % 10));
    proof {
        if n >= 10 {
            assert(out@ =~= start + decimal(n as nat));
        } else {
            assert(n % 10 == n);
            assert(out@ =~= start + decimal(n as nat));
        }
    }
}

/// The decimal digits of `n`.
fn index_text(n: usize) -> (r: String)
    ensures
        r@ == decimal(n as nat),
{
    let mut out = String::new();
    push_decimal(&mut out, n);
    assert(out@ =~= decimal(n as nat));
    out
}

/// The contents of a context: its root and its bindings, the latest last.
pub struct Scope<'c> {
    pub root: Json,
    pub frames: Seq<(&'c String, Binding<'c>)>,
}

/// What `path` finds in `scope`: a bound name first, then the root.
pub open spec fn scope_find<'c>(scope: Scope<'c>, path: Seq<Selector>) -> Option<Binding<'c>> {
    if scope.root is Object && path.len() > 0 && path[0] is Key && frame_for(
        scope.frames,
        path[0]->Key_0@,
    ) is Some {
        binding_at(frame_for(scope.frames, path[0]->Key_0@)->Some_0, path.drop_first())
    } else {
        binding_at(Binding::Value(&scope.root), path)
    }
}

/// `scope` with `key` bound to `value` where the root is an object.
pub open spec fn scope_extend<'c>(scope: Scope<'c>, key: &'c String, value: Binding<'c>) -> Scope<
    'c,
> {
    if scope.root is Object {
        Scope { root: scope.root, frames: scope.frames.push((key, value)) }
    } else {
        scope
    }
}

impl<'c> View for Context<'c> {
    type V = Scope<'c>;

    closed spec fn view(&self) -> Scope<'c> {
        Scope { root: *self.root, frames: self.frames@ }
    }
}

impl<'c> Context<'c> {
    /// A context over `root` with nothing bound.
    pub fn new(root: &'c Json) -> (r: Context<'c>)
        ensures
            r@ == (Scope::<'c> { root: *root, frames: Seq::empty() }),
    {
        Context { root, frames: Vec::new() }
    }

    /// The value at `path`, if there is one.
    pub fn at(&self, path: &Vec<Selector>) -> (r: Option<Binding<'c>>)
        ensures
            r == scope_find(self@, path@),
    {
        if path.len() > 0 {
            if let Json::Object(_) = self.root {
                if let Selector::Key(k) = &path[0] {
                    let found = self.bound(k);
                    if let Some(b) = found {
                        assert(path@.skip(1) =~= path@.drop_first());
                        return follow(b, path, 1);
                    }
                }
            }
        }
        assert(path@.skip(0) =~= path@);
        follow(Binding::Value(self.root), path, 0)
    }

    /// The latest binding of `key`.
    fn bound(&self, key: &String) -> (r: Option<Binding<'c>>)
        ensures
            r == frame_for(self.frames@, key@),
    {
        let mut i = self.frames.len();
        assert(self.frames@.take(i as int) =~= self.frames@);
        while i > 0
            invariant
                i <= self.frames@.len(),
                frame_for(self.frames@, key@) == frame_for(self.frames@.take(i as int), key@),
            decreases i,
        {
            let ghost pre = self.frames@.take(i as int);
            assert(pre.drop_last() =~= self.frames@.take(i - 1));
            if *self.frames[i - 1].0 == *key {
                return Some(copy_binding(&self.frames[i - 1].1));
            }
            i = i - 1;
        }
        assert(self.frames@.take(0) =~= Seq::<(&'c String, Binding<'c>)>::empty());
        None
    }

    /// This context with `key` bound to `value`, where the root is an
    /// object; unchanged otherwise.
    pub fn extend(&self, key: &'c String, value: Binding<'c>) -> (r: Context<'c>)
        ensures
            r@ == scope_extend(self@, key, value),
    {
        let mut frames: Vec<(&'c String, Binding<'c>)> = Vec::new();
        let mut i: usize = 0;
        while i < self.frames.len()
            invariant
                i <= self.frames@.len(),
                frames@ == self.frames@.take(i as int),
            decreases self.frames@.len() - i,
        {
            frames.push((self.frames[i].0, copy_binding(&self.frames[i].1)));
            i = i + 1;
        }
        assert(frames@ =~= self.frames@);
        if let Json::Object(_) = self.root {
            frames.push((key, value));
        }
        Context { root: self.root, frames }
    }

    /// The text at `path`, if there is a value there.
    pub fn interpret(&self, path: &Vec<Selector>) -> (r: Option<String>)
        ensures
            r is Some <==> scope_find(self@, path@) is Some,
            r is Some ==> r->Some_0@ == binding_text(scope_find(self@, path@)->Some_0),
    {
        match self.at(path) {
            Some(b) => Some(binding_to_string(&b)),
            None => None,
        }
    }
}

fn copy_binding<'c>(b: &Binding<'c>) -> (r: Binding<'c>)
    ensures
        r == *b,
{
    match b {
        Binding::Value(j) => Binding::Value(j),
        Binding::Index(n) => Binding::Index(*n),
    }
}

/// Follows `path` from its step `from` on, starting at `b`.
fn follow<'c>(b: Binding<'c>, path: &Vec<Selector>, from: usize) -> (r: Option<Binding<'c>>)
    requires
        from <= path@.len(),
    ensures
        r == binding_at(b, path@.skip(from as int)),
{
    match b {
        Binding::Index(n) => {
            if from == path.len() {
                Some(Binding::Index(n))
            } else {
                None
            }
        },
        Binding::Value(j) => {
            assert(binding_at(b, path@.skip(from as int)) == match json_at(*j, path@.skip(from as int)) {
                Some(v) => Some(Binding::Value(&v)),
                None => None,
            });
            let mut cur: &'c Json = j;
            let mut i = from;
            while i < path.len()
                invariant
                    from <= i <= path@.len(),
                    b == Binding::<'c>::Value(j),
                    json_at(*j, path@.skip(from as int)) == json_at(*cur, path@.skip(i as int)),
                decreases path@.len() - i,
            {
                assert(path@.skip(i as int).drop_first() =~= path@.skip(i + 1));
                assert(path@.skip(i as int)[0] == path@[i as int]);
                match &path[i] {
                    Selector::Key(k) => {
                        match cur {
                            Json::Object(entries) => {
                                match entry(entries, k) {
                                    Some(v) => {
                                        cur = v;
                                    },
                                    None => {
                                        return None;
                                    },
                                }
                            },
                            _ => {
                                return None;
                            },
                        }
                    },
                    Selector::Index(n) => {
                        match cur {
                            Json::Array(items) => {
                                if *n < items.len() {
                                    cur = &items[*n];
                                } else {
                                    return None;
                                }
                            },
                            _ => {
                                return None;
                            },
                        }
                    },
                }
                i = i + 1;
            }
            assert(path@.skip(i as int).len() == 0);
            Some(Binding::Value(cur))
        },
    }
}

/// The first entry of `entries` with `key`.
fn entry<'c>(entries: &'c Vec<(String, Json)>, key: &String) -> (r: Option<&'c Json>)
    ensures
        match r {
            Some(v) => entry_for(entries@, key@) == Some(*v),
            None => entry_for(entries@, key@) is None,
        },
{
    let mut i: usize = 0;
    assert(entries@.skip(0) =~= entries@);
    while i < entries.len()
        invariant
            i <= entries@.len(),
            entry_for(entries@, key@) == entry_for(entries@.skip(i as int), key@),
        decreases entries@.len() - i,
    {
        assert(entries@.skip(i as int).drop_first() =~= entries@.skip(i + 1));
        if entries[i].0 == *key {
            return Some(&entries[i].1);
        }
        i = i + 1;
    }
    None
}

/// The text of a binding.
pub fn binding_to_string(b: &Binding) -> (r: String)
    ensures
        r@ == binding_text(*b),
{
    match b {
        Binding::Value(j) => value_to_string(j),
        Binding::Index(n) => index_text(*n),
    }
}

/// The text of a JSON value.
pub fn value_to_string(j: &Json) -> (r: String)
    ensures
        r@ == json_text(*j),
{
    match j {
        Json::Null => String::new(),
        Json::Bool(b) => if *b {
            "true".to_string()
        } else {
            "false".to_string()
        },
        Json::Number(n) => n.clone(),
        Json::String(s) => s.clone(),
        Json::Array(_) => "array".to_string(),
        Json::Object(_) => "object".to_string(),
    }
}

} // verus!
