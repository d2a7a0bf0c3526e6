use vstd::prelude::*;

pub mod scan;
pub mod selector;
pub mod custom_attributes;
pub mod tag;

use crate::attribute::Attribute;
use crate::context::Selector;
use crate::nodes::block_table;
use crate::parser::custom_attributes::{customs, customs_at};
use crate::tag::Tag;
use crate::text::chars_of;
use crate::model::{attrs_model, lemma_list_push, lines_model, list_model, node_model, nodes_model, steps_model, AttrM, NodeM, NodesM, StepM, TagM};
use crate::node::Node;
use crate::nodes::Nodes;
use crate::parser::scan::{lit_at, looking_at, span, span_of, text_of, CharKind};
use crate::parser::selector::{selectors, selectors_at};
use crate::parser::tag::{tag, tag_at};

verus! {

/// The grammar rule that did not match.
#[derive(Debug, PartialEq, Eq, Structural, Clone, Copy)]
pub enum Rule {
    Selector,
    Tag,
    CustomAttributes,
    QuotedValue,
    UnquotedValue,
    ClassName,
}

/// Where the input did not match, and the rule that was expected there.
#[derive(Debug, PartialEq, Eq, Structural, Clone, Copy)]
pub struct ParseFailure {
    pub position: usize,
    pub rule: Rule,
}


/// The end of the line that `p` is on.
pub open spec fn line_end(s: Seq<char>, p: int) -> int {
    span(s, p, CharKind::NotNewline)
}

/// Whether `d` levels of indentation (two spaces each) stand at `p`.
pub open spec fn indent_at(s: Seq<char>, p: int, d: int) -> bool {
    0 <= p && p + 2 * d <= s.len() && forall|i: int| p <= i < p + 2 * d ==> s[i] == ' '
}

/// A line of text at `p`.
pub open spec fn text_at(s: Seq<char>, p: int) -> (NodeM, int) {
    (NodeM::Text(s.subrange(p, line_end(s, p))), line_end(s, p))
}

/// A line of a markdown block at depth `d`: its text without the indentation.
pub open spec fn markdown_line_at(s: Seq<char>, p: int, d: int) -> Option<(Seq<char>, int)> {
    if indent_at(s, p, d) {
        Some((s.subrange(p + 2 * d, line_end(s, p + 2 * d)), line_end(s, p + 2 * d)))
    } else {
        None
    }
}

/// The further lines of a markdown block, each after one or more newlines.
pub open spec fn markdown_rest(s: Seq<char>, p: int, d: int) -> (Seq<Seq<char>>, int)
    decreases s.len() - p,
{
    let n = span(s, p, CharKind::Newline);
    if n > p {
        match markdown_line_at(s, n, d) {
            Some((l, e)) => if p < e <= s.len() {
                let rest = markdown_rest(s, e, d);
                (seq![l] + rest.0, rest.1)
            } else {
                (Seq::empty(), p)
            },
            None => (Seq::empty(), p),
        }
    } else {
        (Seq::empty(), p)
    }
}

/// `:markdown` at `p`, then its lines at depth `d + 1`.
pub open spec fn markdown_at(s: Seq<char>, p: int, d: int) -> Option<(NodeM, int)> {
    if lit_at(s, p, ":markdown"@) {
        let a = p + ":markdown"@.len();
        let n = span(s, a, CharKind::Newline);
        if n > a {
            match markdown_line_at(s, n, d + 1) {
                Some((l, e)) => {
                    let rest = markdown_rest(s, e, d + 1);
                    Some((NodeM::Markdown(seq![l] + rest.0), rest.1))
                },
                None => None,
            }
        } else {
            None
        }
    } else {
        None
    }
}

/// `- for index, local in selector` at `p`, then the body at depth `d + 1`.
pub open spec fn for_index_at(s: Seq<char>, p: int, d: int) -> Option<(NodeM, int)>
    decreases s.len() - p, 1nat,
{
    if lit_at(s, p, "- for "@) {
        let a = p + "- for "@.len();
        let n1 = span(s, a, CharKind::Alnum);
        if lit_at(s, n1, ", "@) {
            let b = n1 + ", "@.len();
            let n2 = span(s, b, CharKind::Alnum);
            if lit_at(s, n2, " in "@) {
                match selectors_at(s, n2 + " in "@.len()) {
                    Some((sel, e)) => if 0 <= e < s.len() && s[e] == '\n' && p < e + 1 {
                        let body = list_at(s, e + 1, d + 1);
                        Some((NodeM::ForLoop(Some(s.subrange(a, n1)), s.subrange(b, n2), sel, NodesM::Fragment(body.0)), body.1))
                    } else {
                        None
                    },
                    None => None,
                }
            } else {
                None
            }
        } else {
            None
        }
    } else {
        None
    }
}

/// `- for local in selector` at `p`, then the body at depth `d + 1`.
pub open spec fn for_at(s: Seq<char>, p: int, d: int) -> Option<(NodeM, int)>
    decreases s.len() - p, 1nat,
{
    if lit_at(s, p, "- for "@) {
        let a = p + "- for "@.len();
        let n = span(s, a, CharKind::Alnum);
        if lit_at(s, n, " in "@) {
            match selectors_at(s, n + " in "@.len()) {
                Some((sel, e)) => if 0 <= e < s.len() && s[e] == '\n' && p < e + 1 {
                    let body = list_at(s, e + 1, d + 1);
                    Some((NodeM::ForLoop(None, s.subrange(a, n), sel, NodesM::Fragment(body.0)), body.1))
                } else {
                    None
                },
                None => None,
            }
        } else {
            None
        }
    } else {
        None
    }
}

/// `- if selector` at `p` and its newline: the selector and where the
/// body starts.
pub open spec fn if_head_at(s: Seq<char>, p: int) -> Option<(Seq<StepM>, int)> {
    if lit_at(s, p, "- if "@) {
        match selectors_at(s, p + "- if "@.len()) {
            Some((sel, e)) => if 0 <= e < s.len() && s[e] == '\n' {
                Some((sel, e + 1))
            } else {
                None
            },
            None => None,
        }
    } else {
        None
    }
}

/// Where `- else` and its newline end, after one or more newlines and the
/// indentation of depth `d` at `p`.
pub open spec fn else_at(s: Seq<char>, p: int, d: int) -> Option<int> {
    let n = span(s, p, CharKind::Newline);
    if n > p && indent_at(s, n, d) && lit_at(s, n + 2 * d, "- else"@) {
        let e = n + 2 * d + "- else"@.len();
        if 0 <= e < s.len() && s[e] == '\n' {
            Some(e + 1)
        } else {
            None
        }
    } else {
        None
    }
}

/// `- if` with its body and an `- else` with its own, at `p`.
pub open spec fn if_else_at(s: Seq<char>, p: int, d: int) -> Option<(NodeM, int)>
    decreases s.len() - p, 1nat,
{
    match if_head_at(s, p) {
        Some((sel, b)) => if p < b <= s.len() {
            let yes = list_at(s, b, d + 1);
            match else_at(s, yes.1, d) {
                Some(f) => if p < f <= s.len() {
                    let no = list_at(s, f, d + 1);
                    Some((NodeM::IfElse(sel, NodesM::Fragment(yes.0), NodesM::Fragment(no.0)), no.1))
                } else {
                    None
                },
                None => None,
            }
        } else {
            None
        },
        None => None,
    }
}

/// `- if` with its body and no `- else`, at `p`.
pub open spec fn if_at(s: Seq<char>, p: int, d: int) -> Option<(NodeM, int)>
    decreases s.len() - p, 1nat,
{
    match if_head_at(s, p) {
        Some((sel, b)) => if p < b <= s.len() {
            let yes = list_at(s, b, d + 1);
            Some((NodeM::IfElse(sel, NodesM::Fragment(yes.0), NodesM::Fragment(Seq::empty())), yes.1))
        } else {
            None
        },
        None => None,
    }
}

/// `- block name` at `p`, then its default body at depth `d + 1`.
pub open spec fn block_at(s: Seq<char>, p: int, d: int) -> Option<(NodeM, int)>
    decreases s.len() - p, 1nat,
{
    if lit_at(s, p, "- block "@) {
        let a = p + "- block "@.len();
        let e = line_end(s, a);
        if p < e <= s.len() {
            let body = list_at(s, e, d + 1);
            Some((NodeM::Block(s.subrange(a, e), NodesM::Fragment(body.0)), body.1))
        } else {
            None
        }
    } else {
        None
    }
}

/// `- fragment path` at `p`.
pub open spec fn fragment_at(s: Seq<char>, p: int) -> Option<(NodeM, int)> {
    if lit_at(s, p, "- fragment "@) {
        let a = p + "- fragment "@.len();
        Some((NodeM::Fragment(s.subrange(a, line_end(s, a))), line_end(s, a)))
    } else {
        None
    }
}

/// A tag, a space and a line of text at `p`, then the children.
pub open spec fn with_text_at(s: Seq<char>, p: int, d: int) -> Option<(NodeM, int)>
    decreases s.len() - p, 1nat,
{
    match tag_at(s, p) {
        Some((t, e)) => if 0 <= e < s.len() && s[e] == ' ' && p < line_end(s, e + 1) <= s.len() {
            let l = line_end(s, e + 1);
            let body = list_at(s, l, d + 1);
            Some((NodeM::Element(t, NodesM::Fragment(seq![NodeM::Text(s.subrange(e + 1, l))] + body.0)), body.1))
        } else {
            None
        },
        None => None,
    }
}

/// What follows `= ` after a tag: `block name` or a selector.
pub open spec fn value_node_at(s: Seq<char>, p: int) -> Option<(NodeM, int)> {
    if lit_at(s, p, "block "@) {
        let a = p + "block "@.len();
        Some((NodeM::BlockValue(s.subrange(a, line_end(s, a))), line_end(s, a)))
    } else {
        match selectors_at(s, p) {
            Some((sel, e)) => Some((NodeM::InterpolatedText(sel), e)),
            None => None,
        }
    }
}

/// A tag, `= ` and a value at `p`, then the children.
pub open spec fn with_value_at(s: Seq<char>, p: int, d: int) -> Option<(NodeM, int)>
    decreases s.len() - p, 1nat,
{
    match tag_at(s, p) {
        Some((t, e)) => if lit_at(s, e, "= "@) {
            match value_node_at(s, e + "= "@.len()) {
                Some((v, c)) => if p < c <= s.len() {
                    let body = list_at(s, c, d + 1);
                    Some((NodeM::Element(t, NodesM::Fragment(seq![v] + body.0)), body.1))
                } else {
                    None
                },
                None => None,
            }
        } else {
            None
        },
        None => None,
    }
}

/// A tag alone at `p`, then the children.
pub open spec fn bare_tag_at(s: Seq<char>, p: int, d: int) -> Option<(NodeM, int)>
    decreases s.len() - p, 1nat,
{
    match tag_at(s, p) {
        Some((t, e)) => if p < e <= s.len() {
            let body = list_at(s, e, d + 1);
            Some((NodeM::Element(t, NodesM::Fragment(body.0)), body.1))
        } else {
            None
        },
        None => None,
    }
}

/// A node at depth `d` at `p`: the indentation, then the first of the
/// forms that matches, in a fixed order; a line of text matches last.
pub open spec fn node_at(s: Seq<char>, p: int, d: int) -> Option<(NodeM, int)>
    decreases s.len() - p, 2nat,
{
    if indent_at(s, p, d) && d >= 0 {
        let q = p + 2 * d;
        let m = markdown_at(s, q, d);
        let fi = for_index_at(s, q, d);
        let f = for_at(s, q, d);
        let ie = if_else_at(s, q, d);
        let i = if_at(s, q, d);
        let b = block_at(s, q, d);
        let fr = fragment_at(s, q);
        let wt = with_text_at(s, q, d);
        let wv = with_value_at(s, q, d);
        let bt = bare_tag_at(s, q, d);
        if m is Some {
            m
        } else if fi is Some {
            fi
        } else if f is Some {
            f
        } else if ie is Some {
            ie
        } else if i is Some {
            i
        } else if b is Some {
            b
        } else if fr is Some {
            fr
        } else if wt is Some {
            wt
        } else if wv is Some {
            wv
        } else if bt is Some {
            bt
        } else {
            Some(text_at(s, q))
        }
    } else {
        None
    }
}

/// The further nodes at depth `d`, each after a newline (and any blank
/// lines), and where they end.
pub open spec fn list_rest(s: Seq<char>, p: int, d: int) -> (Seq<NodeM>, int)
    decreases s.len() - p, 1nat,
{
    if 0 <= p < s.len() && s[p] == '\n' {
        let n = span(s, p + 1, CharKind::Newline);
        if p < n <= s.len() {
            match node_at(s, n, d) {
                Some((x, e)) => if p < e <= s.len() {
                    let rest = list_rest(s, e, d);
                    (seq![x] + rest.0, rest.1)
                } else {
                    (Seq::empty(), p)
                },
                None => (Seq::empty(), p),
            }
        } else {
            (Seq::empty(), p)
        }
    } else {
        (Seq::empty(), p)
    }
}

/// The nodes at depth `d` from `p` on, and where they end.
pub open spec fn list_at(s: Seq<char>, p: int, d: int) -> (Seq<NodeM>, int)
    decreases s.len() - p, 3nat,
{
    let n = span(s, p, CharKind::Newline);
    if p <= n <= s.len() {
        match node_at(s, n, d) {
            Some((x, e)) => if p <= e <= s.len() {
                let rest = list_rest(s, e, d);
                (seq![x] + rest.0, rest.1)
            } else {
                (Seq::empty(), p)
            },
            None => (Seq::empty(), p),
        }
    } else {
        (Seq::empty(), p)
    }
}


/// Where `lit` ends when it stands at `p`.
fn after(s: &Vec<char>, p: usize, lit: &str) -> (r: Option<usize>)
    requires
        p <= s@.len(),
    ensures
        match r {
            Some(e) => lit_at(s@, p as int, lit@) && e == p + lit@.len() && e <= s@.len(),
            None => !lit_at(s@, p as int, lit@),
        },
{
    let len = s.len();
    if looking_at(s, p, lit) {
        let n = lit.unicode_len();
        assert(p + n <= len);
        Some(p + n)
    } else {
        None
    }
}

/// Where the indentation of depth `d` ends when it stands at `p`.
fn indent_end(s: &Vec<char>, p: usize, d: usize) -> (r: Option<usize>)
    requires
        p <= s@.len(),
    ensures
        match r {
            Some(q) => indent_at(s@, p as int, d as int) && q == p + 2 * d && q <= s@.len(),
            None => !indent_at(s@, p as int, d as int),
        },
{
    let len = s.len();
    if indented(s, p, d) {
        assert(p + 2 * d <= len);
        Some(p + 2 * d)
    } else {
        None
    }
}

fn indented(s: &Vec<char>, p: usize, d: usize) -> (r: bool)
    requires
        p <= s@.len(),
    ensures
        r == indent_at(s@, p as int, d as int),
        r ==> p + 2 * d <= s@.len(),
{
    if d > (s.len() - p) / 2 {
        return false;
    }
    let end = p + 2 * d;
    let mut i = p;
    while i < end
        invariant
            p <= i <= end <= s@.len(),
            end == p + 2 * d,
            forall|j: int| p <= j < i ==> s@[j] == ' ',
        decreases end - i,
    {
        if s[i] != ' ' {
            return false;
        }
        i = i + 1;
    }
    true
}

fn text_line(s: &Vec<char>, p: usize) -> (r: (Node, usize))
    requires
        p <= s@.len(),
    ensures
        text_at(s@, p as int) == (node_model(r.0), r.1 as int),
        p <= r.1 <= s@.len(),
{
    let e = span_of(s, p, CharKind::NotNewline);
    (Node::Text(text_of(s, p, e)), e)
}

fn markdown_line(s: &Vec<char>, p: usize, d: usize) -> (r: Option<(String, usize)>)
    requires
        p <= s@.len(),
    ensures
        match r {
            Some((l, e)) => markdown_line_at(s@, p as int, d as int) == Some((l@, e as int)) && e <= s@.len(),
            None => markdown_line_at(s@, p as int, d as int) is None,
        },
{
    if let Some(a) = indent_end(s, p, d) {
        let e = span_of(s, a, CharKind::NotNewline);
        Some((text_of(s, a, e), e))
    } else {
        None
    }
}

fn markdown(s: &Vec<char>, p: usize, d: usize) -> (r: Option<(Node, usize)>)
    requires
        p <= s@.len(),
        2 * d <= p,
    ensures
        match r {
            Some((x, e)) => markdown_at(s@, p as int, d as int) == Some((node_model(x), e as int)) && e <= s@.len(),
            None => markdown_at(s@, p as int, d as int) is None,
        },
{
    let a = match after(s, p, ":markdown") {
        Some(x) => x,
        None => return None,
    };
    let n = span_of(s, a, CharKind::Newline);
    if n <= a {
        return None;
    }
    match markdown_line(s, n, d + 1) {
        None => None,
        Some((l, e0)) => {
            let ghost goal = markdown_rest(s@, e0 as int, d + 1);
            let mut lines: Vec<String> = Vec::new();
            lines.push(l);
            assert(lines_model(lines@) =~= seq![l@]);
            let mut e = e0;
            loop
                invariant
                    e <= s@.len(),
                    2 * d <= p,
                    lines_model(lines@) + markdown_rest(s@, e as int, d + 1).0 == seq![l@] + goal.0,
                    markdown_rest(s@, e as int, d + 1).1 == goal.1,
                ensures
                    e <= s@.len(),
                    lines_model(lines@) == seq![l@] + goal.0,
                    e == goal.1,
                decreases s@.len() - e,
            {
                let n2 = span_of(s, e, CharKind::Newline);
                if n2 > e {
                    match markdown_line(s, n2, d + 1) {
                        Some((m, e2)) => {
                            if e < e2 {
                                proof {
                                    let rest = markdown_rest(s@, e2 as int, d + 1);
                                    assert(lines_model(lines@.push(m)) =~= lines_model(lines@).push(m@));
                                    assert(lines_model(lines@).push(m@) + rest.0 =~= lines_model(lines@) + (seq![m@] + rest.0));
                                }
                                lines.push(m);
                                e = e2;
                            } else {
                                assert(lines_model(lines@) + Seq::<Seq<char>>::empty() =~= lines_model(lines@));
                                break;
                            }
                        },
                        None => {
                            assert(lines_model(lines@) + Seq::<Seq<char>>::empty() =~= lines_model(lines@));
                            break;
                        },
                    }
                } else {
                    assert(lines_model(lines@) + Seq::<Seq<char>>::empty() =~= lines_model(lines@));
                    break;
                }
            }
            Some((Node::Markdown(lines), e))
        },
    }
}

fn for_index(s: &Vec<char>, p: usize, d: usize) -> (r: Option<(Node, usize)>)
    requires
        p <= s@.len(),
        2 * d <= p,
    ensures
        match r {
            Some((x, e)) => for_index_at(s@, p as int, d as int) == Some((node_model(x), e as int)) && e <= s@.len(),
            None => for_index_at(s@, p as int, d as int) is None,
        },
    decreases s@.len() - p, 1nat,
{
    let a = match after(s, p, "- for ") {
        Some(x) => x,
        None => return None,
    };
    let n1 = span_of(s, a, CharKind::Alnum);
    let b = match after(s, n1, ", ") {
        Some(x) => x,
        None => return None,
    };
    let n2 = span_of(s, b, CharKind::Alnum);
    let after_n2 = match after(s, n2, " in ") {
        Some(x) => x,
        None => return None,
    };
    match selectors(s, after_n2) {
        Some((sel, e)) => {
            if e < s.len() && s[e] == '\n' && p < e + 1 {
                let (body, end) = list(s, e + 1, d + 1);
                Some((
                    Node::ForLoop {
                        index: Some(text_of(s, a, n1)),
                        local: text_of(s, b, n2),
                        selectors: sel,
                        children: Nodes::Fragment { nodes: body },
                    },
                    end,
                ))
            } else {
                None
            }
        },
        None => None,
    }
}

fn for_loop(s: &Vec<char>, p: usize, d: usize) -> (r: Option<(Node, usize)>)
    requires
        p <= s@.len(),
        2 * d <= p,
    ensures
        match r {
            Some((x, e)) => for_at(s@, p as int, d as int) == Some((node_model(x), e as int)) && e <= s@.len(),
            None => for_at(s@, p as int, d as int) is None,
        },
    decreases s@.len() - p, 1nat,
{
    let a = match after(s, p, "- for ") {
        Some(x) => x,
        None => return None,
    };
    let n = span_of(s, a, CharKind::Alnum);
    let after_n = match after(s, n, " in ") {
        Some(x) => x,
        None => return None,
    };
    match selectors(s, after_n) {
        Some((sel, e)) => {
            if e < s.len() && s[e] == '\n' && p < e + 1 {
                let (body, end) = list(s, e + 1, d + 1);
                Some((
                    Node::ForLoop {
                        index: None,
                        local: text_of(s, a, n),
                        selectors: sel,
                        children: Nodes::Fragment { nodes: body },
                    },
                    end,
                ))
            } else {
                None
            }
        },
        None => None,
    }
}

fn if_head(s: &Vec<char>, p: usize) -> (r: Option<(Vec<Selector>, usize)>)
    requires
        p <= s@.len(),
    ensures
        match r {
            Some((sel, b)) => if_head_at(s@, p as int) == Some((steps_model(sel@), b as int)) && b <= s@.len(),
            None => if_head_at(s@, p as int) is None,
        },
{
    let after_p = match after(s, p, "- if ") {
        Some(x) => x,
        None => return None,
    };
    match selectors(s, after_p) {
        Some((sel, e)) => {
            if e < s.len() && s[e] == '\n' {
                Some((sel, e + 1))
            } else {
                None
            }
        },
        None => None,
    }
}

fn else_line(s: &Vec<char>, p: usize, d: usize) -> (r: Option<usize>)
    requires
        p <= s@.len(),
    ensures
        match r {
            Some(f) => else_at(s@, p as int, d as int) == Some(f as int) && f <= s@.len(),
            None => else_at(s@, p as int, d as int) is None,
        },
{
    let n = span_of(s, p, CharKind::Newline);
    if n <= p {
        return None;
    }
    let g = match indent_end(s, n, d) {
        Some(g) => g,
        None => return None,
    };
    let e = match after(s, g, "- else") {
        Some(e) => e,
        None => return None,
    };
    if e < s.len() && s[e] == '\n' {
        Some(e + 1)
    } else {
        None
    }
}

fn if_else(s: &Vec<char>, p: usize, d: usize) -> (r: Option<(Node, usize)>)
    requires
        p <= s@.len(),
        2 * d <= p,
    ensures
        match r {
            Some((x, e)) => if_else_at(s@, p as int, d as int) == Some((node_model(x), e as int)) && e <= s@.len(),
            None => if_else_at(s@, p as int, d as int) is None,
        },
    decreases s@.len() - p, 1nat,
{
    match if_head(s, p) {
        Some((sel, b)) => {
            if p < b {
                let (yes, m) = list(s, b, d + 1);
                match else_line(s, m, d) {
                    Some(f) => {
                        if p < f {
                            let (no, end) = list(s, f, d + 1);
                            Some((
                                Node::IfElse {
                                    selectors: sel,
                                    true_children: Nodes::Fragment { nodes: yes },
                                    false_children: Nodes::Fragment { nodes: no },
                                },
                                end,
                            ))
                        } else {
                            None
                        }
                    },
                    None => None,
                }
            } else {
                None
            }
        },
        None => None,
    }
}

fn if_only(s: &Vec<char>, p: usize, d: usize) -> (r: Option<(Node, usize)>)
    requires
        p <= s@.len(),
        2 * d <= p,
    ensures
        match r {
            Some((x, e)) => if_at(s@, p as int, d as int) == Some((node_model(x), e as int)) && e <= s@.len(),
            None => if_at(s@, p as int, d as int) is None,
        },
    decreases s@.len() - p, 1nat,
{
    match if_head(s, p) {
        Some((sel, b)) => {
            if p < b {
                let (yes, end) = list(s, b, d + 1);
                let no: Vec<Node> = Vec::new();
                assert(list_model(no@) =~= Seq::<NodeM>::empty());
                Some((
                    Node::IfElse {
                        selectors: sel,
                        true_children: Nodes::Fragment { nodes: yes },
                        false_children: Nodes::Fragment { nodes: no },
                    },
                    end,
                ))
            } else {
                None
            }
        },
        None => None,
    }
}

fn block(s: &Vec<char>, p: usize, d: usize) -> (r: Option<(Node, usize)>)
    requires
        p <= s@.len(),
        2 * d <= p,
    ensures
        match r {
            Some((x, e)) => block_at(s@, p as int, d as int) == Some((node_model(x), e as int)) && e <= s@.len(),
            None => block_at(s@, p as int, d as int) is None,
        },
    decreases s@.len() - p, 1nat,
{
    let a = match after(s, p, "- block ") {
        Some(x) => x,
        None => return None,
    };
    let e = span_of(s, a, CharKind::NotNewline);
    if p < e {
        let (body, end) = list(s, e, d + 1);
        Some((Node::Block { name: text_of(s, a, e), children: Nodes::Fragment { nodes: body } }, end))
    } else {
        None
    }
}

fn fragment(s: &Vec<char>, p: usize) -> (r: Option<(Node, usize)>)
    requires
        p <= s@.len(),
    ensures
        match r {
            Some((x, e)) => fragment_at(s@, p as int) == Some((node_model(x), e as int)) && e <= s@.len(),
            None => fragment_at(s@, p as int) is None,
        },
{
    let a = match after(s, p, "- fragment ") {
        Some(x) => x,
        None => return None,
    };
    let e = span_of(s, a, CharKind::NotNewline);
    Some((Node::Fragment { path: text_of(s, a, e) }, e))
}

fn with_text(s: &Vec<char>, p: usize, d: usize) -> (r: Option<(Node, usize)>)
    requires
        p <= s@.len(),
        2 * d <= p,
    ensures
        match r {
            Some((x, e)) => with_text_at(s@, p as int, d as int) == Some((node_model(x), e as int)) && e <= s@.len(),
            None => with_text_at(s@, p as int, d as int) is None,
        },
    decreases s@.len() - p, 1nat,
{
    match tag(s, p) {
        Some((t, e)) => {
            if e < s.len() && s[e] == ' ' {
                let l = span_of(s, e + 1, CharKind::NotNewline);
                if p < l {
                    let (body, end) = list(s, l, d + 1);
                    let mut children = Nodes::Fragment { nodes: body };
                    children.prepend(Node::Text(text_of(s, e + 1, l)));
                    Some((Node::Element { tag: t, children }, end))
                } else {
                    None
                }
            } else {
                None
            }
        },
        None => None,
    }
}

fn value_node(s: &Vec<char>, p: usize) -> (r: Option<(Node, usize)>)
    requires
        p <= s@.len(),
    ensures
        match r {
            Some((x, e)) => value_node_at(s@, p as int) == Some((node_model(x), e as int)) && e <= s@.len(),
            None => value_node_at(s@, p as int) is None,
        },
{
    if let Some(a) = after(s, p, "block ") {
        let e = span_of(s, a, CharKind::NotNewline);
        Some((Node::BlockValue(text_of(s, a, e)), e))
    } else {
        match selectors(s, p) {
            Some((sel, e)) => Some((Node::InterpolatedText(sel), e)),
            None => None,
        }
    }
}

fn with_value(s: &Vec<char>, p: usize, d: usize) -> (r: Option<(Node, usize)>)
    requires
        p <= s@.len(),
        2 * d <= p,
    ensures
        match r {
            Some((x, e)) => with_value_at(s@, p as int, d as int) == Some((node_model(x), e as int)) && e <= s@.len(),
            None => with_value_at(s@, p as int, d as int) is None,
        },
    decreases s@.len() - p, 1nat,
{
    match tag(s, p) {
        Some((t, e)) => {
            if let Some(a) = after(s, e, "= ") {
                match value_node(s, a) {
                    Some((v, c)) => {
                        if p < c {
                            let (body, end) = list(s, c, d + 1);
                            let mut children = Nodes::Fragment { nodes: body };
                            children.prepend(v);
                            Some((Node::Element { tag: t, children }, end))
                        } else {
                            None
                        }
                    },
                    None => None,
                }
            } else {
                None
            }
        },
        None => None,
    }
}

fn bare_tag(s: &Vec<char>, p: usize, d: usize) -> (r: Option<(Node, usize)>)
    requires
        p <= s@.len(),
        2 * d <= p,
    ensures
        match r {
            Some((x, e)) => bare_tag_at(s@, p as int, d as int) == Some((node_model(x), e as int)) && e <= s@.len(),
            None => bare_tag_at(s@, p as int, d as int) is None,
        },
    decreases s@.len() - p, 1nat,
{
    match tag(s, p) {
        Some((t, e)) => {
            if p < e {
                let (body, end) = list(s, e, d + 1);
                Some((Node::Element { tag: t, children: Nodes::Fragment { nodes: body } }, end))
            } else {
                None
            }
        },
        None => None,
    }
}

fn node(s: &Vec<char>, p: usize, d: usize) -> (r: Option<(Node, usize)>)
    requires
        p <= s@.len(),
    ensures
        match r {
            Some((x, e)) => node_at(s@, p as int, d as int) == Some((node_model(x), e as int)) && e <= s@.len(),
            None => node_at(s@, p as int, d as int) is None,
        },
    decreases s@.len() - p, 2nat,
{
    let q = match indent_end(s, p, d) {
        Some(q) => q,
        None => return None,
    };
    if let Some(r) = markdown(s, q, d) {
        return Some(r);
    }
    if let Some(r) = for_index(s, q, d) {
        return Some(r);
    }
    if let Some(r) = for_loop(s, q, d) {
        return Some(r);
    }
    if let Some(r) = if_else(s, q, d) {
        return Some(r);
    }
    if let Some(r) = if_only(s, q, d) {
        return Some(r);
    }
    if let Some(r) = block(s, q, d) {
        return Some(r);
    }
    if let Some(r) = fragment(s, q) {
        return Some(r);
    }
    if let Some(r) = with_text(s, q, d) {
        return Some(r);
    }
    if let Some(r) = with_value(s, q, d) {
        return Some(r);
    }
    if let Some(r) = bare_tag(s, q, d) {
        return Some(r);
    }
    Some(text_line(s, q))
}

/// The nodes at depth `d` from `p` on, and where they end.
fn list(s: &Vec<char>, p: usize, d: usize) -> (r: (Vec<Node>, usize))
    requires
        p <= s@.len(),
    ensures
        list_at(s@, p as int, d as int) == (list_model(r.0@), r.1 as int),
        r.1 <= s@.len(),
    decreases s@.len() - p, 3nat,
{
    let mut v: Vec<Node> = Vec::new();
    let n = span_of(s, p, CharKind::Newline);
    let first = node(s, n, d);
    match first {
        None => {
            assert(list_model(v@) =~= Seq::<NodeM>::empty());
            (v, p)
        },
        Some((x, e0)) => {
            if e0 < p {
                assert(list_model(v@) =~= Seq::<NodeM>::empty());
                return (v, p);
            }
            let ghost head = node_model(x);
            let ghost goal = list_rest(s@, e0 as int, d as int);
            v.push(x);
            assert(list_model(v@) =~= seq![head]);
            let mut e = e0;
            loop
                invariant
                    p <= e <= s@.len(),
                    list_model(v@) + list_rest(s@, e as int, d as int).0 == seq![head] + goal.0,
                    list_rest(s@, e as int, d as int).1 == goal.1,
                ensures
                    e <= s@.len(),
                    list_model(v@) == seq![head] + goal.0,
                    e == goal.1,
                decreases s@.len() - e,
            {
                if e < s.len() && s[e] == '\n' {
                    let n2 = span_of(s, e + 1, CharKind::Newline);
                    match node(s, n2, d) {
                        Some((y, e2)) => {
                            if e < e2 {
                                proof {
                                    lemma_list_push(v@, y);
                                    let rest = list_rest(s@, e2 as int, d as int);
                                    assert(list_model(v@).push(node_model(y)) + rest.0 =~= list_model(v@) + (
                                    seq![node_model(y)] + rest.0));
                                }
                                v.push(y);
                                e = e2;
                            } else {
                                assert(list_model(v@) + Seq::<NodeM>::empty() =~= list_model(v@));
                                break;
                            }
                        },
                        None => {
                            assert(list_model(v@) + Seq::<NodeM>::empty() =~= list_model(v@));
                            break;
                        },
                    }
                } else {
                    assert(list_model(v@) + Seq::<NodeM>::empty() =~= list_model(v@));
                    break;
                }
            }
            (v, e)
        },
    }
}


/// The `!HTML` first line at the start of `s`, with its custom attributes,
/// and where the line ends (after its newline, or at the end of `s`).
pub open spec fn html_header_at(s: Seq<char>) -> Option<(Seq<AttrM>, int)> {
    if lit_at(s, 0, "!HTML"@) {
        let a = "!HTML"@.len() as int;
        let c = match customs_at(s, a) {
            Some((c, e)) => (c, e),
            None => (Seq::empty(), a),
        };
        if 0 <= c.1 < s.len() && s[c.1] == '\n' {
            Some((c.0, c.1 + 1))
        } else if c.1 == s.len() {
            Some((c.0, c.1))
        } else {
            None
        }
    } else {
        None
    }
}

/// The further top-level blocks of a template that extends a layout, each
/// after a newline (and any blank lines), and where they end.
pub open spec fn blocks_rest(s: Seq<char>, p: int) -> (Seq<NodeM>, int)
    decreases s.len() - p,
{
    if 0 <= p < s.len() && s[p] == '\n' {
        let n = span(s, p + 1, CharKind::Newline);
        match block_at(s, n, 0) {
            Some((b, e)) => if p < e <= s.len() {
                let rest = blocks_rest(s, e);
                (seq![b] + rest.0, rest.1)
            } else {
                (Seq::empty(), p)
            },
            None => (Seq::empty(), p),
        }
    } else {
        (Seq::empty(), p)
    }
}

/// `- extends layout` at `p` and the top-level blocks after it.
pub open spec fn subclass_at(s: Seq<char>, p: int) -> Option<(NodesM, int)> {
    if lit_at(s, p, "- extends "@) {
        let a = p + "- extends "@.len();
        let l = line_end(s, a);
        if 0 <= l < s.len() && s[l] == '\n' {
            let n = span(s, l + 1, CharKind::Newline);
            match block_at(s, n, 0) {
                Some((b, e)) => {
                    let rest = blocks_rest(s, e);
                    let end = span(s, rest.1, CharKind::Newline);
                    Some((NodesM::Subclass(s.subrange(a, l), block_table(seq![b] + rest.0)), end))
                },
                None => None,
            }
        } else {
            None
        }
    } else {
        None
    }
}

/// A whole source: an optional `!HTML` line, then a template that extends
/// a layout (after any blank lines) or the nodes at depth zero; under
/// `!HTML` the result is a document holding one `html` element around
/// them. Also where it stops.
pub open spec fn source_at(s: Seq<char>) -> (NodesM, int) {
    let start = match html_header_at(s) {
        Some((_, e)) => e,
        None => 0,
    };
    let body = match subclass_at(s, span(s, start, CharKind::Newline)) {
        Some(r) => r,
        None => {
            let l = list_at(s, start, 0);
            (NodesM::Fragment(l.0), l.1)
        },
    };
    match html_header_at(s) {
        Some((attrs, _)) => (
            NodesM::Document(seq![NodeM::Element(TagM { name: "html"@, attributes: attrs }, body.0)]),
            body.1,
        ),
        None => body,
    }
}

fn html_header(s: &Vec<char>) -> (r: Option<(Vec<Attribute>, usize)>)
    ensures
        match r {
            Some((a, e)) => html_header_at(s@) == Some((attrs_model(a@), e as int)) && e <= s@.len(),
            None => html_header_at(s@) is None,
        },
{
    let a = match after(s, 0, "!HTML") {
        Some(a) => a,
        None => return None,
    };
    let (attrs, c) = match customs(s, a) {
        Some((c, e)) => (c, e),
        None => {
            let none: Vec<Attribute> = Vec::new();
            assert(attrs_model(none@) =~= Seq::<AttrM>::empty());
            (none, a)
        },
    };
    if c < s.len() && s[c] == '\n' {
        Some((attrs, c + 1))
    } else if c == s.len() {
        Some((attrs, c))
    } else {
        None
    }
}

fn subclass(s: &Vec<char>, p: usize) -> (r: Option<(Nodes, usize)>)
    requires
        p <= s@.len(),
    ensures
        match r {
            Some((x, e)) => subclass_at(s@, p as int) == Some((nodes_model(x), e as int)) && e <= s@.len(),
            None => subclass_at(s@, p as int) is None,
        },
{
    let a = match after(s, p, "- extends ") {
        Some(a) => a,
        None => return None,
    };
    let l = span_of(s, a, CharKind::NotNewline);
    if !(l < s.len() && s[l] == '\n') {
        return None;
    }
    let n = span_of(s, l + 1, CharKind::Newline);
    match block(s, n, 0) {
        None => None,
        Some((b, e0)) => {
            let ghost head = node_model(b);
            let ghost goal = blocks_rest(s@, e0 as int);
            let mut v: Vec<Node> = Vec::new();
            v.push(b);
            assert(list_model(v@) =~= seq![head]);
            let mut e = e0;
            loop
                invariant
                    e <= s@.len(),
                    list_model(v@) + blocks_rest(s@, e as int).0 == seq![head] + goal.0,
                    blocks_rest(s@, e as int).1 == goal.1,
                ensures
                    e <= s@.len(),
                    list_model(v@) == seq![head] + goal.0,
                    e == goal.1,
                decreases s@.len() - e,
            {
                if e < s.len() && s[e] == '\n' {
                    let n2 = span_of(s, e + 1, CharKind::Newline);
                    match block(s, n2, 0) {
                        Some((y, e2)) => {
                            if e < e2 {
                                proof {
                                    lemma_list_push(v@, y);
                                    let rest = blocks_rest(s@, e2 as int);
                                    assert(list_model(v@).push(node_model(y)) + rest.0 =~= list_model(v@) + (
                                    seq![node_model(y)] + rest.0));
                                }
                                v.push(y);
                                e = e2;
                            } else {
                                assert(list_model(v@) + Seq::<NodeM>::empty() =~= list_model(v@));
                                break;
                            }
                        },
                        None => {
                            assert(list_model(v@) + Seq::<NodeM>::empty() =~= list_model(v@));
                            break;
                        },
                    }
                } else {
                    assert(list_model(v@) + Seq::<NodeM>::empty() =~= list_model(v@));
                    break;
                }
            }
            let end = span_of(s, e, CharKind::Newline);
            Some((Nodes::new_fragment_subclass(text_of(s, a, l), v), end))
        },
    }
}

/// Parses a whole source: the template and where the parser stopped.
pub fn parse_source(s: &Vec<char>) -> (r: (Nodes, usize))
    ensures
        source_at(s@) == (nodes_model(r.0), r.1 as int),
        r.1 <= s@.len(),
{
    let header = html_header(s);
    let start = match &header {
        Some((_, e)) => *e,
        None => 0,
    };
    let lead = span_of(s, start, CharKind::Newline);
    let (body, end) = match subclass(s, lead) {
        Some(r) => r,
        None => {
            let (nodes, e) = list(s, start, 0);
            (Nodes::new_fragment(nodes), e)
        },
    };
    match header {
        Some((attributes, _)) => {
            let root = Node::Element { tag: Tag { name: "html".to_string(), attributes }, children: body };
            let mut nodes: Vec<Node> = Vec::new();
            nodes.push(root);
            assert(list_model(nodes@) =~= seq![node_model(root)]);
            (Nodes::new_document(nodes), end)
        },
        None => (body, end),
    }
}

/// Parses a source: the text the parser did not reach, and the template.
pub fn parse(input: &str) -> (r: (String, Nodes))
    ensures
        nodes_model(r.1) == source_at(input@).0,
        0 <= source_at(input@).1 <= input@.len(),
        r.0@ == input@.subrange(source_at(input@).1, input@.len() as int),
{
    let s = chars_of(input);
    let (nodes, end) = parse_source(&s);
    (text_of(&s, end, s.len()), nodes)
}

/// The rest of the line at the start of `input`, and the text after it.
pub fn to_newline(input: &str) -> (r: (String, String))
    ensures
        r.1@ == input@.subrange(0, line_end(input@, 0)),
        r.0@ == input@.subrange(line_end(input@, 0), input@.len() as int),
{
    let s = chars_of(input);
    let e = span_of(&s, 0, CharKind::NotNewline);
    (text_of(&s, e, s.len()), text_of(&s, 0, e))
}

} // verus!
