use vstd::prelude::*;
use crate::text::{join, join_with, texts};

verus! {

/// The HTML that CommonMark rendering gives for a text.
pub uninterp spec fn markdown_html(text: Seq<char>) -> Seq<char>;

/// Relies on pulldown_cmark's `Parser::new_ext` with no options and
/// `html::push_html`: the HTML for the text, which depends on the text alone.
#[verifier::external_body]
pub(crate) fn render_markdown(text: &str) -> (r: String)
    ensures
        r@ == markdown_html(text@),
{
    let parser = pulldown_cmark::Parser::new_ext(text, pulldown_cmark::Options::empty());
    let mut out = String::new();
    pulldown_cmark::html::push_html(&mut out, parser);
    out
}

/// The text of a markdown block: its lines with a blank line between each two.
pub open spec fn markdown_source(lines: Seq<String>) -> Seq<char> {
    join_with(texts(lines), "\n\n"@)
}

/// Joins the lines of a markdown block with a blank line between each two.
pub fn join_markdown_lines(lines: &Vec<String>) -> (r: String)
    ensures
        r@ == markdown_source(lines@),
{
    join(lines, "\n\n")
}

/// Renders the lines of a markdown block as HTML.
pub fn markdown_to_html(lines: &Vec<String>) -> (r: String)
    ensures
        r@ == markdown_html(markdown_source(lines@)),
{
    let source = join_markdown_lines(lines);
    render_markdown(source.as_str())
}

} // verus!
