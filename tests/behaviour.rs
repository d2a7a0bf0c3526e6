use socket::markdown::markdown_to_html;
use socket::parser::{parse, selector, to_newline};
use socket::{
    concat_parts, Builder, Context, FragmentError, Fragments, Json, Node, NodeError, Nodes, Selector,
    Socket, Styles, INCLUSION_LIMIT,
};

fn text(s: &str) -> Json {
    Json::String(s.to_string())
}

fn object(entries: Vec<(&str, Json)>) -> Json {
    Json::Object(entries.into_iter().map(|(k, v)| (k.to_string(), v)).collect())
}

fn key(s: &str) -> Selector {
    Selector::Key(s.to_string())
}

fn render(source: &str, context: Json) -> String {
    let mut socket = Socket::parse(source).unwrap();
    socket.with_context(Some(Ok(context))).unwrap();
    socket.to_html()
}

#[test]
fn missing_value_renders_empty_and_records_one_error() {
    let (_, nodes) = parse("%p= missing.path");
    let root = object(vec![]);
    let context = Context::new(&root);
    let fragments = Fragments::new();
    let built = nodes.to_html(Builder::new(), &context, &fragments, &Vec::new(), &None);
    assert_eq!(concat_parts(built.result()), "<p></p>");
    assert_eq!(built.errors().len(), 1);
    match &built.errors()[0] {
        NodeError::JSONValueMissingAtSelector(path) => {
            assert_eq!(**path, vec![key("missing"), key("path")])
        }
        other => panic!("unexpected error {:?}", other),
    }
}

#[test]
fn loop_over_a_number_renders_nothing_and_records_not_array() {
    let (_, nodes) = parse("- for x in notArr\n  %p= x");
    let root = object(vec![("notArr", Json::Number("5".to_string()))]);
    let context = Context::new(&root);
    let fragments = Fragments::new();
    let built = nodes.to_html(Builder::new(), &context, &fragments, &Vec::new(), &None);
    assert_eq!(concat_parts(built.result()), "");
    assert_eq!(built.errors().len(), 1);
    match &built.errors()[0] {
        NodeError::JSONValueNotArrayAtSelector(path) => assert_eq!(**path, vec![key("notArr")]),
        other => panic!("unexpected error {:?}", other),
    }
}

fn errors_of(source: &str, root: Json, sources: Vec<(&str, &str)>) -> (String, Vec<String>) {
    let (_, nodes) = parse(source);
    let context = Context::new(&root);
    let mut fragments = Fragments::new();
    fragments.load(&sources.into_iter().map(|(k, v)| (k.to_string(), v.to_string())).collect());
    let built = nodes.to_html(Builder::new(), &context, &fragments, &Vec::new(), &None);
    let errors = built.errors().iter().map(|e| format!("{:?}", e)).collect();
    (concat_parts(built.result()), errors)
}

#[test]
fn condition_that_is_not_a_boolean() {
    let (html, errors) = errors_of("- if flag\n  %p yes", object(vec![("flag", text("x"))]), vec![]);
    assert_eq!(html, "");
    assert_eq!(errors.len(), 1);
    assert!(errors[0].starts_with("JSONValueNotBoolAtSelector"));
}

#[test]
fn unknown_block_and_fragment() {
    let (html, errors) = errors_of("%p= block nothing\n- fragment none.skt", object(vec![]), vec![]);
    assert_eq!(html, "<p></p>");
    assert_eq!(errors.len(), 2);
    assert!(errors[0].starts_with("InvalidBlockName"));
    assert!(errors[1].starts_with("InvalidFragmentPath"));
}

#[test]
fn fragment_that_includes_itself_stops_at_the_limit() {
    let (html, errors) = errors_of("- fragment a.skt", object(vec![]), vec![("a.skt", "%p\n  - fragment a.skt")]);
    assert_eq!(html.matches("<p>").count(), INCLUSION_LIMIT);
    assert_eq!(html.matches("</p>").count(), INCLUSION_LIMIT);
    assert_eq!(errors.len(), 1);
    assert!(errors[0].starts_with("FragmentTooDeep"));
}

#[test]
fn fragment_recursion_over_nested_data_ends() {
    let root = object(vec![(
        "node",
        object(vec![("children", Json::Array(vec![object(vec![("children", Json::Array(vec![]))])]))]),
    )]);
    let sources = vec![("a", "x\n- for node in node.children\n  - fragment a")];
    let (html, errors) = errors_of("- fragment a", root, sources);
    assert_eq!(html, "xx");
    assert!(errors.is_empty());
}

#[test]
fn block_that_includes_itself_stops_at_the_limit() {
    let sources = vec![("layout.skt", "%div\n  - block a")];
    let (html, errors) = errors_of("- extends layout.skt\n- block a\n  %p= block a", object(vec![]), sources);
    assert!(html.starts_with("<div><p><p>"));
    assert_eq!(html.matches("<p>").count(), INCLUSION_LIMIT - 1);
    assert_eq!(errors.len(), 1);
    assert!(errors[0].starts_with("BlockTooDeep"));
}

#[test]
fn limited_depth_renders_only_that_deep() {
    let (_, nodes) = parse("- fragment a.skt");
    let root = object(vec![]);
    let context = Context::new(&root);
    let mut fragments = Fragments::new();
    fragments.load(&vec![("a.skt".to_string(), "%p\n  - fragment a.skt".to_string())]);
    let built = nodes.to_html_within(Builder::new(), &context, &fragments, &Vec::new(), &None, 2);
    assert_eq!(concat_parts(built.result()), "<p><p></p></p>");
    assert_eq!(built.errors().len(), 1);
}

#[test]
fn block_default_body_is_used_without_override() {
    let (html, errors) = errors_of("- block main\n  %p default", object(vec![]), vec![]);
    assert_eq!(html, "<p>default</p>");
    assert!(errors.is_empty());
}

#[test]
fn subclass_against_layout() {
    let mut socket = Socket::parse("- extends layout.skt\n- block hdr\n  Hi\n- block body\n  %p X").unwrap();
    socket.with_fragments(&vec![(
        "layout.skt".to_string(),
        ".foo\n  %h2= block hdr\n  - block body".to_string(),
    )]);
    assert_eq!(socket.to_html(), "<div class=\"foo\"><h2>Hi</h2><p>X</p></div>");
}

#[test]
fn section_with_id_class_and_text() {
    assert_eq!(
        Socket::parse("%section#section-id.other some text").unwrap().to_html(),
        "<section id=\"section-id\" class=\"other\">some text</section>"
    );
}

#[test]
fn id_comes_before_class_and_custom_attributes() {
    assert_eq!(
        Socket::parse("%a.c#i.d(href=x title=\"t\")").unwrap().to_html(),
        "<a id=\"i\" class=\"c d\" href=\"x\" title=\"t\"></a>"
    );
}

#[test]
fn if_else_scenario() {
    assert_eq!(
        render(
            "- if flag\n  %p= v\n- else\n  %p= w",
            object(vec![("flag", Json::Bool(false)), ("v", text("hi")), ("w", text("bye"))])
        ),
        "<p>bye</p>"
    );
}

#[test]
fn loop_with_index() {
    assert_eq!(
        render(
            "- for i, v in values\n  %p= i",
            object(vec![("values", Json::Array(vec![text("a"), text("b")]))])
        ),
        "<p>0</p><p>1</p>"
    );
}

#[test]
fn value_texts() {
    let root = object(vec![
        ("n", Json::Number("3.5".to_string())),
        ("z", Json::Null),
        ("a", Json::Array(vec![])),
        ("o", object(vec![])),
        ("t", Json::Bool(true)),
    ]);
    assert_eq!(render("%p= n\n%p= z\n%p= a\n%p= o\n%p= t", root), "<p>3.5</p><p></p><p>array</p><p>object</p><p>true</p>");
}

#[test]
fn indexed_selector_into_array() {
    let root = object(vec![("items", Json::Array(vec![text("x"), object(vec![("k", text("y"))])]))]);
    assert_eq!(render("%p= items[1].k\n%p= items.0", root), "<p>y</p><p>x</p>");
}

#[test]
fn stylesheet_in_head() {
    let mut socket = Socket::parse("%head").unwrap();
    socket.with_styles(Styles::from(Ok("body{}".to_string())));
    assert_eq!(socket.to_html(), "<head><style>\nbody{}</style></head>");
    let mut empty = Socket::parse("%head").unwrap();
    empty.with_styles(Styles::Styles(String::new()));
    assert_eq!(empty.to_html(), "<head></head>");
}

#[test]
fn html_header_alone_is_a_document() {
    let (_, nodes) = parse("!HTML");
    assert!(matches!(nodes, Nodes::Document { .. }));
    assert_eq!(Socket::parse("!HTML").unwrap().to_html(), "<!DOCTYPE html><html></html>");
    assert_eq!(
        Socket::parse("!HTML(lang=en)").unwrap().to_html(),
        "<!DOCTYPE html><html lang=\"en\"></html>"
    );
    let (_, document) = parse("!HTML\n%p");
    assert!(matches!(document, Nodes::Document { .. }));
    let (_, text) = parse("%p !HTML");
    assert!(matches!(text, Nodes::Fragment { .. }));
    let (_, subclass) = parse("- extends a.skt\n- block b");
    assert!(matches!(subclass, Nodes::FragmentSubclass { .. }));
}

#[test]
fn blank_lines_before_extends() {
    let (_, subclass) = parse("\n\n- extends a.skt\n- block b\n  x");
    assert!(matches!(subclass, Nodes::FragmentSubclass { .. }));
    let mut socket = Socket::parse("\n- extends layout.skt\n- block b\n  x").unwrap();
    socket.with_fragments(&vec![("layout.skt".to_string(), "%p\n  - block b".to_string())]);
    assert_eq!(socket.to_html(), "<p>x</p>");
}

fn pieces_of(source: &str, root: Json) -> (Vec<String>, usize) {
    let (_, nodes) = parse(source);
    let context = Context::new(&root);
    let fragments = Fragments::new();
    let mut start: Builder<String, NodeError> = Builder::new();
    start.append("before".to_string());
    let built = nodes.to_html(start, &context, &fragments, &Vec::new(), &None);
    (built.result().to_vec(), built.errors().len())
}

#[test]
fn builder_receives_one_value_per_piece() {
    assert_eq!(pieces_of("hello", object(vec![])), (vec!["before".to_string(), "hello".to_string()], 0));
    assert_eq!(
        pieces_of("%p= name", object(vec![("name", text("Ann"))])),
        (
            vec!["before".to_string(), "<p>".to_string(), "Ann".to_string(), "".to_string(), "</p>".to_string()],
            0
        )
    );
    assert_eq!(pieces_of("= missing", object(vec![])), (vec!["before".to_string(), "= missing".to_string()], 0));
    let (_, nodes) = parse("%p= missing");
    let root = object(vec![]);
    let context = Context::new(&root);
    let fragments = Fragments::new();
    let built = nodes.to_html(Builder::new(), &context, &fragments, &Vec::new(), &None);
    assert_eq!(built.result().to_vec(), vec!["<p>".to_string(), "".to_string(), "</p>".to_string()]);
    assert_eq!(built.errors().len(), 1);
    let (_, document) = parse("!HTML\n%p x");
    let doc = document.to_html(Builder::new(), &context, &fragments, &Vec::new(), &None);
    assert_eq!(doc.result()[0], "<!DOCTYPE html>");
}

#[test]
fn selector_round_trip() {
    let (rest, steps) = selector::parse("a[1].2.b").unwrap();
    assert_eq!(rest, "");
    assert_eq!(steps, vec![key("a"), Selector::Index(1), Selector::Index(2), key("b")]);
    let (_, again) = selector::parse("a[1].2.b").unwrap();
    assert_eq!(again, steps);
}

#[test]
fn selector_errors_and_huge_numbers() {
    assert!(selector::parse(".x").is_err());
    let (rest, steps) = selector::parse("99999999999999999999999 tail").unwrap();
    assert_eq!(rest, " tail");
    assert_eq!(steps, vec![key("99999999999999999999999")]);
}

#[test]
fn fragment_with_leftover_text_is_incomplete() {
    let path = "f.skt".to_string();
    match Fragments::parse(&path, "%p= a b") {
        Err(FragmentError::IncompleteParse(p)) => assert_eq!(p, "f.skt"),
        _ => panic!("expected an incomplete parse"),
    }
    assert!(Fragments::parse(&path, "%p= a").is_ok());
}

#[test]
fn markdown_is_rendered() {
    assert_eq!(markdown_to_html(&vec!["# hi".to_string(), "text".to_string()]), "<h1>hi</h1>\n<p>text</p>\n");
}

#[test]
fn rest_of_line() {
    assert_eq!(to_newline("ab\ncd"), ("\ncd".to_string(), "ab".to_string()));
}

#[test]
fn builder_sorts_and_maps() {
    let b: Builder<i32, String> = Builder::from_results(vec![Ok(1), Err("e".to_string()), Ok(2)]);
    assert_eq!(b.result(), &[1, 2]);
    assert_eq!(b.errors(), &["e".to_string()]);
    let m = b.map(|v| v * 10);
    assert_eq!(m.result(), &[10, 20]);
    assert_eq!(m.into_result(), Err(vec!["e".to_string()]));
    let mut ok: Builder<i32, String> = Builder::new();
    ok.append(7);
    assert_eq!(ok.into_result(), Ok(vec![7]));
}

#[test]
fn prepend_adds_in_front() {
    let mut nodes = Nodes::new_fragment(vec![Node::Text("b".to_string())]);
    nodes.prepend(Node::Text("a".to_string()));
    match nodes {
        Nodes::Fragment { nodes } => assert_eq!(nodes.len(), 2),
        _ => panic!("expected a fragment"),
    }
}

#[test]
fn swapping_siblings_swaps_their_output() {
    let first = Socket::parse("%ul\n  %li one\n  %li two\n%p end").unwrap().to_html();
    let second = Socket::parse("%ul\n  %li two\n  %li one\n%p end").unwrap().to_html();
    assert_eq!(first, "<ul><li>one</li><li>two</li></ul><p>end</p>");
    assert_eq!(second, "<ul><li>two</li><li>one</li></ul><p>end</p>");
}

#[test]
fn same_inputs_render_the_same() {
    let context = || object(vec![("values", Json::Array(vec![text("a"), text("b")]))]);
    let source = "%ul\n  - for v in values\n    %li= v";
    assert_eq!(render(source, context()), render(source, context()));
    assert_eq!(render(source, context()), "<ul><li>a</li><li>b</li></ul>");
}
