use socket::{ContextError, Json, Socket};

fn text(s: &str) -> Json {
    Json::String(s.to_string())
}

fn object(entries: Vec<(&str, Json)>) -> Json {
    Json::Object(entries.into_iter().map(|(k, v)| (k.to_string(), v)).collect())
}

fn build_context(value: Json) -> Option<Result<Json, ContextError>> {
    Some(Ok(value))
}

fn render_with(source: &str, context: Json) -> String {
    let mut socket = Socket::parse(source).unwrap();
    socket.with_context(build_context(context)).unwrap();
    socket.to_html()
}

#[test]
fn simple_tag() {
    assert_eq!(Socket::parse("%h1 Hello world").unwrap().to_html(), "<h1>Hello world</h1>");
}

#[test]
fn multiple_lines() {
    assert_eq!(
        Socket::parse("%h1 Hello world\n%h2 Subtitle").unwrap().to_html(),
        "<h1>Hello world</h1><h2>Subtitle</h2>"
    );
}

#[test]
fn multiple_lines_with_additional_newlines() {
    assert_eq!(
        Socket::parse("\n\n%h1 Hello world\n\n%h2 Subtitle\n\n\n\n").unwrap().to_html(),
        "<h1>Hello world</h1><h2>Subtitle</h2>"
    );
}

#[test]
fn nested_elements() {
    assert_eq!(
        Socket::parse("%div Hello world\n  %h2 Subtitle").unwrap().to_html(),
        "<div>Hello world<h2>Subtitle</h2></div>"
    );
}

#[test]
fn multiple_nested_elements() {
    assert_eq!(
        Socket::parse("%div Hello world\n  %h2 Subtitle\n  %h3 Another\n%div\n  %h2 Another subtitle")
            .unwrap()
            .to_html(),
        "<div>Hello world<h2>Subtitle</h2><h3>Another</h3></div><div><h2>Another subtitle</h2></div>"
    );
}

#[test]
fn adjacent_text() {
    assert_eq!(
        Socket::parse("%div\n  text\n  %h2 other\n  text").unwrap().to_html(),
        "<div>text<h2>other</h2>text</div>"
    );
}

#[test]
fn div_with_class() {
    assert_eq!(
        Socket::parse(".custom-class").unwrap().to_html(),
        "<div class=\"custom-class\"></div>"
    );
}

#[test]
fn div_with_classes() {
    assert_eq!(
        Socket::parse(".custom-class.other").unwrap().to_html(),
        "<div class=\"custom-class other\"></div>"
    );
}

#[test]
fn div_with_tailwind_classes() {
    assert_eq!(
        Socket::parse(".custom-class.other.lg:max-w-sm.w-1/4").unwrap().to_html(),
        "<div class=\"custom-class other lg:max-w-sm w-1/4\"></div>"
    );
}

#[test]
fn div_with_id() {
    assert_eq!(Socket::parse("#unique-id").unwrap().to_html(), "<div id=\"unique-id\"></div>");
}

#[test]
fn explicit_tag_with_classes() {
    assert_eq!(
        Socket::parse("%section.custom-class.other").unwrap().to_html(),
        "<section class=\"custom-class other\"></section>"
    );
}

#[test]
fn nested_structure_with_classes_and_ids() {
    assert_eq!(
        Socket::parse("#adjacent\n%section#section-id.other some text\n\n%header#primary\n  %h1.inner  welcome!")
            .unwrap()
            .to_html(),
        "<div id=\"adjacent\"></div><section id=\"section-id\" class=\"other\">some text</section><header id=\"primary\"><h1 class=\"inner\"> welcome!</h1></header>"
    );
}

#[test]
fn custom_attributes() {
    assert_eq!(
        Socket::parse("%img(src=\"example.png\" alt=\"What do you think?\")").unwrap().to_html(),
        "<img src=\"example.png\" alt=\"What do you think?\"></img>"
    );
}

#[test]
fn unquoted_custom_attribute() {
    assert_eq!(
        Socket::parse("%img(src=example.png alt=\"What do you think?\")").unwrap().to_html(),
        "<img src=\"example.png\" alt=\"What do you think?\"></img>"
    );
}

#[test]
fn html_doctype_with_attributes() {
    assert_eq!(
        Socket::parse("!HTML(lang=en)\n%head\n%body\n  %h1 Hello world").unwrap().to_html(),
        "<!DOCTYPE html><html lang=\"en\"><head></head><body><h1>Hello world</h1></body></html>"
    );
}

#[test]
fn html_doctype() {
    assert_eq!(
        Socket::parse("!HTML\n%head\n%body\n  %h1 Hello world").unwrap().to_html(),
        "<!DOCTYPE html><html><head></head><body><h1>Hello world</h1></body></html>"
    );
}

#[test]
fn simple_interpolation() {
    assert_eq!(
        render_with("%h1= title", object(vec![("title", text("Hello world"))])),
        "<h1>Hello world</h1>"
    );
}

#[test]
fn object_interpolation() {
    assert_eq!(
        render_with(
            "%h1= title.primary\n%h2= title.secondary",
            object(vec![(
                "title",
                object(vec![("primary", text("Hello world")), ("secondary", text("wow this works"))])
            )])
        ),
        "<h1>Hello world</h1><h2>wow this works</h2>"
    );
}

#[test]
fn attribute_interpolation() {
    assert_eq!(
        render_with(
            "%a(href=mailto:{contact.email})= contact.name",
            object(vec![(
                "contact",
                object(vec![("email", text("person@example.com")), ("name", text("Person's name"))])
            )])
        ),
        "<a href=\"mailto:person@example.com\">Person's name</a>"
    );
}

#[test]
fn for_loops() {
    assert_eq!(
        render_with(
            "%ul\n  - for value in values\n    %li= value",
            object(vec![("values", Json::Array(vec![text("first"), text("second"), text("third")]))])
        ),
        "<ul><li>first</li><li>second</li><li>third</li></ul>"
    );
}

#[test]
fn if_statement() {
    assert_eq!(
        render_with(
            "- if flag\n  %p= value",
            object(vec![("value", text("hello")), ("flag", Json::Bool(true))])
        ),
        "<p>hello</p>"
    );
    assert_eq!(
        render_with(
            "- if flag\n  %p= value",
            object(vec![("value", text("hello")), ("flag", Json::Bool(false))])
        ),
        ""
    );
}

#[test]
fn if_else_statement() {
    assert_eq!(
        render_with(
            "- if flag\n  %p= value\n- else\n  %p= other",
            object(vec![
                ("value", text("hello")),
                ("other", text("good bye")),
                ("flag", Json::Bool(false))
            ])
        ),
        "<p>good bye</p>"
    );
}

#[test]
fn nested_if_statement() {
    assert_eq!(
        render_with(
            "- if flag\n  - if otherflag\n    %p= works\n- else\n  %p= works",
            object(vec![
                ("works", text("sure does")),
                ("otherflag", Json::Bool(false)),
                ("flag", Json::Bool(true))
            ])
        ),
        ""
    );
    assert_eq!(
        render_with(
            "\n- if flag\n  - if otherflag\n    %p= works\n\n  - else\n    %p do not get here",
            object(vec![
                ("works", text("sure does")),
                ("otherflag", Json::Bool(true)),
                ("flag", Json::Bool(true))
            ])
        ),
        "<p>sure does</p>"
    );
}

#[test]
fn for_loops_with_object() {
    assert_eq!(
        render_with(
            "%ul\n  - for value in values\n    %li= value.name",
            object(vec![(
                "values",
                Json::Array(vec![object(vec![("name", text("Jane"))]), object(vec![("name", text("John"))])])
            )])
        ),
        "<ul><li>Jane</li><li>John</li></ul>"
    );
}

#[test]
fn fragments() {
    let fragments = vec![("foo/item.skt".to_string(), "%li= item.name".to_string())];
    let mut socket =
        Socket::parse("%ul\n  - for item in items\n    - fragment foo/item.skt\n    %li Separator").unwrap();
    socket.with_fragments(&fragments);
    socket
        .with_context(build_context(object(vec![(
            "items",
            Json::Array(vec![object(vec![("name", text("Jane"))]), object(vec![("name", text("John"))])])
        )])))
        .unwrap();
    assert_eq!(
        socket.to_html(),
        "<ul><li>Jane</li><li>Separator</li><li>John</li><li>Separator</li></ul>"
    );
}

#[test]
fn extends_and_blocks() {
    let fragments = vec![
        (
            "foo/page.skt".to_string(),
            ".foo\n  %h2= block page-header\n  - block contents".to_string(),
        ),
        (
            "foo/included.skt".to_string(),
            "- extends foo/page.skt\n- block page-header\n  Hello world\n\n\n\n- block contents\n  %p Hi\n  %p Hello\n\n\n"
                .to_string(),
        ),
    ];
    let mut socket = Socket::parse("%section\n  - fragment foo/included.skt").unwrap();
    socket.with_fragments(&fragments);
    assert_eq!(
        socket.to_html(),
        "<section><div class=\"foo\"><h2>Hello world</h2><p>Hi</p><p>Hello</p></div></section>"
    );
}

#[test]
fn markdown_support() {
    assert_eq!(
        Socket::parse(
            ".markdown-text\n  :markdown\n\n    # hello world!\n\n    ## hey\n.other\n  :markdown\n    hi\n\n    hello\n    * first\n    * second"
        )
        .unwrap()
        .to_html(),
        "<div class=\"markdown-text\"><h1>hello world!</h1>\n<h2>hey</h2>\n</div><div class=\"other\"><p>hi</p>\n<p>hello</p>\n<ul>\n<li>\n<p>first</p>\n</li>\n<li>\n<p>second</p>\n</li>\n</ul>\n</div>"
    )
}
