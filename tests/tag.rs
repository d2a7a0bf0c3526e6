use socket::parser::tag::parse_html_class;

#[test]
fn tailwind_class() {
    assert_eq!(parse_html_class("w-3/4").unwrap(), (String::new(), "w-3/4".to_string()));
}

#[test]
fn tailwind_bracket_class() {
    assert_eq!(parse_html_class("h-[66vh]").unwrap(), (String::new(), "h-[66vh]".to_string()));
}
