use socket::parser::selector::parse;
use socket::Selector;

#[test]
fn selector_parser() {
    assert_eq!(
        parse("foo.bar[0].one.1.nested").unwrap(),
        (
            String::new(),
            vec![
                Selector::Key("foo".to_string()),
                Selector::Key("bar".to_string()),
                Selector::Index(0),
                Selector::Key("one".to_string()),
                Selector::Index(1),
                Selector::Key("nested".to_string()),
            ]
        )
    )
}
