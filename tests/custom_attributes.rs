use socket::parser::custom_attributes::{parse, unwrapped_string, wrapped_string};
use socket::{Attribute, AttributeValueComponent, Selector};

fn raw_custom_attribute(value: &str) -> Vec<AttributeValueComponent> {
    vec![AttributeValueComponent::RawValue(value.to_string())]
}

fn foo_bar() -> Vec<Selector> {
    vec![Selector::Key("foo".to_string()), Selector::Key("bar".to_string())]
}

#[test]
fn just_custom_attributes() {
    assert_eq!(
        parse("(lang=en)"),
        Ok((String::new(), vec![Attribute::Custom("lang".to_string(), raw_custom_attribute("en"))]))
    );

    assert_eq!(
        parse("(http-equiv=x-ua-compatible content=\"ie=edge\")").unwrap(),
        (
            String::new(),
            vec![
                Attribute::Custom("http-equiv".to_string(), raw_custom_attribute("x-ua-compatible")),
                Attribute::Custom("content".to_string(), raw_custom_attribute("ie=edge"))
            ]
        )
    );
}

#[test]
fn single_unwrapped_string() {
    assert_eq!(
        (String::new(), vec![AttributeValueComponent::RawValue("foo".to_string())]),
        unwrapped_string("foo").unwrap()
    );

    assert_eq!(
        (String::new(), vec![AttributeValueComponent::InterpolatedValue(foo_bar())]),
        unwrapped_string("{foo.bar}").unwrap()
    );

    assert_eq!(
        (
            String::new(),
            vec![
                AttributeValueComponent::RawValue("starting".to_string()),
                AttributeValueComponent::InterpolatedValue(foo_bar())
            ]
        ),
        unwrapped_string("starting{foo.bar}").unwrap()
    );
}

#[test]
fn single_wrapped_string() {
    assert_eq!(
        Ok((String::new(), vec![AttributeValueComponent::RawValue("foo".to_string())])),
        wrapped_string("\"foo\"")
    );
}

#[test]
fn single_wrapped_interpolation() {
    assert_eq!(
        (String::new(), vec![AttributeValueComponent::InterpolatedValue(foo_bar())]),
        wrapped_string("\"{foo.bar}\"").unwrap()
    );

    assert_eq!(
        (
            String::new(),
            vec![
                AttributeValueComponent::RawValue("starting".to_string()),
                AttributeValueComponent::InterpolatedValue(foo_bar())
            ]
        ),
        wrapped_string("\"starting{foo.bar}\"").unwrap()
    );
}
