use markedly::{
    Attribute, AttributeList, Attributes, ComponentTemplate, Error, Style, TableRuntime,
    UiContext, Value,
};

fn resolved_with(attributes: Vec<Attribute>) -> Attributes {
    let template = ComponentTemplate {
        class: "panel".to_string(),
        line: 3,
        attributes: AttributeList::new(attributes),
        children: Vec::new(),
    };
    let context = UiContext {
        style: Style { components: Vec::new() },
        runtime: TableRuntime::empty(),
    };
    Attributes::resolve(&template, &context).unwrap()
}

fn as_integer(v: &Value) -> Result<i64, Error> {
    match v {
        Value::Integer(i) => Ok(*i),
        other => Err(Error::Script { message: format!("expected an integer, got {:?}", other) }),
    }
}

#[test]
fn attribute_returns_default_when_absent() {
    let attrs = resolved_with(Vec::new());
    let got = attrs.attribute("width", as_integer, 640).unwrap();
    assert_eq!(got, 640);
}

#[test]
fn attribute_converts_present_values() {
    let attrs = resolved_with(vec![Attribute::new("width".to_string(), Value::Integer(120))]);
    let got = attrs.attribute("width", as_integer, 640).unwrap();
    assert_eq!(got, 120);
}

#[test]
fn attribute_wraps_conversion_failures_with_context() {
    let attrs = resolved_with(vec![Attribute::new(
        "width".to_string(),
        Value::String("wide".into()),
    )]);
    match attrs.attribute("width", as_integer, 640) {
        Err(Error::Attribute { component, line, field, .. }) => {
            assert_eq!(component, "panel");
            assert_eq!(line, 3);
            assert_eq!(field, "width");
        }
        other => panic!("expected a wrapped attribute error, got {:?}", other),
    }
}

#[test]
fn attribute_optional_is_none_for_absent_and_default() {
    let attrs = resolved_with(vec![
        Attribute::new("color".to_string(), Value::Default),
        Attribute::new("width".to_string(), Value::Integer(9)),
    ]);
    assert_eq!(attrs.attribute_optional("missing", as_integer).unwrap(), None);
    assert_eq!(attrs.attribute_optional("color", as_integer).unwrap(), None);
    assert_eq!(attrs.attribute_optional("width", as_integer).unwrap(), Some(9));
}

#[test]
fn attribute_optional_wraps_conversion_failures_with_context() {
    let attrs = resolved_with(vec![Attribute::new(
        "width".to_string(),
        Value::Percentage(50),
    )]);
    match attrs.attribute_optional("width", as_integer) {
        Err(Error::Attribute { component, line, field, .. }) => {
            assert_eq!(component, "panel");
            assert_eq!(line, 3);
            assert_eq!(field, "width");
        }
        other => panic!("expected a wrapped attribute error, got {:?}", other),
    }
}

#[test]
fn values_compare_structurally() {
    assert_eq!(Value::Tuple(vec![Value::Integer(1), Value::Default]),
        Value::Tuple(vec![Value::Integer(1), Value::Default]));
    assert_ne!(Value::Tuple(vec![Value::Integer(1)]), Value::Tuple(vec![Value::Integer(2)]));
    assert_ne!(Value::Integer(1), Value::Percentage(1));
    assert_ne!(Value::String("a".into()), Value::String("b".into()));
}
