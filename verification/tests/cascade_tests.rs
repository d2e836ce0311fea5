use markedly::{
    Attribute, AttributeList, Attributes, ComponentTemplate, ConditionalEvaluator, Error, Style,
    StyleComponent, TableRuntime, UiContext, Value,
};

fn node(class: &str, attributes: Vec<Attribute>) -> ComponentTemplate {
    ComponentTemplate {
        class: class.to_string(),
        line: 1,
        attributes: AttributeList::new(attributes),
        children: Vec::new(),
    }
}

fn rule(class: &str, attributes: Vec<Attribute>) -> StyleComponent {
    StyleComponent { class: class.to_string(), attributes: AttributeList::new(attributes) }
}

fn read(attrs: &Attributes, key: &str) -> Option<Value> {
    attrs.attribute_optional(key, |v: &Value| Ok::<Value, Error>(v.clone())).unwrap()
}

#[test]
fn local_attribute_overrides_style() {
    let template = node("A", vec![Attribute::new("x".to_string(), Value::Integer(2))]);
    let context = UiContext {
        style: Style { components: vec![rule("A", vec![Attribute::new(
            "x".to_string(),
            Value::Integer(1),
        )])] },
        runtime: TableRuntime::empty(),
    };
    let resolved = Attributes::resolve(&template, &context).unwrap();
    assert_eq!(read(&resolved, "x"), Some(Value::Integer(2)));
}

#[test]
fn later_style_rule_wins() {
    let template = node("A", Vec::new());
    let context = UiContext {
        style: Style {
            components: vec![
                rule("A", vec![Attribute::new_conditional(
                    "x".to_string(),
                    Value::Integer(1),
                    "first".to_string(),
                )]),
                rule("A", vec![Attribute::new_conditional(
                    "x".to_string(),
                    Value::Integer(9),
                    "second".to_string(),
                )]),
            ],
        },
        runtime: TableRuntime::new(vec![
            ("first".to_string(), true),
            ("second".to_string(), true),
        ]),
    };
    let resolved = Attributes::resolve(&template, &context).unwrap();
    assert_eq!(read(&resolved, "x"), Some(Value::Integer(9)));
}

#[test]
fn rules_for_other_classes_do_not_apply() {
    let template = node("A", Vec::new());
    let context = UiContext {
        style: Style { components: vec![rule("B", vec![Attribute::new(
            "x".to_string(),
            Value::Integer(1),
        )])] },
        runtime: TableRuntime::empty(),
    };
    let resolved = Attributes::resolve(&template, &context).unwrap();
    assert_eq!(read(&resolved, "x"), None);
}

#[test]
fn false_conditional_excludes_the_attribute() {
    let template = node(
        "A",
        vec![
            Attribute::new_conditional("x".to_string(), Value::Integer(1), "off".to_string()),
            Attribute::new("y".to_string(), Value::Integer(2)),
        ],
    );
    let context = UiContext {
        style: Style { components: Vec::new() },
        runtime: TableRuntime::new(vec![("off".to_string(), false)]),
    };
    let resolved = Attributes::resolve(&template, &context).unwrap();
    assert_eq!(read(&resolved, "x"), None);
    assert_eq!(read(&resolved, "y"), Some(Value::Integer(2)));
}

#[test]
fn unknown_conditional_aborts_resolution() {
    let template = node("A", vec![Attribute::new_conditional(
        "x".to_string(),
        Value::Integer(1),
        "mystery".to_string(),
    )]);
    let context = UiContext {
        style: Style { components: Vec::new() },
        runtime: TableRuntime::empty(),
    };
    let result = Attributes::resolve(&template, &context);
    match result {
        Err(Error::Script { message }) => assert_eq!(message, "mystery"),
        other => panic!("expected a script error, got {:?}", other),
    }
}

#[test]
fn later_duplicate_key_wins_within_one_list() {
    let template = node(
        "A",
        vec![
            Attribute::new_conditional("x".to_string(), Value::Integer(1), "on".to_string()),
            Attribute::new_conditional("x".to_string(), Value::Integer(7), "on".to_string()),
        ],
    );
    let context = UiContext {
        style: Style { components: Vec::new() },
        runtime: TableRuntime::new(vec![("on".to_string(), true)]),
    };
    let resolved = Attributes::resolve(&template, &context).unwrap();
    assert_eq!(read(&resolved, "x"), Some(Value::Integer(7)));
}

#[test]
fn resolving_twice_yields_identical_mappings() {
    let template = node(
        "A",
        vec![
            Attribute::new("x".to_string(), Value::Integer(2)),
            Attribute::new_conditional("y".to_string(), Value::Integer(3), "on".to_string()),
        ],
    );
    let context = UiContext {
        style: Style { components: vec![rule("A", vec![Attribute::new(
            "z".to_string(),
            Value::String("s".into()),
        )])] },
        runtime: TableRuntime::new(vec![("on".to_string(), true)]),
    };
    let first = Attributes::resolve(&template, &context).unwrap();
    let second = Attributes::resolve(&template, &context).unwrap();
    for key in ["x", "y", "z", "absent"] {
        assert_eq!(read(&first, key), read(&second, key));
    }
    assert_eq!(read(&first, "x"), Some(Value::Integer(2)));
    assert_eq!(read(&first, "y"), Some(Value::Integer(3)));
    assert_eq!(read(&first, "z"), Some(Value::String("s".into())));
}

#[test]
fn resolve_keeps_class_and_line_for_errors() {
    let template = ComponentTemplate {
        class: "button".to_string(),
        line: 7,
        attributes: AttributeList::new(vec![Attribute::new(
            "x".to_string(),
            Value::Integer(1),
        )]),
        children: Vec::new(),
    };
    let context = UiContext {
        style: Style { components: Vec::new() },
        runtime: TableRuntime::empty(),
    };
    let resolved = Attributes::resolve(&template, &context).unwrap();
    let failed = resolved.attribute(
        "x",
        |_v: &Value| Err::<i64, Error>(Error::Script { message: "bad".to_string() }),
        0,
    );
    match failed {
        Err(Error::Attribute { component, line, field, inner }) => {
            assert_eq!(component, "button");
            assert_eq!(line, 7);
            assert_eq!(field, "x");
            match *inner {
                Error::Script { message } => assert_eq!(message, "bad"),
                other => panic!("expected the inner script error, got {:?}", other),
            }
        }
        other => panic!("expected a wrapped attribute error, got {:?}", other),
    }
}

#[test]
fn check_conditional_follows_the_runtime() {
    let runtime = TableRuntime::new(vec![("on".to_string(), true), ("off".to_string(), false)]);
    let plain = Attribute::new("x".to_string(), Value::Integer(1));
    assert_eq!(plain.check_conditional(&runtime).unwrap(), true);
    let gated_on =
        Attribute::new_conditional("x".to_string(), Value::Integer(1), "on".to_string());
    assert_eq!(gated_on.check_conditional(&runtime).unwrap(), true);
    let gated_off =
        Attribute::new_conditional("x".to_string(), Value::Integer(1), "off".to_string());
    assert_eq!(gated_off.check_conditional(&runtime).unwrap(), false);
    let unknown =
        Attribute::new_conditional("x".to_string(), Value::Integer(1), "other".to_string());
    assert!(unknown.check_conditional(&runtime).is_err());
}

#[test]
fn table_runtime_evaluates_first_match() {
    let runtime = TableRuntime::new(vec![
        ("flag".to_string(), true),
        ("flag".to_string(), false),
    ]);
    assert_eq!(runtime.evaluate("flag").unwrap(), true);
    match runtime.evaluate("absent") {
        Err(Error::Script { message }) => assert_eq!(message, "absent"),
        other => panic!("expected a script error, got {:?}", other),
    }
}

#[test]
fn attribute_list_get_returns_the_first_declaration() {
    let list = AttributeList::new(vec![
        Attribute::new_conditional("x".to_string(), Value::Integer(1), "a".to_string()),
        Attribute::new_conditional("x".to_string(), Value::Integer(2), "b".to_string()),
    ]);
    assert_eq!(list.len(), 2);
    assert_eq!(list.get("x"), Some(&Value::Integer(1)));
    assert_eq!(list.get("y"), None);
}
