use markedly::{ComponentTemplate, Decimal, Error, ParseErrorKind, Style, Template, Value};

fn parse_error_kind(result: Result<ComponentTemplate, Error>) -> ParseErrorKind {
    match result {
        Err(Error::Parser(pe)) => pe.kind,
        other => panic!("expected a parser error, got {:?}", other),
    }
}

#[test]
fn two_roots_is_multiple_roots_on_line_two() {
    match ComponentTemplate::from_str("root\nroot2\n") {
        Err(Error::Parser(pe)) => {
            assert_eq!(pe.kind, ParseErrorKind::MultipleRoots);
            assert_eq!(pe.line, 2);
        }
        other => panic!("expected a parser error, got {:?}", other),
    }
}

#[test]
fn excessive_indentation_names_the_offending_line() {
    match ComponentTemplate::from_str("root\n    child\n            deep\n") {
        Err(Error::Parser(pe)) => {
            assert_eq!(pe.kind, ParseErrorKind::ExcessiveIndentation);
            assert_eq!(pe.line, 3);
        }
        other => panic!("expected a parser error, got {:?}", other),
    }
}

#[test]
fn non_unit_indentation_kind() {
    let kind = parse_error_kind(ComponentTemplate::from_str("root\n  bad\n"));
    assert_eq!(kind, ParseErrorKind::NonUnitIndentation);
}

#[test]
fn empty_document_is_missing_root() {
    let kind = parse_error_kind(ComponentTemplate::from_str(""));
    assert_eq!(kind, ParseErrorKind::MissingRoot);
    let kind2 = parse_error_kind(ComponentTemplate::from_str("\n\n"));
    assert_eq!(kind2, ParseErrorKind::MissingRoot);
}

#[test]
fn duplicate_unconditional_keys_kind() {
    let kind = parse_error_kind(ComponentTemplate::from_str("root { key1: 5, key1: 10 }\n"));
    assert_eq!(kind, ParseErrorKind::DuplicateKey);
}

#[test]
fn unterminated_block_kind() {
    let kind = parse_error_kind(ComponentTemplate::from_str("root { key: 5,\n"));
    assert_eq!(kind, ParseErrorKind::UnterminatedBlock);
}

#[test]
fn unterminated_string_kind() {
    let kind = parse_error_kind(ComponentTemplate::from_str("root { key: \"oops }\n"));
    assert_eq!(kind, ParseErrorKind::UnterminatedString);
}

#[test]
fn invalid_literal_kind() {
    let kind = parse_error_kind(ComponentTemplate::from_str("root { key: nonsense }\n"));
    assert_eq!(kind, ParseErrorKind::InvalidLiteral);
}

#[test]
fn oversized_integer_is_invalid_literal() {
    let kind =
        parse_error_kind(ComponentTemplate::from_str("root { key: 99999999999999999999 }\n"));
    assert_eq!(kind, ParseErrorKind::InvalidLiteral);
    let max = ComponentTemplate::from_str("root { key: 9223372036854775807 }\n").unwrap();
    assert_eq!(max.attributes.get("key"), Some(&Value::Integer(i64::MAX)));
}

#[test]
fn unexpected_character_kind() {
    let kind = parse_error_kind(ComponentTemplate::from_str("root !\n"));
    assert_eq!(kind, ParseErrorKind::UnexpectedCharacter);
}

#[test]
fn negative_and_default_literals_parse() {
    let c = ComponentTemplate::from_str("root { a: -42, b: -2.5, c: default }\n").unwrap();
    assert_eq!(c.attributes.get("a"), Some(&Value::Integer(-42)));
    assert_eq!(c.attributes.get("b"), Some(&Value::Float(Decimal::new(-25, 1))));
    assert_eq!(c.attributes.get("c"), Some(&Value::Default));
}

#[test]
fn percentage_is_not_range_checked() {
    let c = ComponentTemplate::from_str("root { k: 150% }\n").unwrap();
    assert_eq!(c.attributes.get("k"), Some(&Value::Percentage(150)));
}

#[test]
fn trailing_zeros_are_kept_in_decimals() {
    let c = ComponentTemplate::from_str("root { k: 2.50 }\n").unwrap();
    assert_eq!(c.attributes.get("k"), Some(&Value::Float(Decimal::new(250, 2))));
    assert_ne!(Value::Float(Decimal::new(250, 2)), Value::Float(Decimal::new(25, 1)));
}

#[test]
fn nested_tuples_parse() {
    let c = ComponentTemplate::from_str("root { k: (1, (\"a\", 2), 3%) }\n").unwrap();
    assert_eq!(
        c.attributes.get("k"),
        Some(&Value::Tuple(vec![
            Value::Integer(1),
            Value::Tuple(vec![Value::String("a".into()), Value::Integer(2)]),
            Value::Percentage(3),
        ]))
    );
}

#[test]
fn component_lines_are_recorded() {
    let c = ComponentTemplate::from_str("root\n\n    child\n").unwrap();
    assert_eq!(c.line, 1);
    assert_eq!(c.children[0].line, 3);
}

#[test]
fn template_wraps_the_root() {
    let t = Template::from_str("root\n    child\n").unwrap();
    assert_eq!(t.root.class, "root");
    assert_eq!(t.root.children.len(), 1);
}

#[test]
fn style_parses_flat_rules_in_order() {
    let style = Style::from_str("button { color: \"red\" }\nlabel { size: 12 }\n").unwrap();
    assert_eq!(style.components.len(), 2);
    assert_eq!(style.components[0].class, "button");
    assert_eq!(
        style.components[0].attributes.get("color"),
        Some(&Value::String("red".into()))
    );
    assert_eq!(style.components[1].class, "label");
    assert_eq!(style.components[1].attributes.get("size"), Some(&Value::Integer(12)));
}

#[test]
fn style_rejects_indented_rules() {
    match Style::from_str("button { color: \"red\" }\n    label { size: 12 }\n") {
        Err(Error::Parser(pe)) => assert_eq!(pe.kind, ParseErrorKind::ExcessiveIndentation),
        other => panic!("expected a parser error, got {:?}", other),
    }
}

#[test]
fn empty_style_is_allowed() {
    let style = Style::from_str("").unwrap();
    assert_eq!(style.components.len(), 0);
}
