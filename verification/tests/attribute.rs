use plait::ast::{Attribute, AttributeValue};
use plait::parse::{parse_attribute, parse_attribute_value};
use plait::ParseError;

fn parse(input: &str) -> Result<Attribute, ParseError> {
    parse_attribute(input)
}

fn parse_value(input: &str) -> Result<AttributeValue, ParseError> {
    parse_attribute_value(input)
}

#[test]
fn name_value_literal() {
    let result = parse(r#"class="container""#).unwrap();
    match result {
        Attribute::NameValue { name, value, .. } => {
            assert_eq!(name.name, "class");
            assert!(matches!(value, Some(AttributeValue::Literal { .. })));
        }
        _ => panic!("expected NameValue"),
    }
}

#[test]
fn name_value_dynamic() {
    let result = parse("href=(url)").unwrap();
    match result {
        Attribute::NameValue { name, value, .. } => {
            assert_eq!(name.name, "href");
            assert!(matches!(value, Some(AttributeValue::Dynamic { .. })));
        }
        _ => panic!("expected NameValue"),
    }
}

#[test]
fn name_value_optional() {
    let result = parse("alt=[maybe_alt]").unwrap();
    match result {
        Attribute::NameValue { name, value, .. } => {
            assert_eq!(name.name, "alt");
            assert!(matches!(value, Some(AttributeValue::Optional { .. })));
        }
        _ => panic!("expected NameValue"),
    }
}

#[test]
fn name_value_boolean() {
    let result = parse("checked?[is_checked]").unwrap();
    match result {
        Attribute::NameValue { name, value, .. } => {
            assert_eq!(name.name, "checked");
            assert!(matches!(value, Some(AttributeValue::Boolean { .. })));
        }
        _ => panic!("expected NameValue"),
    }
}

#[test]
fn name_value_complex_name() {
    let result = parse(r#"hx-on:click="handler""#).unwrap();
    match result {
        Attribute::NameValue { name, value, .. } => {
            assert_eq!(name.name, "hx-on:click");
            assert!(matches!(value, Some(AttributeValue::Literal { .. })));
        }
        _ => panic!("expected NameValue"),
    }
}

#[test]
fn name_value_at_prefixed() {
    let result = parse("@click=(handle_click)").unwrap();
    match result {
        Attribute::NameValue { name, value, .. } => {
            assert_eq!(name.name, "@click");
            assert!(matches!(value, Some(AttributeValue::Dynamic { .. })));
        }
        _ => panic!("expected NameValue"),
    }
}

#[test]
fn spread_simple() {
    let result = parse("..(attrs)").unwrap();
    match result {
        Attribute::Spread { .. } => {}
        _ => panic!("expected Spread"),
    }
}

#[test]
fn spread_complex_expression() {
    let result = parse("..(get_attrs())").unwrap();
    match result {
        Attribute::Spread { .. } => {}
        _ => panic!("expected Spread"),
    }
}

#[test]
fn spread_field_access() {
    let result = parse("..(self.attrs)").unwrap();
    match result {
        Attribute::Spread { .. } => {}
        _ => panic!("expected Spread"),
    }
}

#[test]
fn spread_method_chain() {
    let result = parse("..(props.extra_attrs())").unwrap();
    match result {
        Attribute::Spread { .. } => {}
        _ => panic!("expected Spread"),
    }
}

#[test]
fn error_spread_missing_parens() {
    let result = parse("..attrs");
    assert!(result.is_err());
    assert!(
        result
            .unwrap_err()
            .message()
            .contains("expected '(expression)' after '..'")
    );
}

#[test]
fn error_empty_input() {
    let result = parse("");
    assert!(result.is_err());
}

#[test]
fn attribute_name_value_literal() {
    let result = parse(r#"class="container""#).unwrap();
    match result {
        Attribute::NameValue { name, value, .. } => {
            assert_eq!(name.name, "class");
            assert!(matches!(value, Some(AttributeValue::Literal { .. })));
        }
        _ => panic!("expected NameValue"),
    }
}

#[test]
fn attribute_name_value_dynamic() {
    let result = parse("href=(url)").unwrap();
    match result {
        Attribute::NameValue { name, value, .. } => {
            assert_eq!(name.name, "href");
            assert!(matches!(value, Some(AttributeValue::Dynamic { .. })));
        }
        _ => panic!("expected NameValue"),
    }
}

#[test]
fn attribute_name_value_optional() {
    let result = parse("alt=[maybe_alt]").unwrap();
    match result {
        Attribute::NameValue { name, value, .. } => {
            assert_eq!(name.name, "alt");
            assert!(matches!(value, Some(AttributeValue::Optional { .. })));
        }
        _ => panic!("expected NameValue"),
    }
}

#[test]
fn attribute_name_value_boolean() {
    let result = parse("checked?[is_checked]").unwrap();
    match result {
        Attribute::NameValue { name, value, .. } => {
            assert_eq!(name.name, "checked");
            assert!(matches!(value, Some(AttributeValue::Boolean { .. })));
        }
        _ => panic!("expected NameValue"),
    }
}

#[test]
fn attribute_name_value_complex_name() {
    let result = parse(r#"hx-on:click="handler""#).unwrap();
    match result {
        Attribute::NameValue { name, value, .. } => {
            assert_eq!(name.name, "hx-on:click");
            assert!(matches!(value, Some(AttributeValue::Literal { .. })));
        }
        _ => panic!("expected NameValue"),
    }
}

#[test]
fn attribute_name_value_at_prefixed() {
    let result = parse("@click=(handle_click)").unwrap();
    match result {
        Attribute::NameValue { name, value, .. } => {
            assert_eq!(name.name, "@click");
            assert!(matches!(value, Some(AttributeValue::Dynamic { .. })));
        }
        _ => panic!("expected NameValue"),
    }
}

#[test]
fn attribute_spread_simple() {
    let result = parse("..(attrs)").unwrap();
    match result {
        Attribute::Spread { .. } => {}
        _ => panic!("expected Spread"),
    }
}

#[test]
fn attribute_spread_complex_expression() {
    let result = parse("..(get_attrs())").unwrap();
    match result {
        Attribute::Spread { .. } => {}
        _ => panic!("expected Spread"),
    }
}

#[test]
fn attribute_spread_field_access() {
    let result = parse("..(self.attrs)").unwrap();
    match result {
        Attribute::Spread { .. } => {}
        _ => panic!("expected Spread"),
    }
}

#[test]
fn attribute_spread_method_chain() {
    let result = parse("..(props.extra_attrs())").unwrap();
    match result {
        Attribute::Spread { .. } => {}
        _ => panic!("expected Spread"),
    }
}

#[test]
fn attribute_error_spread_missing_parens() {
    let result = parse("..attrs");
    assert!(result.is_err());
    assert!(
        result
            .unwrap_err()
            .message()
            .contains("expected '(expression)' after '..'")
    );
}

#[test]
fn attribute_error_empty_input() {
    let result = parse("");
    assert!(result.is_err());
}

#[test]
fn literal_string() {
    let result = parse_value(r#"="hello""#).unwrap();
    assert!(matches!(result, AttributeValue::Literal { value } if value == "hello"));

    let result = parse_value(r#"="container flex""#).unwrap();
    assert!(
        matches!(result, AttributeValue::Literal { value } if value == "container flex")
    );
}

#[test]
fn dynamic_expression() {
    let result = parse_value("=(url)").unwrap();
    assert!(matches!(result, AttributeValue::Dynamic { .. }));

    let result = parse_value("=(foo.bar())").unwrap();
    assert!(matches!(result, AttributeValue::Dynamic { .. }));

    let result = parse_value("=(a + b)").unwrap();
    assert!(matches!(result, AttributeValue::Dynamic { .. }));
}

#[test]
fn optional_expression() {
    let result = parse_value("=[maybe_alt]").unwrap();
    assert!(matches!(result, AttributeValue::Optional { .. }));

    let result = parse_value("=[some_option.as_ref()]").unwrap();
    assert!(matches!(result, AttributeValue::Optional { .. }));
}

#[test]
fn boolean_expression() {
    let result = parse_value("?[is_checked]").unwrap();
    assert!(matches!(result, AttributeValue::Boolean { .. }));

    let result = parse_value("?[a && b]").unwrap();
    assert!(matches!(result, AttributeValue::Boolean { .. }));

    let result = parse_value("?[items.is_empty()]").unwrap();
    assert!(matches!(result, AttributeValue::Boolean { .. }));
}

#[test]
fn error_missing_equals_or_question() {
    let result = parse_value("hello");
    assert!(result.is_err());
    assert!(
        result
            .unwrap_err()
            .message()
            .contains("expected '=' or '?[bool_expr]'")
    );
}

#[test]
fn error_invalid_after_equals() {
    let result = parse_value("= invalid");
    assert!(result.is_err());
    assert!(
        result
            .unwrap_err()
            .message()
            .contains("expected string literal, (expression), or [expression] after '='")
    );
}
