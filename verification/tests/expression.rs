use plait::parse::{parse_bracketed_expression, parse_escape_mode, parse_parenthesized_expression};
use plait::EscapeMode;

#[test]
fn test_parse_escape_mode_raw() {
    let input = "raw";
    let mode: EscapeMode = parse_escape_mode(input).unwrap();
    assert_eq!(mode, EscapeMode::Raw);
}

#[test]
fn test_parse_escape_mode_html() {
    let input = "html";
    let mode: EscapeMode = parse_escape_mode(input).unwrap();
    assert_eq!(mode, EscapeMode::Html);
}

#[test]
fn test_parse_escape_mode_invalid() {
    let input = "invalid";
    let result = parse_escape_mode(input);
    assert!(result.is_err());
}

#[test]
fn bracketed_expression_test_parse_expression_without_escape_mode() {
    let input = "[1 + 2]";
    let expression = parse_bracketed_expression(input).unwrap();
    assert_eq!(expression.expr.source, "1 + 2");
    assert_eq!(expression.escape_mode, None);
}

#[test]
fn bracketed_expression_test_parse_expression_with_escape_mode_raw() {
    let input = "[\"<div></div>\" : raw]";
    let expression = parse_bracketed_expression(input).unwrap();
    assert_eq!(expression.expr.source, "\"<div></div>\"");
    assert_eq!(expression.escape_mode, Some(EscapeMode::Raw));
}

#[test]
fn bracketed_expression_test_parse_expression_with_escape_mode_html() {
    let input = "[\"<div></div>\" : html]";
    let expression = parse_bracketed_expression(input).unwrap();
    assert_eq!(expression.expr.source, "\"<div></div>\"");
    assert_eq!(expression.escape_mode, Some(EscapeMode::Html));
}

#[test]
fn bracketed_expression_test_parse_expression_with_escape_mode_invalid() {
    let input = "[\"<div></div>\" : invalid]";
    let result = parse_bracketed_expression(input);
    assert!(result.is_err());
}

#[test]
fn bracketed_expression_test_parse_complex_expression_with_escape_mode_html() {
    let input = "[self.process()? : html]";
    let expression = parse_bracketed_expression(input).unwrap();
    assert_eq!(expression.expr.source, "self.process()?");
    assert_eq!(expression.escape_mode, Some(EscapeMode::Html));
}

#[test]
fn parenthesized_expression_test_parse_expression_without_escape_mode() {
    let input = "(1 + 2)";
    let expression = parse_parenthesized_expression(input).unwrap();
    assert_eq!(expression.expr.source, "1 + 2");
    assert_eq!(expression.escape_mode, None);
}

#[test]
fn parenthesized_expression_test_parse_expression_with_escape_mode_raw() {
    let input = "(\"<div></div>\" : raw)";
    let expression = parse_parenthesized_expression(input).unwrap();
    assert_eq!(expression.expr.source, "\"<div></div>\"");
    assert_eq!(expression.escape_mode, Some(EscapeMode::Raw));
}

#[test]
fn parenthesized_expression_test_parse_expression_with_escape_mode_html() {
    let input = "(\"<div></div>\" : html)";
    let expression = parse_parenthesized_expression(input).unwrap();
    assert_eq!(expression.expr.source, "\"<div></div>\"");
    assert_eq!(expression.escape_mode, Some(EscapeMode::Html));
}

#[test]
fn parenthesized_expression_test_parse_expression_with_escape_mode_invalid() {
    let input = "(\"<div></div>\" : invalid)";
    let result = parse_parenthesized_expression(input);
    assert!(result.is_err());
}

#[test]
fn parenthesized_expression_test_parse_complex_expression_with_escape_mode_html() {
    let input = "(self.process()? : html)";
    let expression = parse_parenthesized_expression(input).unwrap();
    assert_eq!(expression.expr.source, "self.process()?");
    assert_eq!(expression.escape_mode, Some(EscapeMode::Html));
}
