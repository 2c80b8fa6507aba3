use plait::ast::AttributeName;
use plait::parse::{parse_attribute_name, parse_attribute_name_prefix};
use plait::ParseError;

fn parse(input: &str) -> Result<AttributeName, ParseError> {
    parse_attribute_name(input)
}

/// Reads a name and hands back what is left of the input.
fn parse_partial(input: &str) -> Result<(AttributeName, String), ParseError> {
    parse_attribute_name_prefix(input)
}

#[test]
fn simple_identifier() {
    assert_eq!(parse("class").unwrap().name, "class");
    assert_eq!(parse("href").unwrap().name, "href");
    assert_eq!(parse("id").unwrap().name, "id");
    assert_eq!(parse("_private").unwrap().name, "_private");
}

#[test]
fn with_hyphens() {
    assert_eq!(parse("data-value").unwrap().name, "data-value");
    assert_eq!(parse("hx-get").unwrap().name, "hx-get");
    assert_eq!(parse("x-data").unwrap().name, "x-data");
    assert_eq!(parse("aria-label").unwrap().name, "aria-label");
}

#[test]
fn with_colons() {
    assert_eq!(parse("hx-on:click").unwrap().name, "hx-on:click");
    assert_eq!(parse("xml:lang").unwrap().name, "xml:lang");
    assert_eq!(parse("xlink:href").unwrap().name, "xlink:href");
}

#[test]
fn with_dots() {
    assert_eq!(parse("x.data").unwrap().name, "x.data");
    assert_eq!(parse("v.model").unwrap().name, "v.model");
}

#[test]
fn at_prefixed() {
    assert_eq!(parse("@click").unwrap().name, "@click");
    assert_eq!(parse("@submit").unwrap().name, "@submit");
    assert_eq!(parse("@input").unwrap().name, "@input");
}

#[test]
fn dollar_prefixed() {
    assert_eq!(parse("$var").unwrap().name, "$var");
    assert_eq!(parse("$data").unwrap().name, "$data");
}

#[test]
fn colon_prefixed() {
    // Vue shorthand for v-bind
    assert_eq!(parse(":class").unwrap().name, ":class");
    assert_eq!(parse(":style").unwrap().name, ":style");
}

#[test]
fn pound_prefixed() {
    assert_eq!(parse("#ref").unwrap().name, "#ref");
    assert_eq!(parse("#anchor").unwrap().name, "#anchor");
}

#[test]
fn complex_combinations() {
    assert_eq!(parse("@click.shift").unwrap().name, "@click.shift");
    assert_eq!(parse("@keyup.page-down").unwrap().name, "@keyup.page-down");
    assert_eq!(
        parse("x-on:click.prevent").unwrap().name,
        "x-on:click.prevent"
    );
    assert_eq!(
        parse("hx-on:htmx:after-request").unwrap().name,
        "hx-on:htmx:after-request"
    );
    assert_eq!(
        parse("@click.stop.prevent").unwrap().name,
        "@click.stop.prevent"
    );
}

#[test]
fn attribute_name_error_empty_input() {
    let result = parse("");
    assert!(result.is_err());
    assert!(
        result
            .unwrap_err()
            .message()
            .contains("expected attribute name")
    );
}

#[test]
fn error_starts_with_hyphen() {
    let result = parse("-data");
    assert!(result.is_err());
}

#[test]
fn error_starts_with_dot() {
    let result = parse(".class");
    assert!(result.is_err());
}

#[test]
fn error_starts_with_equals() {
    let result = parse("=");
    assert!(result.is_err());
}

#[test]
fn error_starts_with_greater_than() {
    let result = parse(">");
    assert!(result.is_err());
}

#[test]
fn error_starts_with_slash() {
    let result = parse("/");
    assert!(result.is_err());
}

#[test]
fn error_starts_with_less_than() {
    let result = parse("<");
    assert!(result.is_err());
}

#[test]
fn error_at_only() {
    let result = parse("@");
    assert!(result.is_err());
    assert!(
        result
            .unwrap_err()
            .message()
            .contains("expected identifier after '@'")
    );
}

#[test]
fn error_dollar_only() {
    let result = parse("$");
    assert!(result.is_err());
    assert!(
        result
            .unwrap_err()
            .message()
            .contains("expected identifier after '$'")
    );
}

#[test]
fn error_colon_only() {
    let result = parse(":");
    assert!(result.is_err());
    assert!(
        result
            .unwrap_err()
            .message()
            .contains("expected identifier after ':'")
    );
}

#[test]
fn error_pound_only() {
    let result = parse("#");
    assert!(result.is_err());
    assert!(
        result
            .unwrap_err()
            .message()
            .contains("expected identifier after '#'")
    );
}

#[test]
fn error_trailing_hyphen() {
    let result = parse("data-");
    assert!(result.is_err());
    assert!(
        result
            .unwrap_err()
            .message()
            .contains("expected identifier after '-'")
    );
}

#[test]
fn error_trailing_colon() {
    let result = parse("hx-on:");
    assert!(result.is_err());
    assert!(
        result
            .unwrap_err()
            .message()
            .contains("expected identifier after ':'")
    );
}

#[test]
fn error_trailing_dot() {
    let result = parse("click.");
    assert!(result.is_err());
    assert!(
        result
            .unwrap_err()
            .message()
            .contains("expected identifier after '.'")
    );
}

#[test]
fn stops_at_equals() {
    let (attr, remaining) = parse_partial("data=value").unwrap();
    assert_eq!(attr.name, "data");
    assert!(remaining.starts_with("="), "remaining was: {}", remaining);
}

#[test]
fn stops_at_greater_than() {
    let (attr, remaining) = parse_partial("class>").unwrap();
    assert_eq!(attr.name, "class");
    assert!(remaining.starts_with(">"), "remaining was: {}", remaining);
}

#[test]
fn stops_at_slash() {
    let (attr, remaining) = parse_partial("disabled/").unwrap();
    assert_eq!(attr.name, "disabled");
    assert!(remaining.starts_with("/"), "remaining was: {}", remaining);
}

#[test]
fn stops_at_disallowed_punct() {
    // Stops at punctuation that's not -, :, or .
    let (attr, remaining) = parse_partial("data&more").unwrap();
    assert_eq!(attr.name, "data");
    assert!(remaining.starts_with("&"), "remaining was: {}", remaining);
}

#[test]
fn spaced_hyphen() {
    // "hx - get" has spaces in source, but Rust's tokenizer strips whitespace.
    // Token stream contains: [Ident(hx), Punct(-), Ident(get)]
    // Parser consumes all three and concatenates them.
    let (attr, remaining) = parse_partial("hx - get").unwrap();
    assert_eq!(attr.name, "hx-get");
    assert!(remaining.is_empty());
}
