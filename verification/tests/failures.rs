use plait::lower::{Op, Source};
use plait::parse::{
    parse_attribute, parse_attributes, parse_component, parse_node, parse_template,
};
use plait::run::MAX_DEPTH;
use plait::{
    build_attributes, html_impl, render_ops, render_template, Error, EscapeMode, Library,
    ParseError, ParseErrorKind, RenderError, Scope, TemplateError, Value,
};

fn scope(bindings: Vec<(&str, Value)>) -> Scope {
    let mut scope = Scope::new();
    for (key, value) in bindings {
        scope.bind(key, value);
    }
    scope
}

fn parse_failure(template: &str) -> ParseError {
    parse_template(template).unwrap_err()
}

fn render_failure(template: &str, bindings: Vec<(&str, Value)>) -> RenderError {
    match render_template(template, &scope(bindings)) {
        Err(TemplateError::Render(error)) => error,
        other => panic!("expected a failure of the render, got {other:?}"),
    }
}

#[test]
fn lexical_failures_carry_their_place() {
    assert_eq!(
        parse_failure("div { \"open"),
        ParseError { kind: ParseErrorKind::UnterminatedString, at: 6 }
    );
    assert_eq!(
        parse_failure("(r#\"raw\")"),
        ParseError { kind: ParseErrorKind::UnterminatedString, at: 1 }
    );
    assert_eq!(
        parse_failure("('\\n)"),
        ParseError { kind: ParseErrorKind::UnterminatedChar, at: 1 }
    );
    assert_eq!(
        parse_failure("div /* no end"),
        ParseError { kind: ParseErrorKind::UnterminatedComment, at: 4 }
    );
}

#[test]
fn comments_and_white_space_separate_tokens() {
    let nodes = parse_template("// a comment\n div /* in between */ { \"x\" } // the end").unwrap();
    assert_eq!(nodes.len(), 1);
    let html = render_template("div{/**/\"x\"/* */}", &Scope::new()).unwrap();
    assert_eq!(html, "<div>x</div>");
}

#[test]
fn braces_in_literals_are_no_delimiters() {
    let html = render_template(
        r##"div { "}" (f('{', "{", r#"}"#, b'}', 'a')) }"##,
        &scope(vec![(r##"f('{', "{", r#"}"#, b'}', 'a')"##, Value::Text("!".to_string()))]),
    )
    .unwrap();
    assert_eq!(html, "<div>}!</div>");
}

#[test]
fn string_literals_are_unescaped() {
    let html = render_template(
        r##""a\"b\\c\n\t\x41\'" r"\n" r#"q"q"#"##,
        &Scope::new(),
    )
    .unwrap();
    assert_eq!(html, "a&quot;b\\c\n\tA&#39;\\nq&quot;q");
    assert_eq!(
        parse_failure(r#""\u{41}""#).kind,
        ParseErrorKind::UnsupportedEscape
    );
    assert_eq!(parse_failure(r#""\xff""#).kind, ParseErrorKind::UnsupportedEscape);
    assert_eq!(parse_failure(r#"div("\q": "x") {}"#).kind, ParseErrorKind::UnsupportedEscape);
}

#[test]
fn delimiters_must_match() {
    assert_eq!(parse_failure("div { (a }").kind, ParseErrorKind::UnbalancedDelimiter);
    assert_eq!(parse_failure("div {").kind, ParseErrorKind::UnbalancedDelimiter);
    assert_eq!(parse_failure("(a]").kind, ParseErrorKind::UnbalancedDelimiter);
    assert_eq!(
        parse_failure("}"),
        ParseError { kind: ParseErrorKind::ExpectedElementName, at: 0 }
    );
}

#[test]
fn elements_fail_by_name_and_body() {
    assert_eq!(parse_failure("div").kind, ParseErrorKind::ExpectedElementBody);
    assert_eq!(parse_failure("br").kind, ParseErrorKind::ExpectedSemicolonAfterVoid);
    assert_eq!(parse_failure("br {}").kind, ParseErrorKind::ExpectedSemicolonAfterVoid);
    assert_eq!(parse_failure("my- {}").kind, ParseErrorKind::ElementNameEndsWithHyphen);
    assert_eq!(parse_failure("=").kind, ParseErrorKind::ExpectedElementName);
    assert_eq!(
        parse_failure("div { 1 }"),
        ParseError { kind: ParseErrorKind::ExpectedElementName, at: 6 }
    );
}

#[test]
fn element_names_are_put_into_kebab_case() {
    for (template, written) in [
        ("custom_element {}", "<custom-element></custom-element>"),
        ("my-custom-element {}", "<my-custom-element></my-custom-element>"),
        ("DIV {}", "<div></div>"),
        ("My_Tag-Part {}", "<my-tag-part></my-tag-part>"),
    ] {
        assert_eq!(render_template(template, &Scope::new()).unwrap(), written);
    }
    // a void element is known by its name in kebab case
    assert_eq!(render_template("BR;", &Scope::new()).unwrap(), "<br>");
}

#[test]
fn attributes_fail_by_name_and_value() {
    assert_eq!(parse_failure("div(: \"x\") {}").kind, ParseErrorKind::ExpectedAttributeName);
    assert_eq!(parse_failure("div(class:) {}").kind, ParseErrorKind::ExpectedExpression);
    assert_eq!(parse_failure("div(class?:) {}").kind, ParseErrorKind::ExpectedExpression);
    assert_eq!(parse_failure("div(class: #()) {}").kind, ParseErrorKind::ExpectedExpression);
    assert_eq!(parse_failure("div class= {}").kind, ParseErrorKind::InvalidAttributeValue);
    assert_eq!(parse_failure("div class?x {}").kind, ParseErrorKind::ExpectedAttributeValue);
    assert_eq!(parse_failure("div class=() {}").kind, ParseErrorKind::ExpectedExpression);
    assert_eq!(parse_failure("div class=(a : js) {}").kind, ParseErrorKind::InvalidEscapeMode);
    assert_eq!(parse_failure("div class=(a : raw b) {}").kind, ParseErrorKind::InvalidEscapeMode);
    assert_eq!(parse_failure("div ..attrs {}").kind, ParseErrorKind::ExpectedSpreadExpression);
    assert_eq!(parse_failure("div(..x) {}").kind, ParseErrorKind::ExpectedSpreadExpression);
    assert_eq!(parse_failure("div @ {}").kind, ParseErrorKind::ExpectedIdentifierAfterPrefix('@'));
    assert_eq!(
        parse_failure("div data- {}").kind,
        ParseErrorKind::ExpectedIdentifierAfterSeparator('-')
    );
    assert_eq!(parse_failure("div = {}").kind, ParseErrorKind::InvalidAttributeNameStart);
    assert_eq!(parse_attribute("").unwrap_err().kind, ParseErrorKind::ExpectedAttributeName);
    assert_eq!(
        parse_attribute("a b").unwrap_err(),
        ParseError { kind: ParseErrorKind::UnexpectedToken, at: 2 }
    );
    assert_eq!(parse_attributes("a b=\"c\" ..(d)").unwrap().len(), 3);
}

#[test]
fn nodes_fail_by_keyword() {
    assert_eq!(parse_failure("#x").kind, ParseErrorKind::InvalidAfterPound);
    assert_eq!(parse_failure("#").kind, ParseErrorKind::InvalidAfterPound);
    assert_eq!(parse_failure("()").kind, ParseErrorKind::ExpectedExpression);
    assert_eq!(parse_failure("#()").kind, ParseErrorKind::ExpectedExpression);
    assert_eq!(parse_failure("@()").kind, ParseErrorKind::ExpectedExpression);
    assert_eq!(parse_failure("if {}").kind, ParseErrorKind::ExpectedExpression);
    assert_eq!(parse_failure("if a").kind, ParseErrorKind::ExpectedBody);
    assert_eq!(parse_failure("if a {} else b").kind, ParseErrorKind::ExpectedBody);
    assert_eq!(parse_failure("for in xs {}").kind, ParseErrorKind::ExpectedExpression);
    assert_eq!(parse_failure("for x of xs {}").kind, ParseErrorKind::ExpectedIn);
    assert_eq!(parse_failure("for x in {}").kind, ParseErrorKind::ExpectedExpression);
    assert_eq!(parse_failure("match x { a }").kind, ParseErrorKind::ExpectedArrow);
    assert_eq!(parse_failure("match x { => \"a\" }").kind, ParseErrorKind::ExpectedExpression);
    assert_eq!(parse_failure("match x { a if => \"a\" }").kind, ParseErrorKind::ExpectedExpression);
    assert_eq!(parse_failure("match x { a => }").kind, ParseErrorKind::UnexpectedToken);
    assert_eq!(parse_failure("let x = 1").kind, ParseErrorKind::ExpectedSemicolon);
    assert_eq!(parse_failure("let = 1;").kind, ParseErrorKind::ExpectedExpression);
    assert_eq!(parse_failure("let x = ;").kind, ParseErrorKind::ExpectedExpression);
    assert_eq!(parse_failure("@ {}").kind, ParseErrorKind::ExpectedName);
    assert_eq!(parse_failure("@Name(a) {}").kind, ParseErrorKind::ExpectedColon);
    assert_eq!(parse_failure("@Name(1: a) {}").kind, ParseErrorKind::ExpectedName);
    assert_eq!(parse_failure("@Name(a: ) {}").kind, ParseErrorKind::ExpectedExpression);
    assert_eq!(
        parse_failure("@Name(; a b) {}").kind,
        ParseErrorKind::ExpectedAttributeSeparator
    );
    assert_eq!(parse_failure("@Name(a: b)").kind, ParseErrorKind::ExpectedBody);
    assert_eq!(parse_node("").unwrap_err().kind, ParseErrorKind::UnexpectedToken);
    assert_eq!(parse_node("\"a\" \"b\"").unwrap_err().kind, ParseErrorKind::UnexpectedToken);
}

#[test]
fn component_definitions_fail_by_part() {
    assert_eq!(parse_component("Name() {}").unwrap_err().kind, ParseErrorKind::ExpectedFn);
    assert_eq!(parse_component("fn () {}").unwrap_err().kind, ParseErrorKind::ExpectedName);
    assert_eq!(parse_component("fn Name(a) {}").unwrap_err().kind, ParseErrorKind::ExpectedColon);
    assert_eq!(
        parse_component("fn Name(a: ) {}").unwrap_err().kind,
        ParseErrorKind::ExpectedExpression
    );
    assert_eq!(parse_component("fn Name()").unwrap_err().kind, ParseErrorKind::ExpectedBody);
    assert_eq!(
        parse_component("fn Name() {} div {}").unwrap_err().kind,
        ParseErrorKind::UnexpectedToken
    );
    let definition = parse_component(
        "#[derive(Clone)] pub(crate) fn Name<'a, T: Into<String>>(a: HashMap<K, V>, b: &'a str,) where T: Copy { (a) }",
    )
    .unwrap();
    assert_eq!(definition.prelude.source, "#[derive(Clone)] pub(crate)");
    assert_eq!(definition.ident, "Name");
    assert_eq!(definition.generics.source, "<'a, T: Into<String>>");
    assert_eq!(definition.fields.len(), 2);
    assert_eq!(definition.fields[0].ident, "a");
    assert_eq!(definition.fields[0].ty.source, "HashMap<K, V>");
    assert_eq!(definition.fields[1].ty.source, "&'a str");
    assert_eq!(definition.where_clause.source, "where T: Copy");
    assert_eq!(definition.body.len(), 1);
}

#[test]
fn every_failure_has_a_message() {
    for template in [
        "div { \"open", "('\\n)", "div /*", "(a]", "\"\\q\"", "div { 1 }", "()", "div(: 1) {}",
        "div = {}", "div @ {}", "div a- {}", "div ..a {}", "div a?x {}", "div a= {}",
        "div a=(b: c) {}", "br {}", "div", "a- {}", "#x", "@N(; a b) {}", "if a", "@N(a) {}",
        "match x { a }", "for x {}", "let x",
    ] {
        let error = parse_failure(template);
        assert!(!error.message().is_empty(), "{template}");
    }
    assert_eq!(parse_component("x").unwrap_err().message(), "expected 'fn'");
    assert_eq!(parse_failure("@ {}").message(), "expected a name");
    assert_eq!(
        parse_failure("div a- {}").message(),
        "expected identifier after '-' in attribute name"
    );
    assert_eq!(parse_failure("div $ {}").message(), "expected identifier after '$'");
}

#[test]
fn a_template_that_cannot_be_read_gives_no_output() {
    assert_eq!(
        render_template("div { \"a\" } span", &Scope::new()),
        Err(TemplateError::Parse(ParseError {
            kind: ParseErrorKind::ExpectedElementBody,
            at: 16
        }))
    );
}

#[test]
fn expressions_need_a_value_of_the_right_kind() {
    assert_eq!(render_failure("(x)", vec![]), RenderError::Unbound);
    assert_eq!(render_failure("div(a: x) {}", vec![]), RenderError::Unbound);
    assert_eq!(render_failure("div(a?: x) {}", vec![]), RenderError::Unbound);
    assert_eq!(render_failure("div a?[x] {}", vec![]), RenderError::Unbound);
    assert_eq!(render_failure("if x {}", vec![]), RenderError::Unbound);
    assert_eq!(render_failure("for a in x {}", vec![]), RenderError::Unbound);
    assert_eq!(render_failure("match x {}", vec![]), RenderError::Unbound);
    assert_eq!(render_failure("@(x)", vec![]), RenderError::Unbound);
    assert_eq!(render_failure("div(..(x)) {}", vec![]), RenderError::Unbound);
    assert_eq!(render_failure("div(#attrs) {}", vec![]), RenderError::Unbound);

    let items = || Value::Items(vec![]);
    assert_eq!(render_failure("(x)", vec![("x", items())]), RenderError::Mismatch);
    assert_eq!(render_failure("div(a: x) {}", vec![("x", items())]), RenderError::Mismatch);
    assert_eq!(render_failure("div(a?: x) {}", vec![("x", items())]), RenderError::Mismatch);
    assert_eq!(
        render_failure("div a?[x] {}", vec![("x", Value::Text("t".to_string()))]),
        RenderError::Mismatch
    );
    assert_eq!(
        render_failure("if x {}", vec![("x", Value::Text("t".to_string()))]),
        RenderError::Mismatch
    );
    assert_eq!(
        render_failure("for a in x {}", vec![("x", Value::Flag(true))]),
        RenderError::Mismatch
    );
    assert_eq!(
        render_failure("match x { a => \"a\" }", vec![("x", Value::Flag(true))]),
        RenderError::Mismatch
    );
    assert_eq!(
        render_failure("match x { a => \"a\" }", vec![("x", Value::Arm(1, Scope::new()))]),
        RenderError::Mismatch
    );
    assert_eq!(render_failure("@(x)", vec![("x", Value::Flag(true))]), RenderError::Mismatch);
    assert_eq!(
        render_failure("div(..(x)) {}", vec![("x", Value::Flag(true))]),
        RenderError::Mismatch
    );
}

#[test]
fn components_must_be_defined() {
    assert_eq!(render_failure("@Name {}", vec![]), RenderError::UnknownComponent);
    assert_eq!(render_failure("#children", vec![]), RenderError::OutsideComponent);

    let mut library = Library::new();
    library.define("fn Name() { div { #children } }").unwrap();
    assert_eq!(
        library.render("@Name {}", &scope(vec![("Name", Value::Flag(true))])),
        Err(TemplateError::Render(RenderError::Mismatch))
    );
    assert_eq!(
        library.define("fn Broken( {}"),
        Err(ParseError { kind: ParseErrorKind::UnbalancedDelimiter, at: 9 })
    );
    assert_eq!(library.find("Name"), Some(0));
    assert_eq!(library.find("Broken"), None);
}

#[test]
fn a_component_that_calls_itself_ends_at_the_depth_limit() {
    let mut library = Library::new();
    library.define("fn Loop() { @Loop {} }").unwrap();
    assert_eq!(
        library.render("@Loop {}", &Scope::new()),
        Err(TemplateError::Render(RenderError::TooDeep))
    );
}

#[test]
fn blocks_nest_down_to_the_depth_limit() {
    let nested = |levels: usize| {
        let mut template = String::new();
        for _ in 0..levels {
            template.push_str("@if c { ");
        }
        template.push_str("\"x\"");
        for _ in 0..levels {
            template.push_str(" }");
        }
        template
    };
    let bindings = scope(vec![("c", Value::Flag(true))]);
    assert_eq!(render_template(&nested(1), &bindings).unwrap(), "x");
    assert_eq!(render_template(&nested(MAX_DEPTH), &bindings).unwrap(), "x");
    assert_eq!(
        render_template(&nested(MAX_DEPTH + 1), &bindings),
        Err(TemplateError::Render(RenderError::TooDeep))
    );
    // elements inside each other are no levels
    let mut elements = String::new();
    for _ in 0..2 * MAX_DEPTH {
        elements.push_str("div { ");
    }
    for _ in 0..2 * MAX_DEPTH {
        elements.push_str(" }");
    }
    let html = render_template(&elements, &bindings).unwrap();
    assert_eq!(html.as_str().len(), 2 * MAX_DEPTH * "<div></div>".len());
}

#[test]
fn operations_that_break_the_state_machine_fail() {
    let end = vec![Op::EndElement];
    assert_eq!(
        render_ops(&end, &Library::new(), &Scope::new()),
        Err(RenderError::Formatter(Error::NoElementToClose))
    );
    let attribute = vec![Op::WriteAttribute {
        name: "id".to_string(),
        value: Source::Literal("x".to_string()),
        escape_mode: None,
    }];
    assert_eq!(
        render_ops(&attribute, &Library::new(), &Scope::new()),
        Err(RenderError::Formatter(Error::AttributeOutsideTag))
    );
    let content = vec![
        Op::StartElement { name: "br".to_string() },
        Op::WriteContent { value: Source::Literal("x".to_string()), escape_mode: None },
    ];
    assert_eq!(
        render_ops(&content, &Library::new(), &Scope::new()),
        Err(RenderError::Formatter(Error::ContentInVoidElement))
    );
}

#[test]
fn lowering_keeps_document_order() {
    let ops = html_impl(r#"div(id: "a", class: (c), hidden) { "t" (e) br; } #doctype"#).unwrap();
    assert_eq!(ops.len(), 10);
    assert!(matches!(&ops[0], Op::StartElement { name } if name == "div"));
    assert!(matches!(
        &ops[1],
        Op::WriteAttribute { name, value: Source::Literal(v), escape_mode: None }
            if name == "id" && v == "a"
    ));
    assert!(matches!(
        &ops[2],
        Op::WriteAttribute { name, value: Source::Expr(v), escape_mode: None }
            if name == "class" && v == "(c)"
    ));
    assert!(matches!(
        &ops[3],
        Op::WriteBooleanAttribute { name, condition: None } if name == "hidden"
    ));
    assert!(matches!(
        &ops[4],
        Op::WriteContent { value: Source::Literal(v), escape_mode: None } if v == "t"
    ));
    assert!(matches!(
        &ops[5],
        Op::WriteContent { value: Source::Expr(v), escape_mode: None } if v == "e"
    ));
    assert!(matches!(&ops[6], Op::StartElement { name } if name == "br"));
    assert!(matches!(&ops[7], Op::EndElement));
    assert!(matches!(&ops[8], Op::EndElement));
    assert!(matches!(
        &ops[9],
        Op::WriteContent { value: Source::Literal(v), escape_mode: Some(EscapeMode::Raw) }
            if v == "<!DOCTYPE html>"
    ));
}

#[test]
fn attributes_without_parentheses() {
    let html = render_template(
        r#"div id="a<b" class=(c) title=[t] hidden?[h] hx-on:click=("x" : raw) ..(more) { @if x { "y" } @else { "n" } }"#,
        &scope(vec![
            ("c", Value::Text("k <".to_string())),
            ("t", Value::Absent),
            ("h", Value::Flag(true)),
            ("\"x\"", Value::Text("<x>".to_string())),
            ("more", Value::Attributes(build_attributes("id=\"z\" class=\"m\"", &Scope::new()).unwrap())),
            ("x", Value::Flag(false)),
        ]),
    )
    .unwrap();
    assert_eq!(
        html,
        "<div class=\"k &lt; m\" id=\"z\" hidden hx-on:click=\"<x>\">n</div>"
    );
}

#[test]
fn fragments_and_loops() {
    let turn = |n: &str| scope(vec![("n", Value::Text(n.to_string()))]);
    let html = render_template(
        r#"{ "a" { "b" } } for n in ns { (n) "," } match m { _ if g => { "x" "y" }, _ => "z", }"#,
        &scope(vec![
            ("ns", Value::Items(vec![turn("1"), turn("2")])),
            ("m", Value::Arm(0, Scope::new())),
        ]),
    )
    .unwrap();
    assert_eq!(html, "ab1,2,xy");
}

#[test]
fn inner_scopes_come_first() {
    let inner = scope(vec![("x", Value::Text("inner".to_string()))]);
    let html = render_template(
        r#"(x) if let Some(x) = y { (x) (z) } (x)"#,
        &scope(vec![
            ("x", Value::Text("outer".to_string())),
            ("z", Value::Text("!".to_string())),
            ("let Some(x) = y", Value::Bound(inner)),
        ]),
    )
    .unwrap();
    assert_eq!(html, "outerinner!outer");
}

#[test]
fn one_node_for_a_named_formatter() {
    let (formatter, ops) = plait::render_impl(r#"f, div { "x" }"#).unwrap();
    assert_eq!(formatter, "f");
    assert_eq!(ops.len(), 3);
    assert_eq!(
        plait::render_impl(r#"div { "x" }"#).unwrap_err().kind,
        ParseErrorKind::UnexpectedToken
    );
    assert_eq!(
        plait::render_impl(r#", div {}"#).unwrap_err().kind,
        ParseErrorKind::ExpectedName
    );
    assert_eq!(
        plait::render_impl(r#"f, div {} span {}"#).unwrap_err().kind,
        ParseErrorKind::UnexpectedToken
    );
}

#[test]
fn host_expressions_pass_through_unread() {
    let turn = |n: i32| scope(vec![("i", Value::Text(n.to_string()))]);
    let html = render_template(
        r#"for i in 1..=5 { (i) } (x.y::<Vec<_>>()[0] + 4.9e3 - f(|a: u8| a, 'c', '\'', b"{")) (s.t : raw)"#,
        &scope(vec![
            ("1..=5", Value::Items((1..=5).map(turn).collect())),
            (
                r#"x.y::<Vec<_>>()[0] + 4.9e3 - f(|a: u8| a, 'c', '\'', b"{")"#,
                Value::Text("<v>".to_string()),
            ),
            ("s.t", Value::Text("<w>".to_string())),
        ]),
    )
    .unwrap();
    assert_eq!(html, "12345&lt;v&gt;<w>");

    // outside of every group, a colon ends the expression: what follows it
    // must be an escape mode
    assert_eq!(
        parse_failure("(|a: u8| a)"),
        ParseError { kind: ParseErrorKind::InvalidEscapeMode, at: 5 }
    );
    assert_eq!(
        parse_failure("(x : js)"),
        ParseError { kind: ParseErrorKind::InvalidEscapeMode, at: 5 }
    );
}
