use plait::{render_template, Html, Scope, Value};

fn text(value: &str) -> Value {
    Value::Text(value.to_string())
}

fn markup(value: &str) -> Value {
    Value::Markup(value.to_string())
}

fn scope(bindings: Vec<(&str, Value)>) -> Scope {
    let mut scope = Scope::new();
    for (key, value) in bindings {
        scope.bind(key, value);
    }
    scope
}

/// Compiles and renders a template with the values that the host gives to
/// its expressions.
fn html(template: &str, bindings: Vec<(&str, Value)>) -> Html {
    render_template(template, &scope(bindings)).unwrap()
}

fn optional(value: Option<&str>) -> Value {
    match value {
        Some(value) => Value::Text(value.to_string()),
        None => Value::Absent,
    }
}

#[test]
fn html_macro_tests_test_html_macro_text() {
    let html = html("\"<div></div>\"", vec![]);

    assert_eq!(html.to_string(), "&lt;div&gt;&lt;/div&gt;")
}

#[test]
fn html_macro_tests_test_html_macro_expr() {
    let text_value = "Hello World";
    let html = html("(text)", vec![("text", text(text_value))]);

    assert_eq!(html.to_string(), "Hello World")
}

#[test]
fn html_macro_tests_test_html_macro_text_and_expr() {
    let text_value = "World";
    let html = html("\"Hello \" (text)", vec![("text", text(text_value))]);

    assert_eq!(html.to_string(), "Hello World")
}

#[test]
fn html_macro_tests_test_html_macro_raw_expr() {
    let html = html("#(\"<div></div>\")", vec![("\"<div></div>\"", text("<div></div>"))]);

    assert_eq!(html.to_string(), "<div></div>")
}

#[test]
fn test_html_macro_doctype() {
    let html = html("#doctype", vec![]);

    assert_eq!(html.to_string(), "<!DOCTYPE html>")
}

#[test]
fn test_html_macro_let_binding() {
    let world = " World";
    let html = html("let hello = world.len(); (hello) (world)", vec![("hello", text(&world.len().to_string())), ("world", text(world))]);

    assert_eq!(html.to_string(), "6 World")
}

#[test]
fn html_macro_tests_test_html_macro_if_true() {
    let cond = true;
    let html = html("if cond { \"Hello World\" }", vec![("cond", Value::Flag(cond))]);

    assert_eq!(html.to_string(), "Hello World")
}

#[test]
fn html_macro_tests_test_html_macro_if_false() {
    let cond = false;
    let html = html("if cond { \"Hello World\" }", vec![("cond", Value::Flag(cond))]);

    assert!(html.to_string().is_empty())
}

#[test]
fn html_macro_tests_test_html_macro_if_else_true() {
    let cond = true;
    let html = html("if cond { \"Hello World\" } else { \"Goodbye World\" }", vec![("cond", Value::Flag(cond))]);

    assert_eq!(html.to_string(), "Hello World")
}

#[test]
fn html_macro_tests_test_html_macro_if_else_false() {
    let cond = false;
    let html = html("if cond { \"Hello World\" } else { \"Goodbye World\" }", vec![("cond", Value::Flag(cond))]);

    assert_eq!(html.to_string(), "Goodbye World")
}

#[test]
fn html_macro_tests_test_html_macro_if_else_if() {
    let element = "div";
    let html = html("if element == \"button\" { button {} } else if element == \"div\" { div {} } else { \"Unknown Element\" }", vec![("element == \"button\"", Value::Flag(element == "button")), ("element == \"div\"", Value::Flag(element == "div"))]);

    assert_eq!(html.to_string(), "<div></div>")
}

#[test]
fn html_macro_tests_test_html_macro_if_let_else() {
    let element = Some("div");
    let html = html("if let Some(element) = element { \"Hello\" if element == \"div\" { div {} } else { \"Unknown element\" } } else { \"No Element\" }", vec![("let Some(element) = element", match element { Some(element) => Value::Bound(scope(vec![("element == \"div\"", Value::Flag(element == "div"))])), None => Value::Absent })]);

    assert_eq!(html.to_string(), "Hello<div></div>")
}

#[test]
fn html_macro_tests_test_html_macro_for_loop() {
    let numbers = vec![1, 2, 3];
    let html = html("for number in numbers.iter() { li { (number) } }", vec![("numbers.iter()", Value::Items(numbers.iter().map(|number| scope(vec![("number", text(&number.to_string()))])).collect()))]);

    assert_eq!(html.to_string(), "<li>1</li><li>2</li><li>3</li>")
}

#[test]
fn html_macro_tests_test_html_macro_match() {
    let element = "div";
    let html = html("match element { \"button\" => { \"Hello\" button {} }, \"div\" => div {}, _ => \"Unknown Element\" }", vec![("element", match element { "button" => Value::Arm(0, Scope::new()), "div" => Value::Arm(1, Scope::new()), _ => Value::Arm(2, Scope::new()) })]);

    assert_eq!(html.to_string(), "<div></div>")
}

#[test]
fn html_macro_tests_test_html_macro_element() {
    let html = html("div { \"Hello \" span { \"World\" } }", vec![]);

    assert_eq!(html.to_string(), "<div>Hello <span>World</span></div>")
}

#[test]
fn html_macro_tests_test_html_macro_void_element() {
    let html = html("div { br; }", vec![]);

    assert_eq!(html.to_string(), "<div><br></div>")
}

#[test]
fn html_macro_tests_test_html_macro_custom_element() {
    let html = html("custom_element { \"Hello \" span { \"World\" } }", vec![]);

    assert_eq!(html.to_string(), "<custom-element>Hello <span>World</span></custom-element>")
}

#[test]
fn html_macro_tests_test_html_macro_attribute_text() {
    let html = html("div(class: \"btn\") { \"Hello World\" }", vec![]);

    assert_eq!(html.to_string(), "<div class=\"btn\">Hello World</div>")
}

#[test]
fn html_macro_tests_test_html_macro_attribute_str_name() {
    let html = html("div(\"@click\": \"callFunction()\") {}", vec![]);

    assert_eq!(html.to_string(), "<div @click=\"callFunction()\"></div>")
}

#[test]
fn html_macro_tests_test_html_macro_attribute_ident_rename() {
    let html = html("div(hx_target: \"body\") {}", vec![]);

    assert_eq!(html.to_string(), "<div hx-target=\"body\"></div>")
}

#[test]
fn html_macro_tests_test_html_macro_attribute_raw_expr() {
    let html = html("div(class: #(\"<div></div>\")) { \"Hello World\" }", vec![("\"<div></div>\"", text("<div></div>"))]);

    assert_eq!(html.to_string(), "<div class=\"<div></div>\">Hello World</div>")
}

#[test]
fn html_macro_tests_test_html_macro_attribute_without_value() {
    let html = html("button(checked) { \"Hello World\" }", vec![]);

    assert_eq!(html.to_string(), "<button checked>Hello World</button>")
}

#[test]
fn html_macro_tests_test_html_macro_optional_attribute_some() {
    let class = Some("btn");
    let html = html("div(class?: class) { \"Hello World\" }", vec![("class", optional(class))]);

    assert_eq!(html.to_string(), "<div class=\"btn\">Hello World</div>")
}

#[test]
fn html_macro_tests_test_html_macro_optional_attribute_none() {
    let class = None::<&str>;
    let html = html("div(class?: class) { \"Hello World\" }", vec![("class", optional(class))]);

    assert_eq!(html.to_string(), "<div>Hello World</div>")
}

#[test]
fn html_macro_tests_test_html_macro_optional_attribute_text() {
    let html = html("div(class?: \"btn\") { \"Hello World\" }", vec![]);

    assert_eq!(html.to_string(), "<div class=\"btn\">Hello World</div>")
}

#[test]
fn html_macro_tests_test_html_macro_optional_attribute_raw_expr() {
    let class = Some("<div></div>");
    let html = html("div(class?: #(class)) { \"Hello World\" }", vec![("class", optional(class))]);

    assert_eq!(html.to_string(), "<div class=\"<div></div>\">Hello World</div>")
}

#[test]
fn html_macro_tests_test_html_macro_boolean_attribute_true() {
    let checked = true;
    let html = html("button(checked?: checked) { \"Hello World\" }", vec![("checked", Value::Flag(checked))]);

    assert_eq!(html.to_string(), "<button checked>Hello World</button>")
}

#[test]
fn html_macro_tests_test_html_macro_boolean_attribute_false() {
    let checked = false;
    let html = html("button(checked?: checked) { \"Hello World\" }", vec![("checked", Value::Flag(checked))]);

    assert_eq!(html.to_string(), "<button>Hello World</button>")
}

#[test]
fn html_macro_tests_test_html_macro_multiple_attributes() {
    let class = Some("btn");
    let active = false;
    let html = html("button(id: \"button\", checked, class?: class, type: \"submit\", active?: active) { \"Hello World\" }", vec![("class", optional(class)), ("active", Value::Flag(active))]);

    assert_eq!(html.to_string(), "<button class=\"btn\" id=\"button\" checked type=\"submit\">Hello World</button>")
}

#[test]
fn html_macro_tests_test_html_macro_url_attribute_text() {
    let html = html("a(href: \"https://example.com\") { \"Hello World\" }", vec![]);

    assert_eq!(html.to_string(), "<a href=\"https://example.com\">Hello World</a>")
}

#[test]
fn html_macro_tests_test_html_macro_url_attribute_expr() {
    let url = "https://example.com";
    let html = html("a(href: url) { \"Hello World\" }", vec![("url", text(url))]);

    assert_eq!(html.to_string(), "<a href=\"https://example.com\">Hello World</a>")
}

#[test]
fn html_macro_tests_test_html_macro_optional_url_attribute_text() {
    let html = html("a(href?: \"https://example.com\") { \"Hello World\" }", vec![]);

    assert_eq!(html.to_string(), "<a href=\"https://example.com\">Hello World</a>")
}

#[test]
fn html_macro_tests_test_html_macro_optional_url_attribute_some() {
    let url = Some("https://example.com");
    let html = html("a(href?: url) { \"Hello World\" }", vec![("url", optional(url))]);

    assert_eq!(html.to_string(), "<a href=\"https://example.com\">Hello World</a>")
}

#[test]
fn html_macro_tests_test_html_macro_optional_url_attribute_none() {
    let html = html("a(href?: None::<&str>) { \"Hello World\" }", vec![("None::<&str>", optional(None::<&str>))]);

    assert_eq!(html.to_string(), "<a>Hello World</a>")
}

#[test]
fn html_macro_tests_test_html_macro_url_attribute_invalid() {
    let html = html("a(href: \"javascript:alert('XSS')\") { \"Hello World\" }", vec![]);

    assert_eq!(html.to_string(), "<a>Hello World</a>")
}

#[test]
fn html_macro_tests_test_html_macro_url_attribute_raw_expr() {
    let html = html("a(href: #(\"javascript:alert('XSS')\")) { \"Hello World\" }", vec![("\"javascript:alert('XSS')\"", text("javascript:alert('XSS')"))]);

    assert_eq!(html.to_string(), "<a href=\"javascript:alert('XSS')\">Hello World</a>")
}

#[test]
fn test_html_macro_nested() {
    let inner = html("p { \"Hello World\" }", vec![]);

    let outer = html("div { #(&inner) }", vec![("&inner", markup(&inner.to_string()))]);

    assert_eq!(outer.to_string(), "<div><p>Hello World</p></div>");
}
