use plait::{Classes, Html, Library, Scope, Value};

fn text(value: &str) -> Value {
    Value::Text(value.to_string())
}

fn markup(value: &str) -> Value {
    Value::Markup(value.to_string())
}

fn scope(bindings: Vec<(&str, Value)>) -> Scope {
    let mut scope = Scope::new();
    for (key, value) in bindings {
        scope.bind(key, value);
    }
    scope
}

fn bound(bindings: Vec<(&str, Value)>) -> Value {
    Value::Bound(scope(bindings))
}

const BUTTON: &str = r#"
    pub fn Button<'a>(class: Option<&'a str>) {
        button(class: merge_classes!("btn", class), #attrs) {
            #children
        }
    }
"#;

const CARD: &str = r#"
    pub fn Card<T>(title: T) where T: ToHtml {
        div(class: "card") {
            h1 { (title) }
            @Button(class: "btn-primary".into(); #attrs) {
                #children
            }
        }
    }
"#;

const BUTTON_WITH_CLASSES: &str = r#"
    pub fn Button<'a>(class: Option<&'a str>) {
        button(class: classes!("btn", class), #attrs) {
            #children
        }
    }
"#;

const CARD_WITH_DISPLAY: &str = r#"
    pub fn Card<T>(title: T) where T: HtmlDisplay {
        div(class: "card") {
            h1 { @(title) }
            @Button(class: "btn-primary".into(); #attrs) {
                #children
            }
        }
    }
"#;

fn library(definitions: &[&str]) -> Library {
    let mut library = Library::new();
    for definition in definitions {
        library.define(definition).unwrap();
    }
    library
}

/// What the component `Button` binds when it is called with `class`.
fn button(merge: &str, class: Option<&str>) -> Value {
    bound(vec![(merge, text(&Classes(("btn", class)).to_string()))])
}

fn render(library: &Library, template: &str, bindings: Vec<(&str, Value)>) -> Html {
    library.render(template, &scope(bindings)).unwrap()
}

#[test]
fn component_macro_test_test_button() {
    let disabled = false;

    let html = render(
        &library(&[BUTTON, CARD]),
        r#"@Button(class: None; id: "btn1", disabled?: disabled) { "Click me" }"#,
        vec![
            ("disabled", Value::Flag(disabled)),
            ("Button", button(r#"merge_classes!("btn", class)"#, None)),
        ],
    );

    assert_eq!(html, "<button class=\"btn\" id=\"btn1\">Click me</button>");
}

#[test]
fn component_macro_test_test_card() {
    let disabled = true;
    let title = Library::new()
        .render(r#"span { "My card" }"#, &Scope::new())
        .unwrap();

    let html = render(
        &library(&[BUTTON, CARD]),
        r#"@Card(title: html! { span { "My card" } }; disabled?: disabled) { "Click me" }"#,
        vec![
            ("disabled", Value::Flag(disabled)),
            (
                "Card",
                bound(vec![
                    ("title", markup(&title.to_string())),
                    (
                        "Button",
                        button(r#"merge_classes!("btn", class)"#, Some("btn-primary")),
                    ),
                ]),
            ),
        ],
    );

    assert_eq!(
        html,
        "<div class=\"card\"><h1><span>My card</span></h1><button class=\"btn btn-primary\" disabled>Click me</button></div>"
    );
}

#[test]
fn component_macro_tests_test_button() {
    let disabled = false;

    let html = render(
        &library(&[BUTTON_WITH_CLASSES, CARD_WITH_DISPLAY]),
        r#"@Button(class: None; id: "btn1", disabled?: disabled) { "Click me" }"#,
        vec![
            ("disabled", Value::Flag(disabled)),
            ("Button", button(r#"classes!("btn", class)"#, None)),
        ],
    );

    assert_eq!(
        html.to_string(),
        "<button class=\"btn\" id=\"btn1\">Click me</button>"
    );
}

#[test]
fn component_macro_tests_test_card() {
    let disabled = true;
    let title = Library::new()
        .render(r#"span { "My card" }"#, &Scope::new())
        .unwrap();

    let html = render(
        &library(&[BUTTON_WITH_CLASSES, CARD_WITH_DISPLAY]),
        r#"@Card(title: html! { span { "My card" } }; disabled?: disabled) { "Click me" }"#,
        vec![
            ("disabled", Value::Flag(disabled)),
            (
                "Card",
                bound(vec![
                    ("title", markup(&title.to_string())),
                    (
                        "Button",
                        button(r#"classes!("btn", class)"#, Some("btn-primary")),
                    ),
                ]),
            ),
        ],
    );

    assert_eq!(
        html.to_string(),
        "<div class=\"card\"><h1><span>My card</span></h1><button class=\"btn btn-primary\" disabled>Click me</button></div>"
    );
}
