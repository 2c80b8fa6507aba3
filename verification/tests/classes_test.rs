use plait::{ClassPart, Classes, Html, Library, Scope, Value};

fn text(value: &str) -> Value {
    Value::Text(value.to_string())
}

fn scope(bindings: Vec<(&str, Value)>) -> Scope {
    let mut scope = Scope::new();
    for (key, value) in bindings {
        scope.bind(key, value);
    }
    scope
}

const BUTTON: &str = r#"
    fn Button<'a>(class: Option<&'a str>) {
        button(class: classes!("btn", class)) {}
    }
"#;

const BUTTON_WITH_CLASS_PART: &str = r#"
    fn Button<C>(class: C) where C: ClassPart {
        button(class: classes!("btn", class)) {}
    }
"#;

/// Renders a call of `Button`, whose body joins `btn` and `class`.
fn button(definition: &str, call: &str, class: impl ClassPart) -> Html {
    let mut library = Library::new();
    library.define(definition).unwrap();
    let instance = scope(vec![(
        r#"classes!("btn", class)"#,
        text(&Classes(("btn", class)).to_string()),
    )]);
    library
        .render(call, &scope(vec![("Button", Value::Bound(instance))]))
        .unwrap()
}

#[test]
fn test_classes_macro() {
    let html = Library::new()
        .render(
            r#"button(class: classes!("btn", "btn-primary")) {}"#,
            &scope(vec![(
                r#"classes!("btn", "btn-primary")"#,
                text(&Classes(("btn", "btn-primary")).to_string()),
            )]),
        )
        .unwrap();

    assert_eq!(
        html.to_string(),
        "<button class=\"btn btn-primary\"></button>"
    )
}

#[test]
fn test_classes_macro_in_component() {
    let button_none = button(BUTTON, "@Button(class: None) {}", None::<&str>);

    assert_eq!(button_none.to_string(), "<button class=\"btn\"></button>");

    let button_some = button(
        BUTTON,
        r#"@Button(class: Some("btn-primary")) {}"#,
        Some("btn-primary"),
    );

    assert_eq!(
        button_some.to_string(),
        "<button class=\"btn btn-primary\"></button>"
    );
}

#[test]
fn test_classes_macro_in_component_with_class_part() {
    let button_none = button(
        BUTTON_WITH_CLASS_PART,
        "@Button(class: None::<&str>) {}",
        None::<&str>,
    );

    assert_eq!(button_none.to_string(), "<button class=\"btn\"></button>");

    let button_some = button(
        BUTTON_WITH_CLASS_PART,
        r#"@Button(class: Some("btn-primary")) {}"#,
        Some("btn-primary"),
    );

    assert_eq!(
        button_some.to_string(),
        "<button class=\"btn btn-primary\"></button>"
    );

    let button_classes = button(
        BUTTON_WITH_CLASS_PART,
        r#"@Button(class: classes!("btn-secondary", "btn-lg")) {}"#,
        Classes(("btn-secondary", "btn-lg")),
    );

    assert_eq!(
        button_classes.to_string(),
        "<button class=\"btn btn-secondary btn-lg\"></button>"
    );
}
