use plait::{build_attributes, render, render_template, Html, Scope, Value};

fn text(value: &str) -> Value {
    Value::Text(value.to_string())
}

fn scope(bindings: Vec<(&str, Value)>) -> Scope {
    let mut scope = Scope::new();
    for (key, value) in bindings {
        scope.bind(key, value);
    }
    scope
}

fn attrs() -> Html {
    let inner = build_attributes(
        r#"id="myI" class="my-4" hx-get=("<script>")"#,
        &scope(vec![("\"<script>\"", text("<script>"))]),
    )
    .unwrap();
    let attrs = build_attributes(
        r#"id="myId" class="my-4" checked ..(inner)"#,
        &scope(vec![("inner", Value::Attributes(inner))]),
    )
    .unwrap();
    render(attrs)
}

fn html(num: Option<f64>, a: &str) -> Html {
    let spread = build_attributes(r#"id="my" class="mx-4""#, &Scope::new()).unwrap();
    let turns = (1..=5)
        .map(|i| scope(vec![("i", text(&i.to_string()))]))
        .collect();
    let matched = match num {
        Some(n) if n > 5.0 => Value::Arm(0, Scope::new()),
        Some(_) => Value::Arm(1, Scope::new()),
        None => Value::Arm(2, Scope::new()),
    };
    render_template(
        r#"
        div id="myId" class="my-4" checked ..(attrs!(id="my" class="mx-4")) {
            div id="myI" class="my-4" hx-get=("<script>") {
                "Hello, World!"
            }
            @if let Some(n) = num {
                div id="myII" class="my-4" hx-get=("<script>") {
                    (n)
                }
            } @else {
                div id="myV" class="my-4" hx-get=("<script>") {
                    "Hello, World!"
                }
            }
            @for i in 1..=5 {
                div class="my-4" hx-get=("<script>") {
                    (i)
                }
            }
            @match a {
                "hello" => "Hello world!",
                _ => "Goodbye, World!",
            }
            @match num {
                Some(n) if n > 5.0 => "Number is greater than 5",
                Some(_) => "Number is less than or equal to 5",
                None => "Number is None",
            }
            br class="my-4";
        }
        "#,
        &scope(vec![
            (r#"attrs!(id="my" class="mx-4")"#, Value::Attributes(spread)),
            ("\"<script>\"", text("<script>")),
            (
                "let Some(n) = num",
                match num {
                    Some(n) => Value::Bound(scope(vec![("n", text(&n.to_string()))])),
                    None => Value::Absent,
                },
            ),
            ("1..=5", Value::Items(turns)),
            ("a", Value::Arm(if a == "hello" { 0 } else { 1 }, Scope::new())),
            ("num", matched),
        ]),
    )
    .unwrap()
}

const LOOP: &str = "<div class=\"my-4\" hx-get=\"&lt;script&gt;\">1</div>\
    <div class=\"my-4\" hx-get=\"&lt;script&gt;\">2</div>\
    <div class=\"my-4\" hx-get=\"&lt;script&gt;\">3</div>\
    <div class=\"my-4\" hx-get=\"&lt;script&gt;\">4</div>\
    <div class=\"my-4\" hx-get=\"&lt;script&gt;\">5</div>";

#[test]
fn test_attrs() {
    assert_eq!(
        attrs(),
        "class=\"my-4\" id=\"myI\" checked hx-get=\"&lt;script&gt;\""
    );
}

#[test]
fn lib_test_attrs() {
    let merged = attrs();
    assert!(merged.as_str().starts_with("class=\"my-4\""));
    assert_eq!(merged.as_str().matches("id=").count(), 1);
}

#[test]
fn test_html() {
    assert_eq!(
        html(Some(4.9), "hello1").to_string(),
        format!(
            "<div class=\"my-4 mx-4\" id=\"my\" checked>\
             <div class=\"my-4\" id=\"myI\" hx-get=\"&lt;script&gt;\">Hello, World!</div>\
             <div class=\"my-4\" id=\"myII\" hx-get=\"&lt;script&gt;\">4.9</div>\
             {LOOP}\
             Goodbye, World!\
             Number is less than or equal to 5\
             <br class=\"my-4\">\
             </div>"
        )
    );
}

#[test]
fn lib_test_html() {
    assert_eq!(
        html(None, "hello").to_string(),
        format!(
            "<div class=\"my-4 mx-4\" id=\"my\" checked>\
             <div class=\"my-4\" id=\"myI\" hx-get=\"&lt;script&gt;\">Hello, World!</div>\
             <div class=\"my-4\" id=\"myV\" hx-get=\"&lt;script&gt;\">Hello, World!</div>\
             {LOOP}\
             Hello world!\
             Number is None\
             <br class=\"my-4\">\
             </div>"
        )
    );
}
