use plait::classes::{ClassPart, Classes};
use plait::display::{
    Attribute, CloseStartTag, CloseTag, HtmlDisplay, MaybeAttribute, OpenStartTag, Raw,
    RawAttribute, RawMaybeAttribute, Text, UrlAttribute, UrlMaybeAttribute,
};
use plait::maybe_attr::MaybeAttributeValue;
use plait::{render, EscapeMode, Html};

fn shown(value: impl HtmlDisplay) -> String {
    let mut output = Html::new();
    value.html_fmt(&mut output);
    output.into_string()
}

#[test]
fn tags_write_themselves() {
    assert_eq!(shown(OpenStartTag { name: "div" }), "<div");
    assert_eq!(shown(CloseStartTag), ">");
    assert_eq!(shown(CloseTag { name: "div" }), "</div>");
}

#[test]
fn content_is_escaped_unless_raw() {
    assert_eq!(shown(Text("a<b")), "a&lt;b");
    assert_eq!(shown(Raw("a<b")), "a<b");
    assert_eq!(shown(Text(5u32)), "5");
    assert_eq!(shown("a&b"), "a&amp;b");
    assert_eq!(shown(&"a&b"), "a&amp;b");
    assert_eq!(shown(render("<p>")), "&lt;p&gt;");
}

#[test]
fn attributes_write_themselves_in_the_order_asked() {
    let mut output = Html::new();
    OpenStartTag { name: "a" }.html_fmt(&mut output);
    Attribute { name: "id", value: "x\"y" }.html_fmt(&mut output);
    RawAttribute { name: "class", value: "<c>" }.html_fmt(&mut output);
    UrlAttribute { name: "href", value: "/a?b=1&c=2" }.html_fmt(&mut output);
    UrlAttribute { name: "src", value: "javascript:alert(1)" }.html_fmt(&mut output);
    CloseStartTag.html_fmt(&mut output);
    CloseTag { name: "a" }.html_fmt(&mut output);
    assert_eq!(
        output,
        "<a id=\"x&quot;y\" class=\"<c>\" href=\"/a?b=1&amp;c=2\"></a>"
    );
}

#[test]
fn attributes_that_may_be_missing() {
    assert_eq!(shown(MaybeAttribute { name: "hidden", value: true }), " hidden");
    assert_eq!(shown(MaybeAttribute { name: "hidden", value: false }), "");
    assert_eq!(shown(MaybeAttribute { name: "id", value: Some("a<") }), " id=\"a&lt;\"");
    assert_eq!(shown(MaybeAttribute { name: "id", value: None::<&str> }), "");
    assert_eq!(shown(MaybeAttribute { name: "id", value: &Some("a") }), " id=\"a\"");
    assert_eq!(shown(RawMaybeAttribute { name: "id", value: Some("a<") }), " id=\"a<\"");
    assert_eq!(shown(RawMaybeAttribute { name: "id", value: true }), " id");
    assert_eq!(
        shown(UrlMaybeAttribute { name: "href", value: Some("https://example.com") }),
        " href=\"https://example.com\""
    );
    assert_eq!(shown(UrlMaybeAttribute { name: "href", value: Some("data:x") }), "");
    assert_eq!(shown(UrlMaybeAttribute { name: "href", value: None }), "");
}

#[test]
fn maybe_attribute_values() {
    assert!(true.should_write());
    assert!(!true.has_value());
    assert!(!false.should_write());
    assert!(Some("a").should_write());
    assert!(Some("a").has_value());
    assert!(!None::<&str>.should_write());
    let mut output = Html::new();
    Some("a<").write(&mut output, EscapeMode::Html);
    true.write(&mut output, EscapeMode::Html);
    None::<&str>.write(&mut output, EscapeMode::Raw);
    Some("b<").write(&mut output, EscapeMode::Raw);
    assert_eq!(output, "a&lt;b<");
}

#[test]
fn class_parts_are_joined_by_single_spaces() {
    assert_eq!(Classes(("btn",)).to_string(), "btn");
    assert_eq!(Classes(("btn", "btn-primary")).to_string(), "btn btn-primary");
    assert_eq!(Classes(("", "a", "", "b", "")).to_string(), "a b");
    assert_eq!(Classes(("", None::<&str>)).to_string(), "");
    assert_eq!(Classes(("a", Some("b"), None::<&str>, Some(""))).to_string(), "a b");
    assert_eq!(
        Classes(("a", Classes(("b", "c")), Classes(("", "")), &"d")).to_string(),
        "a b c d"
    );
    assert_eq!(
        Classes(("1", "2", "3", "4", "5", "6", "7", "8")).to_string(),
        "1 2 3 4 5 6 7 8"
    );
    assert_eq!(Classes("x").to_string(), "x");
    assert_eq!(Classes(Some("x")).to_string(), "x");
}

#[test]
fn class_parts_say_whether_they_are_skipped() {
    assert!("".should_skip());
    assert!(!"a".should_skip());
    assert!(None::<&str>.should_skip());
    assert!(Some("").should_skip());
    assert!(("", Some("")).should_skip());
    assert!(!("", "a").should_skip());
    assert!(Classes(("", "")).should_skip());
    let mut output = String::from("x");
    ("a", "", "b").write_to(&mut output);
    assert_eq!(output, "xa b");
}

#[test]
fn classes_are_escaped_where_they_are_written() {
    assert_eq!(render(Classes(("a", "<b>"))), "a &lt;b&gt;");
}
