use plait::escape::{escape_html, needs_html_escape};
use plait::Html;

#[test]
fn escape_html_basic() {
    let mut output = Html::new();
    escape_html(&mut output, "Hello, World!");
    assert_eq!(output, "Hello, World!");
}

#[test]
fn escape_html_quotes() {
    let mut output = Html::new();
    escape_html(&mut output, r#"He said "hello""#);
    assert_eq!(output, "He said &quot;hello&quot;");
}

#[test]
fn escape_html_single_quotes() {
    let mut output = Html::new();
    escape_html(&mut output, "It's fine");
    assert_eq!(output, "It&#39;s fine");
}

#[test]
fn escape_html_all_special() {
    let mut output = Html::new();
    escape_html(&mut output, "<\"'>&");
    assert_eq!(output, "&lt;&quot;&#39;&gt;&amp;");
}

#[test]
fn escape_unicode() {
    let mut output = Html::new();
    escape_html(&mut output, "Hello <世界>");
    assert_eq!(output, "Hello &lt;世界&gt;");
}

#[test]
fn escape_empty_string() {
    let mut output = Html::new();
    escape_html(&mut output, "");
    assert_eq!(output, "");
}

#[test]
fn html_escape_html_basic() {
    let mut output = Html::new();
    escape_html(&mut output, "Hello, World!");
    assert_eq!(output, "Hello, World!");
}

#[test]
fn html_escape_html_quotes() {
    let mut output = Html::new();
    escape_html(&mut output, r#"He said "hello""#);
    assert_eq!(output, "He said &quot;hello&quot;");
}

#[test]
fn html_escape_html_single_quotes() {
    let mut output = Html::new();
    escape_html(&mut output, "It's fine");
    assert_eq!(output, "It&#39;s fine");
}

#[test]
fn html_escape_html_all_special() {
    let mut output = Html::new();
    escape_html(&mut output, "<\"'>&");
    assert_eq!(output, "&lt;&quot;&#39;&gt;&amp;");
}

#[test]
fn needs_html_escape_detection() {
    assert!(!needs_html_escape("Hello, World!"));
    assert!(needs_html_escape("<script>"));
    assert!(needs_html_escape("\"quoted\""));
    assert!(needs_html_escape("foo & bar"));
    assert!(needs_html_escape("a > b"));
    assert!(needs_html_escape("It's fine"));
}

#[test]
fn html_escape_unicode() {
    let mut output = Html::new();
    escape_html(&mut output, "Hello <世界>");
    assert_eq!(output, "Hello &lt;世界&gt;");
}

#[test]
fn html_escape_empty_string() {
    let mut output = Html::new();
    escape_html(&mut output, "");
    assert_eq!(output, "");
}
