use plait::{Attributes, Error, Html, HtmlFormatter, PreEscaped};

#[test]
fn test_simple_string() {
    let mut output = Html::new();
    let mut f = HtmlFormatter::new(&mut output);

    f.write_content("Hello", None).unwrap();

    assert_eq!(output, "Hello");
}

#[test]
fn test_simple_element() {
    let mut output = Html::new();
    let mut f = HtmlFormatter::new(&mut output);

    f.start_element("div");
    f.write_content("Hello", None).unwrap();
    f.end_element().unwrap();

    assert_eq!(output, "<div>Hello</div>");
}

#[test]
fn test_element_with_attributes() {
    let mut output = Html::new();
    let mut f = HtmlFormatter::new(&mut output);

    f.start_element("div");
    f.write_attribute("class", "container", None).unwrap();
    f.write_attribute("id", "main", None).unwrap();
    f.write_content("Content", None).unwrap();
    f.end_element().unwrap();

    assert_eq!(output, "<div class=\"container\" id=\"main\">Content</div>");
}

#[test]
fn test_nested_elements() {
    let mut output = Html::new();
    let mut f = HtmlFormatter::new(&mut output);

    f.start_element("div");
    f.start_element("span");
    f.write_content("Nested", None).unwrap();
    f.end_element().unwrap();
    f.end_element().unwrap();

    assert_eq!(output, "<div><span>Nested</span></div>");
}

#[test]
fn test_void_element() {
    let mut output = Html::new();
    let mut f = HtmlFormatter::new(&mut output);

    f.start_element("div");
    f.start_element("br");
    f.end_element().unwrap();
    f.start_element("input");
    f.write_attribute("type", "text", None).unwrap();
    f.end_element().unwrap();
    f.end_element().unwrap();

    assert_eq!(output, "<div><br><input type=\"text\"></div>");
}

#[test]
fn test_content_escaping() {
    let mut output = Html::new();
    let mut f = HtmlFormatter::new(&mut output);

    f.start_element("div");
    f.write_content("<script>alert('xss')</script>", None)
        .unwrap();
    f.end_element().unwrap();

    assert_eq!(
        output,
        "<div>&lt;script&gt;alert(&#39;xss&#39;)&lt;/script&gt;</div>"
    );
}

#[test]
fn test_attribute_escaping() {
    let mut output = Html::new();
    let mut f = HtmlFormatter::new(&mut output);

    f.start_element("div");
    f.write_attribute("data-value", "a\"b<c>d", None).unwrap();
    f.end_element().unwrap();

    assert_eq!(output, "<div data-value=\"a&quot;b&lt;c&gt;d\"></div>");
}

#[test]
fn test_raw_content() {
    
    let mut output = Html::new();
    let mut f = HtmlFormatter::new(&mut output);

    f.start_element("div");
    f.write_content(PreEscaped("<b>Bold</b>"), None).unwrap();
    f.end_element().unwrap();

    assert_eq!(output, "<div><b>Bold</b></div>");
}

#[test]
fn test_boolean_attribute_true() {
    let mut output = Html::new();
    let mut f = HtmlFormatter::new(&mut output);

    f.start_element("input");
    f.write_attribute("type", "checkbox", None).unwrap();
    f.write_boolean_attribute("checked", true).unwrap();
    f.end_element().unwrap();

    assert_eq!(output, "<input type=\"checkbox\" checked>");
}

#[test]
fn test_boolean_attribute_false() {
    let mut output = Html::new();
    let mut f = HtmlFormatter::new(&mut output);

    f.start_element("input");
    f.write_attribute("type", "checkbox", None).unwrap();
    f.write_boolean_attribute("checked", false).unwrap();
    f.end_element().unwrap();

    assert_eq!(output, "<input type=\"checkbox\">");
}

#[test]
fn test_attribute_outside_tag_error() {
    let mut output = Html::new();
    let mut f = HtmlFormatter::new(&mut output);

    f.start_element("div");
    f.write_content("Content", None).unwrap();

    // Now in InContent state, attribute should fail
    let result = f.write_attribute("class", "test", None);
    assert!(matches!(result, Err(Error::AttributeOutsideTag)));
}

#[test]
fn test_no_element_to_close_error() {
    let mut output = Html::new();
    let mut f = HtmlFormatter::new(&mut output);

    let result = f.end_element();
    assert!(matches!(result, Err(Error::NoElementToClose)));
}

#[test]
fn test_content_in_void_element_error() {
    let mut output = Html::new();
    let mut f = HtmlFormatter::new(&mut output);

    f.start_element("br");
    let result = f.write_content("Content", None);
    assert!(matches!(result, Err(Error::ContentInVoidElement)));
}

#[test]
fn test_optional_attribute_with_some() {
    let mut output = Html::new();
    let mut f = HtmlFormatter::new(&mut output);

    f.start_element("div");
    f.write_optional_attribute("class", Some("container"), None)
        .unwrap();
    f.end_element().unwrap();

    assert_eq!(output, "<div class=\"container\"></div>");
}

#[test]
fn test_optional_attribute_with_none() {
    let mut output = Html::new();
    let mut f = HtmlFormatter::new(&mut output);

    f.start_element("div");
    f.write_optional_attribute("class", None::<&str>, None)
        .unwrap();
    f.end_element().unwrap();

    assert_eq!(output, "<div></div>");
}

#[test]
fn test_optional_attribute_mixed() {
    let mut output = Html::new();
    let mut f = HtmlFormatter::new(&mut output);

    f.start_element("div");
    f.write_optional_attribute("id", Some("main"), None)
        .unwrap();
    f.write_optional_attribute("class", None::<&str>, None)
        .unwrap();
    f.write_optional_attribute("data-value", Some("test"), None)
        .unwrap();
    f.end_element().unwrap();

    assert_eq!(output, "<div id=\"main\" data-value=\"test\"></div>");
}

#[test]
fn test_optional_attribute_outside_tag_error() {
    let mut output = Html::new();
    let mut f = HtmlFormatter::new(&mut output);

    f.start_element("div");
    f.write_content("Content", None).unwrap();

    // Now in InContent state, optional attribute should fail
    let result = f.write_optional_attribute("class", Some("test"), None);
    assert!(matches!(result, Err(Error::AttributeOutsideTag)));
}

#[test]
fn test_optional_attribute_escaping() {
    let mut output = Html::new();
    let mut f = HtmlFormatter::new(&mut output);

    f.start_element("div");
    f.write_optional_attribute("data-value", Some("a\"b<c>d"), None)
        .unwrap();
    f.end_element().unwrap();

    assert_eq!(output, "<div data-value=\"a&quot;b&lt;c&gt;d\"></div>");
}

#[test]
fn test_spread_attributes_basic() {
    let mut output = Html::new();
    let mut f = HtmlFormatter::new(&mut output);

    let mut attrs = Attributes::new();
    attrs.add("id", "main", None);
    attrs.add("class", "container", None);

    f.start_element("div");
    f.spread_attributes(attrs).unwrap();
    f.end_element().unwrap();

    assert_eq!(output, "<div class=\"container\" id=\"main\"></div>");
}

#[test]
fn test_spread_attributes_empty() {
    let mut output = Html::new();
    let mut f = HtmlFormatter::new(&mut output);

    let attrs = Attributes::new();

    f.start_element("div");
    f.spread_attributes(attrs).unwrap();
    f.end_element().unwrap();

    assert_eq!(output, "<div></div>");
}

#[test]
fn test_spread_attributes_with_existing_attributes() {
    let mut output = Html::new();
    let mut f = HtmlFormatter::new(&mut output);

    let mut attrs = Attributes::new();
    attrs.add("data-value", "spread", None);

    f.start_element("div");
    f.write_attribute("id", "main", None).unwrap();
    f.spread_attributes(attrs).unwrap();
    f.end_element().unwrap();

    assert_eq!(output, "<div id=\"main\" data-value=\"spread\"></div>");
}

#[test]
fn test_spread_attributes_class_merging() {
    let mut output = Html::new();
    let mut f = HtmlFormatter::new(&mut output);

    let mut attrs = Attributes::new();
    attrs.add("class", "spread-class", None);

    f.start_element("div");
    f.write_attribute("class", "existing-class", None).unwrap();
    f.spread_attributes(attrs).unwrap();
    f.end_element().unwrap();

    assert_eq!(output, "<div class=\"existing-class spread-class\"></div>");
}

#[test]
fn test_spread_attributes_with_boolean() {
    let mut output = Html::new();
    let mut f = HtmlFormatter::new(&mut output);

    let mut attrs = Attributes::new();
    attrs.add("type", "checkbox", None);
    attrs.add_boolean("checked", true);

    f.start_element("input");
    f.spread_attributes(attrs).unwrap();
    f.end_element().unwrap();

    assert_eq!(output, "<input type=\"checkbox\" checked>");
}

#[test]
fn test_spread_attributes_overwrites_non_class() {
    let mut output = Html::new();
    let mut f = HtmlFormatter::new(&mut output);

    let mut attrs = Attributes::new();
    attrs.add("id", "spread-id", None);

    f.start_element("div");
    f.write_attribute("id", "original-id", None).unwrap();
    f.spread_attributes(attrs).unwrap();
    f.end_element().unwrap();

    assert_eq!(output, "<div id=\"spread-id\"></div>");
}

#[test]
fn test_spread_attributes_outside_tag_error_in_content() {
    let mut output = Html::new();
    let mut f = HtmlFormatter::new(&mut output);

    let attrs = Attributes::new();

    f.start_element("div");
    f.write_content("Content", None).unwrap();

    // Now in InContent state, spread should fail
    let result = f.spread_attributes(attrs);
    assert!(matches!(result, Err(Error::AttributeOutsideTag)));
}

#[test]
fn test_spread_attributes_outside_tag_error_idle() {
    let mut output = Html::new();
    let mut f = HtmlFormatter::new(&mut output);

    let attrs = Attributes::new();

    // In Idle state (no element started), spread should fail
    let result = f.spread_attributes(attrs);
    assert!(matches!(result, Err(Error::AttributeOutsideTag)));
}

#[test]
fn test_spread_attributes_multiple_spreads() {
    let mut output = Html::new();
    let mut f = HtmlFormatter::new(&mut output);

    let mut attrs1 = Attributes::new();
    attrs1.add("id", "main", None);

    let mut attrs2 = Attributes::new();
    attrs2.add("data-value", "test", None);

    f.start_element("div");
    f.spread_attributes(attrs1).unwrap();
    f.spread_attributes(attrs2).unwrap();
    f.end_element().unwrap();

    assert_eq!(output, "<div id=\"main\" data-value=\"test\"></div>");
}

#[test]
fn test_spread_attributes_with_escaped_values() {
    let mut output = Html::new();
    let mut f = HtmlFormatter::new(&mut output);

    let mut attrs = Attributes::new();
    attrs.add("data-value", "<script>alert('xss')</script>", None);

    f.start_element("div");
    f.spread_attributes(attrs).unwrap();
    f.end_element().unwrap();

    assert_eq!(
        output,
        "<div data-value=\"&lt;script&gt;alert(&#39;xss&#39;)&lt;/script&gt;\"></div>"
    );
}

#[test]
fn formatter_test_simple_string() {
    let mut output = Html::new();
    let mut fmt = HtmlFormatter::new(&mut output);

    fmt.write_content("Hello", None).unwrap();

    assert_eq!(output, "Hello");
}

#[test]
fn formatter_test_simple_element() {
    let mut output = Html::new();
    let mut fmt = HtmlFormatter::new(&mut output);

    fmt.start_element("div");
    fmt.write_content("Hello", None).unwrap();
    fmt.end_element().unwrap();

    assert_eq!(output, "<div>Hello</div>");
}

#[test]
fn formatter_test_element_with_attributes() {
    let mut output = Html::new();
    let mut fmt = HtmlFormatter::new(&mut output);

    fmt.start_element("div");
    fmt.write_attribute("class", "container", None).unwrap();
    fmt.write_attribute("id", "main", None).unwrap();
    fmt.write_content("Content", None).unwrap();
    fmt.end_element().unwrap();

    assert_eq!(output, "<div class=\"container\" id=\"main\">Content</div>");
}

#[test]
fn formatter_test_nested_elements() {
    let mut output = Html::new();
    let mut fmt = HtmlFormatter::new(&mut output);

    fmt.start_element("div");
    fmt.start_element("span");
    fmt.write_content("Nested", None).unwrap();
    fmt.end_element().unwrap();
    fmt.end_element().unwrap();

    assert_eq!(output, "<div><span>Nested</span></div>");
}

#[test]
fn formatter_test_void_element() {
    let mut output = Html::new();
    let mut fmt = HtmlFormatter::new(&mut output);

    fmt.start_element("div");
    fmt.start_element("br");
    fmt.end_element().unwrap();
    fmt.start_element("input");
    fmt.write_attribute("type", "text", None).unwrap();
    fmt.end_element().unwrap();
    fmt.end_element().unwrap();

    assert_eq!(output, "<div><br><input type=\"text\"></div>");
}

#[test]
fn formatter_test_content_escaping() {
    let mut output = Html::new();
    let mut fmt = HtmlFormatter::new(&mut output);

    fmt.start_element("div");
    fmt.write_content("<script>alert('xss')</script>", None)
        .unwrap();
    fmt.end_element().unwrap();

    assert_eq!(
        output,
        "<div>&lt;script&gt;alert(&#39;xss&#39;)&lt;/script&gt;</div>"
    );
}

#[test]
fn formatter_test_attribute_escaping() {
    let mut output = Html::new();
    let mut fmt = HtmlFormatter::new(&mut output);

    fmt.start_element("div");
    fmt.write_attribute("data-value", "a\"b<c>d", None).unwrap();
    fmt.end_element().unwrap();

    assert_eq!(output, "<div data-value=\"a&quot;b&lt;c&gt;d\"></div>");
}

#[test]
fn formatter_test_raw_content() {
    
    let mut output = Html::new();
    let mut fmt = HtmlFormatter::new(&mut output);

    fmt.start_element("div");
    fmt.write_content(PreEscaped("<b>Bold</b>"), None).unwrap();
    fmt.end_element().unwrap();

    assert_eq!(output, "<div><b>Bold</b></div>");
}

#[test]
fn formatter_test_boolean_attribute_true() {
    let mut output = Html::new();
    let mut fmt = HtmlFormatter::new(&mut output);

    fmt.start_element("input");
    fmt.write_attribute("type", "checkbox", None).unwrap();
    fmt.write_boolean_attribute("checked", true).unwrap();
    fmt.end_element().unwrap();

    assert_eq!(output, "<input type=\"checkbox\" checked>");
}

#[test]
fn formatter_test_boolean_attribute_false() {
    let mut output = Html::new();
    let mut fmt = HtmlFormatter::new(&mut output);

    fmt.start_element("input");
    fmt.write_attribute("type", "checkbox", None).unwrap();
    fmt.write_boolean_attribute("checked", false).unwrap();
    fmt.end_element().unwrap();

    assert_eq!(output, "<input type=\"checkbox\">");
}

#[test]
fn formatter_test_attribute_outside_tag_error() {
    let mut output = Html::new();
    let mut fmt = HtmlFormatter::new(&mut output);

    fmt.start_element("div");
    fmt.write_content("Content", None).unwrap();

    // Now in InContent state, attribute should fail
    let result = fmt.write_attribute("class", "test", None);
    assert!(matches!(result, Err(Error::AttributeOutsideTag)));
}

#[test]
fn formatter_test_no_element_to_close_error() {
    let mut output = Html::new();
    let mut fmt = HtmlFormatter::new(&mut output);

    let result = fmt.end_element();
    assert!(matches!(result, Err(Error::NoElementToClose)));
}

#[test]
fn formatter_test_content_in_void_element_error() {
    let mut output = Html::new();
    let mut fmt = HtmlFormatter::new(&mut output);

    fmt.start_element("br");
    let result = fmt.write_content("Content", None);
    assert!(matches!(result, Err(Error::ContentInVoidElement)));
}

#[test]
fn formatter_test_optional_attribute_with_some() {
    let mut output = Html::new();
    let mut fmt = HtmlFormatter::new(&mut output);

    fmt.start_element("div");
    fmt.write_optional_attribute("class", Some("container"), None)
        .unwrap();
    fmt.end_element().unwrap();

    assert_eq!(output, "<div class=\"container\"></div>");
}

#[test]
fn formatter_test_optional_attribute_with_none() {
    let mut output = Html::new();
    let mut fmt = HtmlFormatter::new(&mut output);

    fmt.start_element("div");
    fmt.write_optional_attribute("class", None::<&str>, None)
        .unwrap();
    fmt.end_element().unwrap();

    assert_eq!(output, "<div></div>");
}

#[test]
fn formatter_test_optional_attribute_mixed() {
    let mut output = Html::new();
    let mut fmt = HtmlFormatter::new(&mut output);

    fmt.start_element("div");
    fmt.write_optional_attribute("id", Some("main"), None)
        .unwrap();
    fmt.write_optional_attribute("class", None::<&str>, None)
        .unwrap();
    fmt.write_optional_attribute("data-value", Some("test"), None)
        .unwrap();
    fmt.end_element().unwrap();

    assert_eq!(output, "<div id=\"main\" data-value=\"test\"></div>");
}

#[test]
fn formatter_test_optional_attribute_outside_tag_error() {
    let mut output = Html::new();
    let mut fmt = HtmlFormatter::new(&mut output);

    fmt.start_element("div");
    fmt.write_content("Content", None).unwrap();

    // Now in InContent state, optional attribute should fail
    let result = fmt.write_optional_attribute("class", Some("test"), None);
    assert!(matches!(result, Err(Error::AttributeOutsideTag)));
}

#[test]
fn formatter_test_optional_attribute_escaping() {
    let mut output = Html::new();
    let mut fmt = HtmlFormatter::new(&mut output);

    fmt.start_element("div");
    fmt.write_optional_attribute("data-value", Some("a\"b<c>d"), None)
        .unwrap();
    fmt.end_element().unwrap();

    assert_eq!(output, "<div data-value=\"a&quot;b&lt;c&gt;d\"></div>");
}
