use plait::escape::{escape_url, is_url_safe, BLOCKED_URL_FALLBACK};
use plait::Html;

#[test]
fn escape_url_http() {
    let mut output = Html::new();
    escape_url(&mut output, "http://example.com");
    assert_eq!(output, "http://example.com");
}

#[test]
fn escape_url_https() {
    let mut output = Html::new();
    escape_url(&mut output, "https://example.com/path?query=1");
    assert_eq!(output, "https://example.com/path?query=1");
}

#[test]
fn escape_url_mailto() {
    let mut output = Html::new();
    escape_url(&mut output, "mailto:test@example.com");
    assert_eq!(output, "mailto:test@example.com");
}

#[test]
fn escape_url_tel() {
    let mut output = Html::new();
    escape_url(&mut output, "tel:+1234567890");
    assert_eq!(output, "tel:+1234567890");
}

#[test]
fn escape_url_relative_slash() {
    let mut output = Html::new();
    escape_url(&mut output, "/path/to/page");
    assert_eq!(output, "/path/to/page");
}

#[test]
fn escape_url_relative_dot() {
    let mut output = Html::new();
    escape_url(&mut output, "./relative/path");
    assert_eq!(output, "./relative/path");
}

#[test]
fn escape_url_relative_dotdot() {
    let mut output = Html::new();
    escape_url(&mut output, "../parent/path");
    assert_eq!(output, "../parent/path");
}

#[test]
fn escape_url_relative_query() {
    let mut output = Html::new();
    escape_url(&mut output, "?query=value");
    assert_eq!(output, "?query=value");
}

#[test]
fn escape_url_relative_fragment() {
    let mut output = Html::new();
    escape_url(&mut output, "#section");
    assert_eq!(output, "#section");
}

#[test]
fn escape_url_empty() {
    let mut output = Html::new();
    escape_url(&mut output, "");
    assert_eq!(output, BLOCKED_URL_FALLBACK);
}

#[test]
fn escape_url_javascript_blocked() {
    let mut output = Html::new();
    escape_url(&mut output, "javascript:alert(1)");
    assert_eq!(output, BLOCKED_URL_FALLBACK);
}

#[test]
fn escape_url_data_blocked() {
    let mut output = Html::new();
    escape_url(&mut output, "data:text/html,<script>alert(1)</script>");
    assert_eq!(output, BLOCKED_URL_FALLBACK);
}

#[test]
fn escape_url_javascript_encoded_blocked() {
    let mut output = Html::new();
    escape_url(&mut output, "javascript%3Aalert(1)");
    assert_eq!(output, BLOCKED_URL_FALLBACK);
}

#[test]
fn escape_url_javascript_html_entity_blocked() {
    let mut output = Html::new();
    escape_url(&mut output, "java&#115;cript:alert(1)");
    assert_eq!(output, BLOCKED_URL_FALLBACK);
}

#[test]
fn escape_url_with_html_special_chars() {
    let mut output = Html::new();
    escape_url(&mut output, "https://example.com/path?a=1&b=2");
    assert_eq!(output, "https://example.com/path?a=1&amp;b=2");
}

#[test]
fn escape_url_with_quotes() {
    let mut output = Html::new();
    escape_url(&mut output, "https://example.com/path?q=\"test\"");
    assert_eq!(output, "https://example.com/path?q=&quot;test&quot;");
}

#[test]
fn escape_url_with_angle_brackets() {
    let mut output = Html::new();
    escape_url(&mut output, "https://example.com/<path>");
    assert_eq!(output, "https://example.com/&lt;path&gt;");
}

#[test]
fn escape_url_vbscript_blocked() {
    let mut output = Html::new();
    escape_url(&mut output, "vbscript:msgbox(1)");
    assert_eq!(output, BLOCKED_URL_FALLBACK);
}

#[test]
fn escape_url_file_blocked() {
    let mut output = Html::new();
    escape_url(&mut output, "file:///etc/passwd");
    assert_eq!(output, BLOCKED_URL_FALLBACK);
}

#[test]
fn escape_url_javascript_with_whitespace_blocked() {
    let mut output = Html::new();
    escape_url(&mut output, "  javascript:alert(1)");
    assert_eq!(output, BLOCKED_URL_FALLBACK);
}

#[test]
fn escape_url_javascript_with_control_chars_blocked() {
    let mut output = Html::new();
    escape_url(&mut output, "java\x00script:alert(1)");
    assert_eq!(output, BLOCKED_URL_FALLBACK);
}

#[test]
fn escape_url_javascript_with_inner_whitespace_blocked() {
    let mut output = Html::new();
    escape_url(&mut output, "javascript    :alert(1)");
    assert_eq!(output, BLOCKED_URL_FALLBACK);
}

#[test]
fn escape_url_javascript_with_newline_blocked() {
    let mut output = Html::new();
    escape_url(&mut output, "java\nscript:alert(1)");
    assert_eq!(output, BLOCKED_URL_FALLBACK);
}

#[test]
fn escape_url_javascript_with_tab_blocked() {
    let mut output = Html::new();
    escape_url(&mut output, "java\tscript:alert(1)");
    assert_eq!(output, BLOCKED_URL_FALLBACK);
}

#[test]
fn escape_url_javascript_mixed_case_blocked() {
    let mut output = Html::new();
    escape_url(&mut output, "JaVaScRiPt:alert(1)");
    assert_eq!(output, BLOCKED_URL_FALLBACK);
}

#[test]
fn escape_url_javascript_uppercase_blocked() {
    let mut output = Html::new();
    escape_url(&mut output, "JAVASCRIPT:alert(1)");
    assert_eq!(output, BLOCKED_URL_FALLBACK);
}

#[test]
fn escape_url_double_percent_encoded_javascript_blocked() {
    // %6a = 'j', so %256a decodes to %6a which decodes to 'j'
    // This is double-encoded "javascript:alert(1)"
    let mut output = Html::new();
    escape_url(
        &mut output,
        "%256a%2561%2576%2561%2573%2563%2572%2569%2570%2574%253aalert(1)",
    );
    assert_eq!(output, BLOCKED_URL_FALLBACK);
}

#[test]
fn escape_url_blob_blocked() {
    let mut output = Html::new();
    escape_url(
        &mut output,
        "blob:https://example.com/550e8400-e29b-41d4-a716-446655440000",
    );
    assert_eq!(output, BLOCKED_URL_FALLBACK);
}

#[test]
fn escape_url_about_blank_blocked() {
    let mut output = Html::new();
    escape_url(&mut output, "about:blank");
    assert_eq!(output, BLOCKED_URL_FALLBACK);
}

#[test]
fn escape_url_unicode_fullwidth_javascript() {
    // Fullwidth characters: ｊａｖａｓｃｒｉｐｔ：
    // This is treated as relative URL by browser
    let mut output = Html::new();
    escape_url(&mut output, "ｊａｖａｓｃｒｉｐｔ:alert(1)");
    assert_eq!(output, "ｊａｖａｓｃｒｉｐｔ:alert(1)");
}

#[test]
fn escape_url_bare_hostname_blocked() {
    let mut output = Html::new();
    escape_url(&mut output, "example.com");
    assert_eq!(output, "example.com");
}

#[test]
fn escape_url_bare_hostname_with_path_blocked() {
    let mut output = Html::new();
    escape_url(&mut output, "example.com/path");
    assert_eq!(output, "example.com/path");
}

#[test]
fn escape_url_very_long_url() {
    let mut output = Html::new();
    let long_path = "a".repeat(10000);
    let url = format!("https://example.com/{}", long_path);
    escape_url(&mut output, &url);
    assert!(output.len() > 10000);
}

#[test]
fn escape_url_ws_websocket_blocked() {
    let mut output = Html::new();
    escape_url(&mut output, "ws://example.com/socket");
    assert_eq!(output, BLOCKED_URL_FALLBACK);
}

#[test]
fn escape_url_wss_websocket_blocked() {
    let mut output = Html::new();
    escape_url(&mut output, "wss://example.com/socket");
    assert_eq!(output, BLOCKED_URL_FALLBACK);
}

#[test]
fn escape_url_ftp_blocked() {
    let mut output = Html::new();
    escape_url(&mut output, "ftp://example.com/file");
    assert_eq!(output, BLOCKED_URL_FALLBACK);
}

#[test]
fn test_is_url_safe_http() {
    assert!(is_url_safe("http://example.com"))
}

#[test]
fn test_is_url_safe_http_with_query() {
    assert!(is_url_safe("http://example.com/path?query=1"))
}

#[test]
fn test_is_url_safe_http_with_fragment() {
    assert!(is_url_safe("http://example.com/path#fragment"))
}

#[test]
fn test_is_url_safe_http_with_query_and_fragment() {
    assert!(is_url_safe("http://example.com/path?query=1#fragment"))
}

#[test]
fn test_is_url_safe_https() {
    assert!(is_url_safe("https://example.com"))
}

#[test]
fn test_is_url_safe_https_with_query() {
    assert!(is_url_safe("https://example.com/path?query=1"))
}

#[test]
fn test_is_url_safe_https_with_fragment() {
    assert!(is_url_safe("https://example.com/path#fragment"))
}

#[test]
fn test_is_url_safe_https_with_query_and_fragment() {
    assert!(is_url_safe("https://example.com/path?query=1#fragment"))
}

#[test]
fn test_is_url_safe_mailto() {
    assert!(is_url_safe("mailto:test@example.com"))
}

#[test]
fn test_is_url_safe_tel() {
    assert!(is_url_safe("tel:+1234567890"))
}

#[test]
fn test_is_url_safe_relative_path() {
    assert!(is_url_safe("path/to/page"))
}

#[test]
fn test_is_url_safe_relative_slash() {
    assert!(is_url_safe("/path/to/page"))
}

#[test]
fn test_is_url_safe_relative_dot() {
    assert!(is_url_safe("./relative/path"))
}

#[test]
fn test_is_url_safe_relative_dot_dot() {
    assert!(is_url_safe("../relative/path"))
}

#[test]
fn test_is_url_safe_relative_query() {
    assert!(is_url_safe("?query=value"))
}

#[test]
fn test_is_url_safe_relative_fragment() {
    assert!(is_url_safe("#section"))
}

#[test]
fn test_is_url_safe_with_html_special_chars() {
    assert!(is_url_safe("https://example.com/path?a=1&b=\"2\""))
}

#[test]
fn test_is_url_safe_empty_blocked() {
    assert!(!is_url_safe(""))
}

#[test]
fn test_is_url_safe_javascript_blocked() {
    assert!(!is_url_safe("javascript:alert(1)"))
}

#[test]
fn test_is_url_safe_javascript_with_whitespace_blocked() {
    assert!(!is_url_safe("  javascript:alert(1)"))
}

#[test]
fn test_is_url_safe_javascript_with_inner_whitespace_blocked() {
    assert!(!is_url_safe("javascript  :alert(1)"))
}

#[test]
fn test_is_url_safe_javascript_with_control_chars_blocked() {
    assert!(!is_url_safe("java\x00script:alert(1)"))
}

#[test]
fn test_is_url_safe_javascript_with_newline_blocked() {
    assert!(!is_url_safe("java\nscript:alert(1)"))
}

#[test]
fn test_is_url_safe_javascript_with_tab_blocked() {
    assert!(!is_url_safe("java\tscript:alert(1)"))
}

#[test]
fn test_is_url_safe_javascript_mixed_case_blocked() {
    assert!(!is_url_safe("JaVaScRiPt:alert(1)"))
}

#[test]
fn test_is_url_safe_javascript_upper_case_blocked() {
    assert!(!is_url_safe("JAVASCRIPT:alert(1)"))
}

#[test]
fn test_is_url_safe_javascript_encoded_blocked() {
    assert!(!is_url_safe("javascript%3Aalert(1)"))
}

#[test]
fn test_is_url_safe_javascript_html_entity_blocked() {
    assert!(!is_url_safe("java&#115;cript:alert(1)"))
}

#[test]
fn test_is_url_safe_javascript_double_percent_encoded_blocked() {
    assert!(!is_url_safe(
        "%256a%2561%2576%2561%2573%2563%2572%2569%2570%2574%253aalert(1)"
    ))
}

#[test]
fn test_is_url_safe_data_blocked() {
    assert!(!is_url_safe("data:text/String,<script>alert(1)</script>"))
}

#[test]
fn test_is_url_safe_vbscript_blocked() {
    assert!(!is_url_safe("vbscript:msgbox(1)"))
}

#[test]
fn test_is_url_safe_file_blocked() {
    assert!(!is_url_safe("file:///etc/passwd"))
}

#[test]
fn test_is_url_safe_blob_blocked() {
    assert!(!is_url_safe(
        "blob:https://example.com/550e8400-e29b-41d4-a716-446655440000"
    ))
}

#[test]
fn test_is_url_safe_about_blocked() {
    assert!(!is_url_safe("about:blank"))
}

#[test]
fn test_is_url_safe_ws_blocked() {
    assert!(!is_url_safe("ws://example.com/socket"))
}

#[test]
fn test_is_url_safe_wss_blocked() {
    assert!(!is_url_safe("wss://example.com/socket"))
}

#[test]
fn test_is_url_safe_ftp_blocked() {
    assert!(!is_url_safe("ftp://example.com/file"))
}
