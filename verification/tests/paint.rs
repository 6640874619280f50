use asteria::paint::is_safe_link_url;

#[test]
fn test_is_safe_link_url_allowed_schemes() {
    assert!(is_safe_link_url("http://example.com"));
    assert!(is_safe_link_url("https://example.com/path?query=1#hash"));
    assert!(is_safe_link_url("file:///tmp/index.html"));
    assert!(is_safe_link_url("/relative/path"));
    assert!(is_safe_link_url("./local.html"));
    assert!(is_safe_link_url("../parent.html"));
    assert!(is_safe_link_url("#anchor"));
    assert!(is_safe_link_url("?search=test"));
    assert!(is_safe_link_url("image.png"));
}

#[test]
fn test_is_safe_link_url_blocked_schemes() {
    assert!(!is_safe_link_url("javascript:alert(1)"));
    assert!(!is_safe_link_url("JAVASCRIPT:void(0)"));
    assert!(!is_safe_link_url(
        "data:text/html,<script>alert(1)</script>"
    ));
    assert!(!is_safe_link_url("vbscript:msgbox(1)"));
    assert!(!is_safe_link_url("blob:http://example.com/uuid"));
    assert!(!is_safe_link_url("custom-scheme://test"));
}

#[test]
fn test_is_safe_link_url_control_chars() {
    assert!(!is_safe_link_url(""));
    assert!(!is_safe_link_url("   "));
    assert!(!is_safe_link_url("https://example.com\0evil"));
    assert!(!is_safe_link_url("https://example.com\r\nHeader: evil"));
    assert!(!is_safe_link_url("http://example.com/\x08test"));
}

#[test]
fn safe_link_edge_cases() {
    assert!(is_safe_link_url("  HTTPS://x  "));
    assert!(is_safe_link_url("a b:c"));
    assert!(!is_safe_link_url("\u{85}"));
    assert!(!is_safe_link_url("x\u{7f}"));
}
