use asteria::net::http::{resolve_redirect, HttpMethod, HttpRequest, HttpResponse, Url};
use asteria::net::tcp::NetworkError;

#[test]
fn test_url_parse_basic() {
    let url = Url::parse("http://example.com").unwrap();
    assert_eq!(url.scheme, "http");
    assert_eq!(url.host, "example.com");
    assert_eq!(url.port, 80);
    assert_eq!(url.path, "/");
}

#[test]
fn test_url_parse_with_port() {
    let url = Url::parse("http://example.com:8080/page").unwrap();
    assert_eq!(url.host, "example.com");
    assert_eq!(url.port, 8080);
    assert_eq!(url.path, "/page");
}

#[test]
fn test_url_parse_with_path() {
    let url = Url::parse("http://example.com/path/to/page.html").unwrap();
    assert_eq!(url.host, "example.com");
    assert_eq!(url.port, 80);
    assert_eq!(url.path, "/path/to/page.html");
}

#[test]
fn test_url_parse_no_scheme() {
    assert!(Url::parse("example.com").is_err());
}

#[test]
fn test_url_parse_https_rejected() {
    let err = Url::parse("https://example.com").unwrap_err();
    match err {
        NetworkError::InvalidUrl(msg) => assert!(msg.contains("HTTPS is not supported")),
        _ => panic!("Expected InvalidUrl error"),
    }
}

#[test]
fn test_url_parse_empty_host() {
    assert!(Url::parse("http://").is_err());
}

#[test]
fn test_url_host_port() {
    let url = Url::parse("http://example.com:8080").unwrap();
    assert_eq!(url.host_port(), "example.com:8080");
}

#[test]
fn test_http_request_serialization() {
    let url = Url::parse("http://example.com/test").unwrap();
    let req = HttpRequest {
        method: HttpMethod::Get,
        url,
        headers: vec![("Custom-Header".to_string(), "Value".to_string())],
    };
    let bytes = req.to_request_bytes();
    let str_rep = String::from_utf8(bytes).unwrap();
    assert!(str_rep.contains("GET /test HTTP/1.1\r\n"));
    assert!(str_rep.contains("Host: example.com\r\n"));
    assert!(str_rep.contains("Custom-Header: Value\r\n"));
    assert!(str_rep.contains("Connection: keep-alive\r\n"));
    assert!(str_rep.ends_with("\r\n\r\n"));
}

#[test]
fn test_http_response_header_lookup() {
    let resp = HttpResponse {
        status_code: 200,
        status_text: "OK".into(),
        headers: vec![("Content-Type".to_string(), "text/html".to_string())],
        body: vec![],
        url: "".into(),
    };
    assert_eq!(resp.header("content-type"), Some("text/html"));
    assert_eq!(resp.header("CONTENT-TYPE"), Some("text/html"));
    assert_eq!(resp.header("Accept"), None);
}

#[test]
fn test_http_response_redirect_detection() {
    let mut resp = HttpResponse {
        status_code: 301,
        status_text: "Moved Permanently".into(),
        headers: vec![],
        body: vec![],
        url: "".into(),
    };
    assert!(resp.is_redirect());
    resp.status_code = 200;
    assert!(!resp.is_redirect());
}

#[test]
fn test_http_response_success_detection() {
    let resp = HttpResponse {
        status_code: 204,
        status_text: "No Content".into(),
        headers: vec![],
        body: vec![],
        url: "".into(),
    };
    assert!(resp.is_success());
}

#[test]
fn test_http_response_content_type() {
    let resp = HttpResponse {
        status_code: 200,
        status_text: "OK".into(),
        headers: vec![("Content-Type".to_string(), "application/json".to_string())],
        body: vec![],
        url: "".into(),
    };
    assert_eq!(resp.content_type(), Some("application/json"));
}

#[test]
fn test_resolve_redirect_absolute() {
    let url = Url::parse("http://example.com/path").unwrap();
    let redirect = resolve_redirect(&url, "http://new.com/page").unwrap();
    assert_eq!(redirect.host, "new.com");
    assert_eq!(redirect.path, "/page");
}

#[test]
fn test_resolve_redirect_relative() {
    let url = Url::parse("http://example.com/dir/page.html").unwrap();
    let redirect = resolve_redirect(&url, "/new-page.html").unwrap();
    assert_eq!(redirect.host, "example.com");
    assert_eq!(redirect.path, "/new-page.html");
    let redirect2 = resolve_redirect(&url, "other.html").unwrap();
    assert_eq!(redirect2.path, "/dir/other.html");
}

// ── Further cases ──────────────────────────────────────────────

fn invalid_reason(r: Result<Url, NetworkError>) -> String {
    match r {
        Err(NetworkError::InvalidUrl(m)) => m,
        _ => panic!("expected InvalidUrl"),
    }
}

#[test]
fn url_parse_error_reasons() {
    assert_eq!(invalid_reason(Url::parse("example.com")), "Missing scheme (expected 'http://')");
    assert_eq!(invalid_reason(Url::parse("ftp://x")), "Unsupported scheme: ftp");
    assert_eq!(invalid_reason(Url::parse("http://")), "Empty host");
    assert_eq!(invalid_reason(Url::parse("http:///path")), "Empty host");
    assert_eq!(invalid_reason(Url::parse("http://:80/")), "Empty host");
    assert_eq!(invalid_reason(Url::parse("http://h:99999/")), "Invalid port number");
    assert_eq!(invalid_reason(Url::parse("http://h:/")), "Invalid port number");
}

#[test]
fn url_parse_keeps_raw_and_plus_port() {
    let url = Url::parse("http://h:+81").unwrap();
    assert_eq!(url.port, 81);
    assert_eq!(url.raw, "http://h:+81");
    assert_eq!(url.path, "/");
}

#[test]
fn request_defaults_not_duplicated_and_port_in_host() {
    let url = Url::parse("http://example.com:8080/").unwrap();
    let req = HttpRequest {
        method: HttpMethod::Get,
        url,
        headers: vec![("ACCEPT".to_string(), "*/*".to_string())],
    };
    let text = String::from_utf8(req.to_request_bytes()).unwrap();
    assert_eq!(
        text,
        "GET / HTTP/1.1\r\nACCEPT: */*\r\nHost: example.com:8080\r\nConnection: keep-alive\r\nUser-Agent: Asteria/0.1\r\n\r\n"
    );
}

#[test]
fn response_body_and_first_header_wins() {
    let resp = HttpResponse {
        status_code: 302,
        status_text: "Found".into(),
        headers: vec![
            ("location".to_string(), "/a".to_string()),
            ("Location".to_string(), "/b".to_string()),
        ],
        body: vec![0xff, 0xfe],
        url: "".into(),
    };
    assert_eq!(resp.redirect_location(), Some("/a"));
    assert_eq!(resp.body_as_str(), None);
    assert!(!resp.is_success());
}

#[test]
fn redirect_relative_without_slash_in_path_base() {
    let url = Url {
        scheme: "http".into(),
        host: "h".into(),
        port: 8000,
        path: "nopath".into(),
        raw: "".into(),
    };
    let r = resolve_redirect(&url, "x.html").unwrap();
    assert_eq!(r.path, "/x.html");
    assert_eq!(r.port, 8000);
}
