use asteria::net::http::{HttpResponse, Url};
use asteria::net::response::{
    body_framing, chunk_line_complete, header_block_status, next_redirect, parse_chunk_size,
    parse_response_head, BodyFraming, HeaderBlock, RedirectStep,
};
use asteria::net::tcp::NetworkError;

#[test]
fn header_block_completes_at_blank_line() {
    assert_eq!(header_block_status(b"HTTP/1.1 200 OK\r\n"), HeaderBlock::Incomplete);
    assert_eq!(header_block_status(b"HTTP/1.1 200 OK\r\n\r\n"), HeaderBlock::Complete);
    let big = vec![b'a'; 1024 * 1024 + 1];
    assert_eq!(header_block_status(&big), HeaderBlock::TooLarge);
    let limit = vec![b'a'; 1024 * 1024];
    assert_eq!(header_block_status(&limit), HeaderBlock::Incomplete);
}

#[test]
fn parses_status_line_and_headers() {
    let head = parse_response_head(
        b"HTTP/1.1 404 Not Found\r\nContent-Type: text/html \r\nbogus line\r\nX-A:b:c\r\n\r\n",
    )
    .unwrap();
    assert_eq!(head.status_code, 404);
    assert_eq!(head.status_text, "Not Found");
    assert_eq!(
        head.headers,
        vec![
            ("Content-Type".to_string(), "text/html".to_string()),
            ("X-A".to_string(), "b:c".to_string())
        ]
    );
    let bare = parse_response_head(b"HTTP/1.1 204\r\n\r\n").unwrap();
    assert_eq!(bare.status_code, 204);
    assert_eq!(bare.status_text, "");
    assert!(bare.headers.is_empty());
}

#[test]
fn rejects_bad_status_lines() {
    match parse_response_head(b"garbage\r\n\r\n") {
        Err(NetworkError::Other(m)) => assert_eq!(m, "Invalid status line"),
        other => panic!("unexpected {:?}", other),
    }
    match parse_response_head(b"HTTP/1.1 2x0 OK\r\n\r\n") {
        Err(NetworkError::Other(m)) => assert_eq!(m, "Invalid status code"),
        other => panic!("unexpected {:?}", other),
    }
}

#[test]
fn decides_body_framing() {
    let chunked = vec![("Transfer-Encoding".to_string(), "gzip, Chunked".to_string())];
    assert_eq!(body_framing(&chunked), BodyFraming::Chunked);
    let sized = vec![
        ("Server".to_string(), "x".to_string()),
        ("CONTENT-LENGTH".to_string(), "42".to_string()),
        ("Content-Length".to_string(), "7".to_string()),
    ];
    assert_eq!(body_framing(&sized), BodyFraming::Length(42));
    let bad = vec![("content-length".to_string(), "4x".to_string())];
    assert_eq!(body_framing(&bad), BodyFraming::UntilClose);
    assert_eq!(body_framing(&Vec::new()), BodyFraming::UntilClose);
}

#[test]
fn parses_chunk_size_lines() {
    assert!(!chunk_line_complete(b"1a"));
    assert!(chunk_line_complete(b"1a\r\n"));
    assert_eq!(parse_chunk_size(b"1a\r\n").unwrap(), 26);
    assert_eq!(parse_chunk_size(b"  FF\r\n").unwrap(), 255);
    assert_eq!(parse_chunk_size(b"0\r\n").unwrap(), 0);
    match parse_chunk_size(b"zz\r\n") {
        Err(NetworkError::Other(m)) => assert_eq!(m, "Invalid chunk size format"),
        other => panic!("unexpected {:?}", other),
    }
    assert!(parse_chunk_size(b"\r\n").is_err());
}

fn response(code: u16, headers: Vec<(&str, &str)>) -> HttpResponse {
    HttpResponse {
        status_code: code,
        status_text: String::new(),
        headers: headers.into_iter().map(|(k, v)| (k.to_string(), v.to_string())).collect(),
        body: Vec::new(),
        url: String::new(),
    }
}

#[test]
fn follows_redirects_up_to_the_limit() {
    let current = Url::parse("http://example.com/a/b.html").unwrap();
    let ok = response(200, vec![]);
    assert!(matches!(next_redirect(&ok, &current, 0, 5), Ok(RedirectStep::Done)));
    let moved = response(302, vec![("location", "c.html")]);
    match next_redirect(&moved, &current, 0, 5) {
        Ok(RedirectStep::Follow(u)) => assert_eq!(u.raw, "http://example.com:80/a/c.html"),
        other => panic!("unexpected {:?}", other),
    }
    match next_redirect(&moved, &current, 5, 5) {
        Err(NetworkError::Other(m)) => assert_eq!(m, "Too many redirects"),
        other => panic!("unexpected {:?}", other),
    }
    let no_location = response(301, vec![]);
    assert!(matches!(next_redirect(&no_location, &current, 0, 5), Ok(RedirectStep::Done)));
}
