use asteria::net::tcp::NetworkError;
use asteria::net::tls::{clean_server_name, TlsConnector};

#[test]
fn test_parse_server_name_valid() {
    assert!(TlsConnector::parse_server_name("example.com").is_ok());
    assert!(TlsConnector::parse_server_name("sub.domain.org").is_ok());
    assert!(TlsConnector::parse_server_name("https://example.com:443/path").is_ok());
    assert!(TlsConnector::parse_server_name("example.com.").is_ok());
    assert!(TlsConnector::parse_server_name("127.0.0.1").is_ok());
}

#[test]
fn test_parse_server_name_invalid() {
    assert!(TlsConnector::parse_server_name("").is_err());
    assert!(TlsConnector::parse_server_name("   ").is_err());
    assert!(TlsConnector::parse_server_name("invalid..domain").is_err());
    assert!(TlsConnector::parse_server_name("domain with spaces.com").is_err());
}

fn cleaned(s: &str) -> String {
    clean_server_name(s).into_iter().collect()
}

#[test]
fn clean_server_name_strips_scheme_path_port_and_dots() {
    assert_eq!(cleaned("  https://example.com:443/path  "), "example.com");
    assert_eq!(cleaned("http://example.com/"), "example.com");
    assert_eq!(cleaned("https://https://a.b"), "a.b");
    assert_eq!(cleaned("example.com..."), "example.com");
    assert_eq!(cleaned("http://https://x"), "https");
    assert_eq!(cleaned("..."), "");
}

#[test]
fn parse_server_name_messages() {
    match TlsConnector::parse_server_name("  ") {
        Err(NetworkError::TlsError(m)) => assert_eq!(m, "Domain name is empty"),
        _ => panic!("expected an empty-name error"),
    }
    match TlsConnector::parse_server_name("https://bad..name/") {
        Err(NetworkError::TlsError(m)) => {
            assert_eq!(m, "Invalid TLS server name 'bad..name': invalid dns name")
        }
        _ => panic!("expected an invalid-name error"),
    }
}
