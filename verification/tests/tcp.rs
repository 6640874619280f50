use asteria::net::tcp::{ConnectionPool, NetworkError};
use std::io;

#[test]
fn test_network_error_display() {
    let err = NetworkError::DnsError("example.com not found".to_string());
    assert_eq!(err.message(), "DNS resolution failed: example.com not found");
    let err2 = NetworkError::HttpError {
        status: 404,
        message: "Not Found".to_string(),
    };
    assert_eq!(err2.message(), "HTTP Error 404: Not Found");
}

#[test]
fn test_network_error_from_io() {
    let io_err = io::Error::new(io::ErrorKind::NotFound, "file not found");
    let net_err: NetworkError = io_err.into();
    match net_err {
        NetworkError::IoError(e) => assert_eq!(e.kind(), io::ErrorKind::NotFound),
        _ => panic!("Expected IoError variant"),
    }
}

#[test]
fn network_error_messages() {
    let e = NetworkError::TooManyRedirects { url: "http://a".into(), max: 5 };
    assert_eq!(e.message(), "Too many redirects (max 5) for URL: http://a");
    let e = NetworkError::ConnectionTimeout {
        addr: "1.2.3.4:80".into(),
        timeout: std::time::Duration::from_millis(1500),
    };
    assert_eq!(e.message(), "Connection to 1.2.3.4:80 timed out after 1500ms");
    let e = NetworkError::InvalidUrl("Empty host".into());
    assert_eq!(e.message(), "Invalid URL: Empty host");
}

#[test]
fn test_pool_new_empty() {
    let pool: ConnectionPool<u32> = ConnectionPool::new();
    assert_eq!(pool.pool_size(), 0);
}

#[test]
fn test_default_timeouts() {
    let pool: ConnectionPool<u32> = ConnectionPool::new();
    assert_eq!(pool.connect_timeout_ms, 10_000);
    assert_eq!(pool.read_timeout_ms, 30_000);
}

#[test]
fn test_custom_timeouts() {
    let pool: ConnectionPool<u32> = ConnectionPool::with_timeouts(5_000, 15_000);
    assert_eq!(pool.connect_timeout_ms, 5_000);
    assert_eq!(pool.read_timeout_ms, 15_000);
}

#[test]
fn test_pool_idle_timeout_settings() {
    let pool: ConnectionPool<u32> = ConnectionPool::with_timeouts_and_limits(5_000, 10_000, 1_000, 10);
    assert_eq!(pool.idle_timeout_ms, 1_000);
    assert_eq!(pool.max_total_connections, 10);
}

#[test]
fn pool_add_then_get_reuses() {
    let mut pool: ConnectionPool<u32> = ConnectionPool::new();
    let i = pool.add("a:80".to_string(), 7, 100);
    assert_eq!(i, 0);
    assert_eq!(pool.get("a:80", true, 150), Some(0));
    assert_eq!(*pool.connection_mut(0), 7);
    assert_eq!(pool.connections[0].last_used_at, 150);
    assert_eq!(pool.get("b:80", true, 150), None);
    assert_eq!(pool.pool_size(), 1);
}

#[test]
fn pool_add_same_key_replaces() {
    let mut pool: ConnectionPool<u32> = ConnectionPool::new();
    pool.add("a:80".to_string(), 1, 0);
    pool.add("b:80".to_string(), 2, 0);
    let i = pool.add("a:80".to_string(), 3, 5);
    assert_eq!(i, 0);
    assert_eq!(pool.pool_size(), 2);
    assert_eq!(pool.connections[0].connection, 3);
    assert_eq!(pool.connections[0].last_used_at, 5);
}

#[test]
fn pool_get_drops_dead_or_idle() {
    let mut pool: ConnectionPool<u32> =
        ConnectionPool::with_timeouts_and_limits(1_000, 1_000, 60_000, 32);
    pool.add("dead:80".to_string(), 1, 0);
    assert_eq!(pool.get("dead:80", false, 10), None);
    assert_eq!(pool.pool_size(), 0);
    pool.add("idle:80".to_string(), 2, 0);
    assert_eq!(pool.get("idle:80", true, 60_000), Some(0));
    assert_eq!(pool.get("idle:80", true, 120_001), None);
    assert_eq!(pool.pool_size(), 0);
}

#[test]
fn pool_disconnect_and_close_all() {
    let mut pool: ConnectionPool<u32> = ConnectionPool::new();
    pool.add("a:80".to_string(), 1, 0);
    pool.add("b:80".to_string(), 2, 0);
    pool.disconnect("a:80");
    assert_eq!(pool.pool_size(), 1);
    assert_eq!(pool.connections[0].key, "b:80");
    pool.disconnect("zzz");
    assert_eq!(pool.pool_size(), 1);
    pool.close_all();
    assert_eq!(pool.pool_size(), 0);
}

#[test]
fn pool_prune_dead_and_idle() {
    let mut pool: ConnectionPool<u32> =
        ConnectionPool::with_timeouts_and_limits(1_000, 1_000, 100, 32);
    pool.add("a".to_string(), 1, 0);
    pool.add("b".to_string(), 2, 0);
    pool.add("c".to_string(), 3, 0);
    assert_eq!(pool.prune_dead(&[true, false, true]), 1);
    assert_eq!(pool.pool_size(), 2);
    assert_eq!(pool.connections[1].key, "c");
    pool.add("d".to_string(), 4, 150);
    assert_eq!(pool.prune_idle(&[true, true, true], 200), 2);
    assert_eq!(pool.pool_size(), 1);
    assert_eq!(pool.connections[0].key, "d");
}

#[test]
fn pool_capacity_evicts_least_recently_used() {
    let mut pool: ConnectionPool<u32> = ConnectionPool::with_timeouts_and_limits(1_000, 1_000, 60_000, 2);
    pool.add("a".to_string(), 1, 30);
    pool.add("b".to_string(), 2, 10);
    pool.ensure_capacity();
    assert_eq!(pool.pool_size(), 1);
    assert_eq!(pool.connections[0].key, "a");
    let i = pool.insert("c".to_string(), 3, &[true], 40);
    assert_eq!(i, 1);
    assert_eq!(pool.pool_size(), 2);
    let i = pool.insert("d".to_string(), 4, &[true, true], 50);
    assert_eq!(pool.pool_size(), 2);
    assert_eq!(pool.connections[0].key, "c");
    assert_eq!(pool.connections[i].key, "d");
}

#[test]
fn pool_zero_cap_is_unlimited() {
    let mut pool: ConnectionPool<u32> = ConnectionPool::with_timeouts_and_limits(5_000, 5_000, 60_000, 0);
    pool.insert("k1".to_string(), 1, &[], 0);
    pool.insert("k2".to_string(), 2, &[true], 0);
    pool.insert("k3".to_string(), 3, &[true, true], 0);
    assert_eq!(pool.pool_size(), 3);
}
