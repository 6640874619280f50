use asteria::net::dns::{
    dedup_addresses, is_local_hostname, is_private_or_loopback_ip, rebinding_violation,
    validate_hostname, DnsEntry, DnsError, DnsResolver, IpAddress, ResolveStep,
};

#[test]
fn test_private_and_local_ip_checks() {
    let loopback = IpAddress::V4(127, 0, 0, 1);
    let private_v4 = IpAddress::V4(192, 168, 1, 1);
    let public_v4 = IpAddress::V4(93, 184, 216, 34);
    let loopback_v6 = IpAddress::V6(0, 0, 0, 0, 0, 0, 0, 1);

    assert!(is_private_or_loopback_ip(&loopback));
    assert!(is_private_or_loopback_ip(&private_v4));
    assert!(!is_private_or_loopback_ip(&public_v4));
    assert!(is_private_or_loopback_ip(&loopback_v6));

    assert!(is_local_hostname("localhost"));
    assert!(is_local_hostname("test.local"));
    assert!(is_local_hostname("service.internal"));
    assert!(!is_local_hostname("example.com"));
    assert!(!is_local_hostname("attacker.com"));
}

#[test]
fn address_space_boundaries() {
    assert!(is_private_or_loopback_ip(&IpAddress::V4(172, 16, 0, 1)));
    assert!(is_private_or_loopback_ip(&IpAddress::V4(172, 31, 255, 255)));
    assert!(!is_private_or_loopback_ip(&IpAddress::V4(172, 32, 0, 1)));
    assert!(is_private_or_loopback_ip(&IpAddress::V4(169, 254, 3, 4)));
    assert!(is_private_or_loopback_ip(&IpAddress::V4(255, 255, 255, 255)));
    assert!(is_private_or_loopback_ip(&IpAddress::V4(0, 0, 0, 0)));
    assert!(is_private_or_loopback_ip(&IpAddress::V6(0xfd12, 0, 0, 0, 0, 0, 0, 1)));
    assert!(is_private_or_loopback_ip(&IpAddress::V6(0xfe80, 0, 0, 0, 0, 0, 0, 1)));
    assert!(!is_private_or_loopback_ip(&IpAddress::V6(0x2001, 0xdb8, 0, 0, 0, 0, 0, 1)));
    assert!(is_private_or_loopback_ip(&IpAddress::V6(0, 0, 0, 0, 0, 0, 0, 0)));
}

#[test]
fn hostname_validation() {
    assert!(validate_hostname("example.com"));
    assert!(!validate_hostname(""));
    assert!(!validate_hostname("http://example.com"));
}

#[test]
fn resolution_results_are_deduplicated_in_order() {
    let a = IpAddress::V4(1, 1, 1, 1);
    let b = IpAddress::V4(8, 8, 8, 8);
    assert_eq!(dedup_addresses(&[a, b, a, b, a]), vec![a, b]);
    assert!(dedup_addresses(&[]).is_empty());
}

#[test]
fn rebinding_attempts_are_detected() {
    let public = IpAddress::V4(93, 184, 216, 34);
    let private = IpAddress::V4(10, 0, 0, 5);
    assert_eq!(rebinding_violation(true, "attacker.com", &[public, private]), Some(1));
    assert_eq!(rebinding_violation(false, "attacker.com", &[private]), None);
    assert_eq!(rebinding_violation(true, "printer.local", &[private]), None);
    assert_eq!(rebinding_violation(true, "example.com", &[public]), None);
}

// ─── The resolver, with the system lookup and the clock supplied ──


fn loopback() -> Vec<IpAddress> {
    vec![IpAddress::V4(127, 0, 0, 1), IpAddress::V6(0, 0, 0, 0, 0, 0, 0, 1)]
}

/// Resolve as a caller would: answer from the resolver, or make the
/// (here simulated) lookup and hand it back.
fn resolve_with(
    resolver: &mut DnsResolver,
    hostname: &str,
    lookup: Vec<IpAddress>,
    now: u64,
) -> Result<DnsEntry, DnsError> {
    match resolver.resolve(hostname, now) {
        ResolveStep::Done(r) => r,
        ResolveStep::Lookup => resolver.finish_lookup(hostname, Ok(lookup), now),
    }
}

#[test]
fn test_resolve_localhost() {
    let mut resolver = DnsResolver::new();
    let entry = resolve_with(&mut resolver, "localhost", loopback(), 0).expect("Should resolve localhost");
    assert!(!entry.ip_addresses.is_empty());
    assert_eq!(entry.hostname, "localhost");
}

#[test]
fn test_cache_hit() {
    let mut resolver = DnsResolver::new();
    let entry1 = resolve_with(&mut resolver, "localhost", loopback(), 10).unwrap();
    let entry2 = resolve_with(&mut resolver, "localhost", loopback(), 20).unwrap();
    assert_eq!(entry1.resolved_at, entry2.resolved_at);
}

#[test]
fn test_cache_expired() {
    let mut resolver = DnsResolver::with_ttl(0);
    let entry1 = resolve_with(&mut resolver, "localhost", loopback(), 10).unwrap();
    let entry2 = resolve_with(&mut resolver, "localhost", loopback(), 11).unwrap();
    assert_ne!(entry1.resolved_at, entry2.resolved_at);
}

#[test]
fn test_invalid_hostname_empty() {
    let resolver = DnsResolver::new();
    let result = resolver.resolve("", 0);
    assert!(matches!(result, ResolveStep::Done(Err(DnsError::InvalidHostname { .. }))));
}

#[test]
fn test_invalid_hostname_with_scheme() {
    let resolver = DnsResolver::new();
    let result = resolver.resolve("http://example.com", 0);
    assert!(matches!(result, ResolveStep::Done(Err(DnsError::InvalidHostname { .. }))));
}

#[test]
fn test_clear_cache() {
    let mut resolver = DnsResolver::new();
    resolve_with(&mut resolver, "localhost", loopback(), 0).unwrap();
    assert_eq!(resolver.cache_stats(0).0, 1);
    resolver.clear_cache();
    assert_eq!(resolver.cache_stats(0).0, 0);
}

#[test]
fn test_cache_stats() {
    let mut resolver = DnsResolver::with_ttl(0);
    resolve_with(&mut resolver, "localhost", loopback(), 5).unwrap();
    let (total, expired) = resolver.cache_stats(6);
    assert_eq!(total, 1);
    assert_eq!(expired, 1);
}

#[test]
fn test_resolve_fresh_bypasses_cache() {
    let mut resolver = DnsResolver::new();
    let entry1 = resolve_with(&mut resolver, "localhost", loopback(), 1).unwrap();
    let entry2 = match resolver.resolve_fresh("localhost", 2) {
        ResolveStep::Done(r) => r,
        ResolveStep::Lookup => resolver.finish_lookup("localhost", Ok(loopback()), 2),
    }
    .expect("Should resolve fresh");
    assert_ne!(entry1.resolved_at, entry2.resolved_at);
}

#[test]
fn test_host_pinning() {
    let mut resolver = DnsResolver::new();
    let test_ip = IpAddress::V4(93, 184, 216, 34);
    resolver.pin_host("example.com", vec![test_ip]);
    assert!(resolver.is_pinned("example.com"));
    let entry = match resolver.resolve("example.com", 0) {
        ResolveStep::Done(r) => r.expect("Should resolve pinned host"),
        ResolveStep::Lookup => panic!("pinned host needs no lookup"),
    };
    assert_eq!(entry.ip_addresses, vec![test_ip]);
    resolver.unpin_host("example.com");
    assert!(!resolver.is_pinned("example.com"));
}

#[test]
fn resolver_refuses_rebinding_and_caches_nothing() {
    let mut resolver = DnsResolver::new();
    let result = resolver.finish_lookup("attacker.com", Ok(vec![IpAddress::V4(10, 0, 0, 1)]), 0);
    assert!(matches!(
        result,
        Err(DnsError::RebindingDetected { attempted_ip: IpAddress::V4(10, 0, 0, 1), .. })
    ));
    assert_eq!(resolver.cache_stats(0).0, 0);
    resolver.set_rebinding_protection(false);
    assert!(resolver.finish_lookup("attacker.com", Ok(vec![IpAddress::V4(10, 0, 0, 1)]), 0).is_ok());
}

#[test]
fn resolver_lookup_errors() {
    let mut resolver = DnsResolver::new();
    match resolver.finish_lookup("example.com", Err("no route".to_string()), 0) {
        Err(DnsError::ResolutionFailed { hostname, message }) => {
            assert_eq!(hostname, "example.com");
            assert_eq!(message, "no route");
        }
        other => panic!("unexpected {:?}", other),
    }
    match resolver.finish_lookup("example.com", Ok(Vec::new()), 0) {
        Err(DnsError::ResolutionFailed { message, .. }) => assert_eq!(message, "No IP addresses found"),
        other => panic!("unexpected {:?}", other),
    }
}

#[test]
fn resolver_dedups_and_replaces_cached_entry() {
    let mut resolver = DnsResolver::new();
    let a = IpAddress::V4(93, 184, 216, 34);
    let b = IpAddress::V4(93, 184, 216, 35);
    let e = resolver.finish_lookup("example.com", Ok(vec![a, a, b, a]), 1).unwrap();
    assert_eq!(e.ip_addresses, vec![a, b]);
    resolver.finish_lookup("example.com", Ok(vec![b]), 2).unwrap();
    assert_eq!(resolver.cache_stats(2), (1, 0));
    match resolver.resolve("example.com", 3) {
        ResolveStep::Done(Ok(entry)) => {
            assert_eq!(entry.ip_addresses, vec![b]);
            assert_eq!(entry.resolved_at, 2);
            assert!(!entry.is_expired(3));
        }
        other => panic!("unexpected {:?}", other),
    }
}
