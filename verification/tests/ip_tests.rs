use diggeo::ip::{dedup_v4, ipv4_to_string, resolved_ips, Ipv4, ResolveError, ResolvedIp};

fn v4(a: u8, b: u8, c: u8, d: u8) -> Ipv4 {
    Ipv4 { a, b, c, d }
}

#[test]
fn resolver_keeps_only_ipv4_and_dedups() {
    let addrs = vec![
        ResolvedIp::V4(v4(9, 9, 9, 9)),
        ResolvedIp::Other,
        ResolvedIp::V4(v4(9, 9, 9, 10)),
        ResolvedIp::V4(v4(9, 9, 9, 9)),
    ];
    let unique = dedup_v4(&addrs);
    // Order is unspecified: compare as a set.
    assert_eq!(unique.len(), 2);
    assert!(unique.contains(&v4(9, 9, 9, 9)));
    assert!(unique.contains(&v4(9, 9, 9, 10)));
}

#[test]
fn resolver_strings_are_dotted_decimal() {
    let addrs = vec![
        ResolvedIp::V4(v4(9, 9, 9, 9)),
        ResolvedIp::V4(v4(9, 9, 9, 10)),
        ResolvedIp::Other,
    ];
    let strings = resolved_ips(&addrs).unwrap();
    assert_eq!(strings.len(), 2);
    assert!(strings.contains(&"9.9.9.9".to_string()));
    assert!(strings.contains(&"9.9.9.10".to_string()));
}

#[test]
fn no_ipv4_addresses_is_an_error() {
    let addrs = vec![ResolvedIp::Other, ResolvedIp::Other];
    assert_eq!(resolved_ips(&addrs), Err(ResolveError::NoAddresses));
    assert_eq!(resolved_ips(&Vec::new()), Err(ResolveError::NoAddresses));
    assert_eq!(
        ResolveError::NoAddresses.message(),
        "No IPv4 addresses found"
    );
}

#[test]
fn formatting_has_no_leading_zeros() {
    assert_eq!(ipv4_to_string(&v4(8, 8, 8, 8)), "8.8.8.8");
    assert_eq!(ipv4_to_string(&v4(0, 0, 0, 0)), "0.0.0.0");
    assert_eq!(ipv4_to_string(&v4(255, 255, 255, 255)), "255.255.255.255");
    assert_eq!(ipv4_to_string(&v4(192, 168, 0, 1)), "192.168.0.1");
    assert_eq!(ipv4_to_string(&v4(10, 20, 30, 40)), "10.20.30.40");
}
