use client_addr::ip::{is_local_ip, IpAddress, Ipv4Address, Ipv6Address};
use client_addr::parse::parse_ip_str;

fn v4(a: u8, b: u8, c: u8, d: u8) -> IpAddress {
    IpAddress::V4(Ipv4Address { a, b, c, d })
}

fn local_of(s: &str) -> bool {
    is_local_ip(&parse_ip_str(s).unwrap())
}

#[test]
fn private_ranges_are_local() {
    assert!(is_local_ip(&v4(10, 0, 0, 1)));
    assert!(is_local_ip(&v4(10, 255, 255, 255)));
    assert!(is_local_ip(&v4(172, 16, 0, 0)));
    assert!(is_local_ip(&v4(172, 31, 255, 255)));
    assert!(is_local_ip(&v4(192, 168, 0, 1)));
    assert!(is_local_ip(&v4(192, 168, 255, 255)));
}

#[test]
fn loopback_and_link_local_are_local() {
    assert!(is_local_ip(&v4(127, 0, 0, 1)));
    assert!(is_local_ip(&v4(127, 255, 0, 3)));
    assert!(is_local_ip(&v4(169, 254, 1, 1)));
}

#[test]
fn broadcast_documentation_unspecified_are_local() {
    assert!(is_local_ip(&v4(255, 255, 255, 255)));
    assert!(is_local_ip(&v4(192, 0, 2, 7)));
    assert!(is_local_ip(&v4(198, 51, 100, 200)));
    assert!(is_local_ip(&v4(203, 0, 113, 0)));
    assert!(is_local_ip(&v4(0, 0, 0, 0)));
}

#[test]
fn public_v4_addresses_are_not_local() {
    assert!(!is_local_ip(&v4(8, 8, 8, 8)));
    assert!(!is_local_ip(&v4(1, 1, 1, 1)));
    assert!(!is_local_ip(&v4(172, 15, 255, 255)));
    assert!(!is_local_ip(&v4(172, 32, 0, 0)));
    assert!(!is_local_ip(&v4(192, 167, 0, 1)));
    assert!(!is_local_ip(&v4(192, 0, 3, 1)));
    assert!(!is_local_ip(&v4(169, 253, 1, 1)));
    assert!(!is_local_ip(&v4(255, 255, 255, 254)));
    assert!(!is_local_ip(&v4(11, 0, 0, 1)));
}

#[test]
fn v6_loopback_unspecified_documentation_are_local() {
    assert!(local_of("::1"));
    assert!(local_of("::"));
    assert!(local_of("2001:db8::1"));
}

#[test]
fn v6_link_site_unique_local_are_local() {
    assert!(local_of("fe80::1"));
    assert!(local_of("febf::1"));
    assert!(local_of("fec0::1"));
    assert!(local_of("fc00::1"));
    assert!(local_of("fd12:3456:789a::1"));
}

#[test]
fn v6_multicast_scope_decides() {
    // global scope (nibble 14) is not local; every other scope is
    assert!(!local_of("ff0e::1"));
    assert!(!local_of("ff1e::1"));
    assert!(local_of("ff02::1"));
    assert!(local_of("ff05::1"));
    assert!(local_of("ff00::1"));
}

#[test]
fn v6_global_unicast_is_not_local() {
    assert!(!local_of("2607:f8b0::1"));
    assert!(!local_of("2001:db9::1"));
    assert!(!local_of("fe00::1"));
}

#[test]
fn segments_build_the_same_value_as_parsing() {
    let parsed = parse_ip_str("fe80::1").unwrap();
    let built = IpAddress::V6(Ipv6Address {
        s0: 0xfe80,
        s1: 0,
        s2: 0,
        s3: 0,
        s4: 0,
        s5: 0,
        s6: 0,
        s7: 1,
    });
    assert_eq!(parsed, built);
}
