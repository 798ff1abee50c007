use client_addr::client_addr::ClientAddr;
use client_addr::ip::{IpAddress, Ipv4Address, Ipv6Address};
use client_addr::parse::parse_ip_str;
use client_addr::render::{render_ip, render_ipv4};

fn v4(a: u8, b: u8, c: u8, d: u8) -> IpAddress {
    IpAddress::V4(Ipv4Address { a, b, c, d })
}

fn v6(s: [u16; 8]) -> IpAddress {
    IpAddress::V6(Ipv6Address {
        s0: s[0],
        s1: s[1],
        s2: s[2],
        s3: s[3],
        s4: s[4],
        s5: s[5],
        s6: s[6],
        s7: s[7],
    })
}

#[test]
fn parses_dotted_quads() {
    assert_eq!(parse_ip_str("1.2.3.4"), Some(v4(1, 2, 3, 4)));
    assert_eq!(parse_ip_str("0.0.0.0"), Some(v4(0, 0, 0, 0)));
    assert_eq!(parse_ip_str("255.255.255.255"), Some(v4(255, 255, 255, 255)));
    assert_eq!(parse_ip_str("203.0.113.5"), Some(v4(203, 0, 113, 5)));
}

#[test]
fn rejects_bad_dotted_quads() {
    assert_eq!(parse_ip_str("256.1.1.1"), None);
    assert_eq!(parse_ip_str("01.2.3.4"), None);
    assert_eq!(parse_ip_str("1.2.3"), None);
    assert_eq!(parse_ip_str("1.2.3.4.5"), None);
    assert_eq!(parse_ip_str("1.2.3."), None);
    assert_eq!(parse_ip_str(".1.2.3"), None);
    assert_eq!(parse_ip_str("1.2.3.4 "), None);
    assert_eq!(parse_ip_str("not-an-ip"), None);
    assert_eq!(parse_ip_str(""), None);
}

#[test]
fn parses_full_v6_groups() {
    assert_eq!(
        parse_ip_str("1:2:3:4:5:6:7:8"),
        Some(v6([1, 2, 3, 4, 5, 6, 7, 8]))
    );
    assert_eq!(
        parse_ip_str("fe80:0:0:0:0:0:0:1"),
        Some(v6([0xfe80, 0, 0, 0, 0, 0, 0, 1]))
    );
    assert_eq!(
        parse_ip_str("ABCD:ef01:0:0:0:0:0:0"),
        Some(v6([0xabcd, 0xef01, 0, 0, 0, 0, 0, 0]))
    );
}

#[test]
fn parses_compressed_v6() {
    assert_eq!(parse_ip_str("::"), Some(v6([0, 0, 0, 0, 0, 0, 0, 0])));
    assert_eq!(parse_ip_str("::1"), Some(v6([0, 0, 0, 0, 0, 0, 0, 1])));
    assert_eq!(parse_ip_str("1::"), Some(v6([1, 0, 0, 0, 0, 0, 0, 0])));
    assert_eq!(
        parse_ip_str("2001:db8::1"),
        Some(v6([0x2001, 0xdb8, 0, 0, 0, 0, 0, 1]))
    );
    assert_eq!(
        parse_ip_str("1:2::7:8"),
        Some(v6([1, 2, 0, 0, 0, 0, 7, 8]))
    );
    assert_eq!(
        parse_ip_str("::ffff:102:304"),
        Some(v6([0, 0, 0, 0, 0, 0xffff, 0x102, 0x304]))
    );
}

#[test]
fn rejects_bad_v6() {
    assert_eq!(parse_ip_str(":::"), None);
    assert_eq!(parse_ip_str("1::2::3"), None);
    assert_eq!(parse_ip_str("1:2:3:4:5:6:7"), None);
    assert_eq!(parse_ip_str("1:2:3:4:5:6:7:8:9"), None);
    assert_eq!(parse_ip_str("fffff::"), None);
    assert_eq!(parse_ip_str("g::1"), None);
    assert_eq!(parse_ip_str(":1:2:3:4:5:6:7"), None);
    assert_eq!(parse_ip_str("1:2:3:4:5:6:7:"), None);
    assert_eq!(parse_ip_str("1:2:3:4:5:6:7:8::"), None);
}

#[test]
fn renders_canonical_forms() {
    assert_eq!(render_ip(&v4(192, 168, 0, 1)), "192.168.0.1");
    assert_eq!(render_ip(&v4(8, 8, 8, 8)), "8.8.8.8");
    assert_eq!(
        render_ip(&v6([0x2001, 0xdb8, 0, 0, 0, 0, 0, 1])),
        "2001:db8:0:0:0:0:0:1"
    );
    assert_eq!(render_ip(&v6([0, 0, 0, 0, 0, 0, 0, 0])), "0:0:0:0:0:0:0:0");
    assert_eq!(
        render_ip(&v6([0xfe80, 0, 0, 0, 0x1234, 0xabcd, 0x99, 0xf])),
        "fe80:0:0:0:1234:abcd:99:f"
    );
    let bytes = render_ipv4(&Ipv4Address { a: 10, b: 0, c: 0, d: 200 });
    assert_eq!(bytes, b"10.0.0.200".to_vec());
}

#[test]
fn round_trip_reparses_to_the_same_address() {
    for s in ["192.168.0.1", "8.8.8.8", "0.0.0.0", "2001:db8::1", "::", "::1", "ff0e::1"] {
        let ip = parse_ip_str(s).unwrap();
        let rendered = render_ip(&ip);
        assert_eq!(parse_ip_str(&rendered), Some(ip));
    }
}

#[test]
fn accessors_map_between_families() {
    let c = ClientAddr { ip: v4(1, 2, 3, 4) };
    assert_eq!(c.get_ipv4(), Some(Ipv4Address { a: 1, b: 2, c: 3, d: 4 }));
    assert_eq!(c.get_ipv4_string(), Some("1.2.3.4".to_string()));
    assert_eq!(
        c.get_ipv6(),
        Ipv6Address { s0: 0, s1: 0, s2: 0, s3: 0, s4: 0, s5: 0xffff, s6: 0x102, s7: 0x304 }
    );
    assert_eq!(c.get_ipv6_string(), "0:0:0:0:0:ffff:102:304");

    let mapped = ClientAddr { ip: v6([0, 0, 0, 0, 0, 0xffff, 0x102, 0x304]) };
    assert_eq!(mapped.get_ipv4(), Some(Ipv4Address { a: 1, b: 2, c: 3, d: 4 }));
    assert_eq!(mapped.get_ipv4_string(), Some("1.2.3.4".to_string()));

    let global = ClientAddr { ip: v6([0x2607, 0xf8b0, 0, 0, 0, 0, 0, 1]) };
    assert_eq!(global.get_ipv4(), None);
    assert_eq!(global.get_ipv4_string(), None);
    assert_eq!(global.get_ipv6_string(), "2607:f8b0:0:0:0:0:0:1");
}
