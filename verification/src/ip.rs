//! IP address values and the local/public classifier.

use vstd::prelude::*;

verus! {

/// An IPv4 address, as its four dotted-quad octets.
#[derive(Clone, Copy, Debug, PartialEq, Eq, Structural)]
pub struct Ipv4Address {
    pub a: u8,
    pub b: u8,
    pub c: u8,
    pub d: u8,
}

/// An IPv6 address, as its eight 16-bit segments.
#[derive(Clone, Copy, Debug, PartialEq, Eq, Structural)]
pub struct Ipv6Address {
    pub s0: u16,
    pub s1: u16,
    pub s2: u16,
    pub s3: u16,
    pub s4: u16,
    pub s5: u16,
    pub s6: u16,
    pub s7: u16,
}

/// An IP address of either family.
#[derive(Clone, Copy, Debug, PartialEq, Eq, Structural)]
pub enum IpAddress {
    V4(Ipv4Address),
    V6(Ipv6Address),
}

/// An IPv4 address is local when it lies in a range that is not meaningful
/// as a globally routable client identity: the private ranges 10.0.0.0/8,
/// 172.16.0.0/12 and 192.168.0.0/16, loopback 127.0.0.0/8, link-local
/// 169.254.0.0/16, the broadcast address, the documentation ranges
/// 192.0.2.0/24, 198.51.100.0/24 and 203.0.113.0/24, and the unspecified
/// address.
pub open spec fn is_local_v4(ip: Ipv4Address) -> bool {
    ||| ip.a == 10
    ||| (ip.a == 172 && 16 <= ip.b && ip.b <= 31)
    ||| (ip.a == 192 && ip.b == 168)
    ||| ip.a == 127
    ||| (ip.a == 169 && ip.b == 254)
    ||| (ip.a == 255 && ip.b == 255 && ip.c == 255 && ip.d == 255)
    ||| (ip.a == 192 && ip.b == 0 && ip.c == 2)
    ||| (ip.a == 198 && ip.b == 51 && ip.c == 100)
    ||| (ip.a == 203 && ip.b == 0 && ip.c == 113)
    ||| (ip.a == 0 && ip.b == 0 && ip.c == 0 && ip.d == 0)
}

/// A multicast IPv6 address has 0xff as its top byte.
pub open spec fn is_multicast_v6(ip: Ipv6Address) -> bool {
    ip.s0 >= 0xff00
}

/// The scope nibble of a multicast IPv6 address; 14 is the global scope.
pub open spec fn multicast_scope_v6(ip: Ipv6Address) -> u16 {
    ip.s0 % 16
}

/// An IPv6 address is local when it is a multicast address of other than
/// global scope, the loopback or unspecified address, unicast link-local
/// fe80::/10, the legacy site-local range fec0::/10, unique-local fc00::/7,
/// or the documentation prefix 2001:db8::/32.
pub open spec fn is_local_v6(ip: Ipv6Address) -> bool {
    if is_multicast_v6(ip) {
        multicast_scope_v6(ip) != 14
    } else {
        ||| (ip.s0 == 0 && ip.s1 == 0 && ip.s2 == 0 && ip.s3 == 0 && ip.s4 == 0 && ip.s5 == 0
            && ip.s6 == 0 && (ip.s7 == 1 || ip.s7 == 0))
        ||| (0xfe80 <= ip.s0 && ip.s0 <= 0xfebf)
        ||| (0xfec0 <= ip.s0 && ip.s0 <= 0xfeff)
        ||| (0xfc00 <= ip.s0 && ip.s0 <= 0xfdff)
        ||| (ip.s0 == 0x2001 && ip.s1 == 0xdb8)
    }
}

/// Whether an address must not be trusted as a public client identity.
pub open spec fn is_local(ip: IpAddress) -> bool {
    match ip {
        IpAddress::V4(v4) => is_local_v4(v4),
        IpAddress::V6(v6) => is_local_v6(v6),
    }
}

/// Classifies an address as local (private, loopback, link-local, broadcast,
/// documentation, unspecified or non-globally-scoped multicast) as opposed
/// to public. Total over all addresses; never fails.
pub fn is_local_ip(addr: &IpAddress) -> (r: bool)
    ensures
        r == is_local(*addr),
{
    match addr {
        IpAddress::V4(v4) => {
            if v4.a == 10 {
                true
            } else if v4.a == 172 && 16 <= v4.b && v4.b <= 31 {
                true
            } else if v4.a == 192 && v4.b == 168 {
                true
            } else if v4.a == 127 {
                true
            } else if v4.a == 169 && v4.b == 254 {
                true
            } else if v4.a == 255 && v4.b == 255 && v4.c == 255 && v4.d == 255 {
                true
            } else if v4.a == 192 && v4.b == 0 && v4.c == 2 {
                true
            } else if v4.a == 198 && v4.b == 51 && v4.c == 100 {
                true
            } else if v4.a == 203 && v4.b == 0 && v4.c == 113 {
                true
            } else {
                v4.a == 0 && v4.b == 0 && v4.c == 0 && v4.d == 0
            }
        },
        IpAddress::V6(v6) => {
            if v6.s0 >= 0xff00 {
                v6.s0 % 16 != 14
            } else if v6.s0 == 0 && v6.s1 == 0 && v6.s2 == 0 && v6.s3 == 0 && v6.s4 == 0
                && v6.s5 == 0 && v6.s6 == 0 && (v6.s7 == 1 || v6.s7 == 0) {
                true
            } else if 0xfe80 <= v6.s0 && v6.s0 <= 0xfeff {
                // covers both link-local fe80::/10 and site-local fec0::/10
                true
            } else if 0xfc00 <= v6.s0 && v6.s0 <= 0xfdff {
                true
            } else {
                v6.s0 == 0x2001 && v6.s1 == 0xdb8
            }
        },
    }
}

/// The IPv6-mapped form of an IPv4 address, ::ffff:a.b.c.d.
pub open spec fn v4_mapped(ip: Ipv4Address) -> Ipv6Address {
    Ipv6Address {
        s0: 0,
        s1: 0,
        s2: 0,
        s3: 0,
        s4: 0,
        s5: 0xffff,
        s6: (ip.a * 256 + ip.b) as u16,
        s7: (ip.c * 256 + ip.d) as u16,
    }
}

/// The IPv4 address embedded in an IPv6-mapped (::ffff:a.b.c.d) or
/// IPv4-compatible (::a.b.c.d) address, when there is one.
pub open spec fn v6_to_v4(ip: Ipv6Address) -> Option<Ipv4Address> {
    if ip.s0 == 0 && ip.s1 == 0 && ip.s2 == 0 && ip.s3 == 0 && ip.s4 == 0 && (ip.s5 == 0
        || ip.s5 == 0xffff) {
        Some(
            Ipv4Address {
                a: (ip.s6 / 256) as u8,
                b: (ip.s6 % 256) as u8,
                c: (ip.s7 / 256) as u8,
                d: (ip.s7 % 256) as u8,
            },
        )
    } else {
        None
    }
}

/// Computes the IPv6-mapped form of an IPv4 address.
pub fn to_v6_mapped(ip: &Ipv4Address) -> (r: Ipv6Address)
    ensures
        r == v4_mapped(*ip),
{
    Ipv6Address {
        s0: 0,
        s1: 0,
        s2: 0,
        s3: 0,
        s4: 0,
        s5: 0xffff,
        s6: (ip.a as u16) * 256 + (ip.b as u16),
        s7: (ip.c as u16) * 256 + (ip.d as u16),
    }
}

/// Extracts the IPv4 address embedded in an IPv6-mapped or IPv4-compatible
/// address, when there is one.
pub fn to_v4(ip: &Ipv6Address) -> (r: Option<Ipv4Address>)
    ensures
        r == v6_to_v4(*ip),
{
    if ip.s0 == 0 && ip.s1 == 0 && ip.s2 == 0 && ip.s3 == 0 && ip.s4 == 0 && (ip.s5 == 0 || ip.s5
        == 0xffff) {
        Some(
            Ipv4Address {
                a: (ip.s6 / 256) as u8,
                b: (ip.s6 % 256) as u8,
                c: (ip.s7 / 256) as u8,
                d: (ip.s7 % 256) as u8,
            },
        )
    } else {
        None
    }
}

} // verus!
