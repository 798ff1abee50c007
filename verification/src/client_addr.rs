//! The resolved client address and its accessors.

use vstd::prelude::*;

use crate::ip::{v4_mapped, v6_to_v4, IpAddress, Ipv4Address, Ipv6Address};
use crate::render::{ascii_chars, render_ip, v4_literal, v6_literal};

verus! {

/// The IP address that should be treated as the client's identity.
#[derive(Clone, Copy, Debug, PartialEq, Eq, Structural)]
pub struct ClientAddr {
    /// IP address of the client.
    pub ip: IpAddress,
}

/// The address as IPv4: itself when it is one, or the address an
/// IPv4-mapped or IPv4-compatible IPv6 address embeds.
pub open spec fn client_v4(c: ClientAddr) -> Option<Ipv4Address> {
    match c.ip {
        IpAddress::V4(v4) => Some(v4),
        IpAddress::V6(v6) => v6_to_v4(v6),
    }
}

/// The address as IPv6: itself when it is one, else its IPv6-mapped form.
pub open spec fn client_v6(c: ClientAddr) -> Ipv6Address {
    match c.ip {
        IpAddress::V4(v4) => v4_mapped(v4),
        IpAddress::V6(v6) => v6,
    }
}

impl ClientAddr {
    /// Get the address as an `Ipv4Address`, when it is representable as one.
    pub fn get_ipv4(&self) -> (r: Option<Ipv4Address>)
        ensures
            r == client_v4(*self),
    {
        match &self.ip {
            IpAddress::V4(v4) => Some(*v4),
            IpAddress::V6(v6) => crate::ip::to_v4(v6),
        }
    }

    /// Get the dotted-quad string of the address as IPv4, when it is
    /// representable as one.
    pub fn get_ipv4_string(&self) -> (r: Option<String>)
        ensures
            match client_v4(*self) {
                Some(v4) => r matches Some(st) && st@ == ascii_chars(v4_literal(v4)),
                None => r is None,
            },
    {
        match self.get_ipv4() {
            Some(v4) => Some(render_ip(&IpAddress::V4(v4))),
            None => None,
        }
    }

    /// Get the address as an `Ipv6Address`, mapping an IPv4 address to its
    /// IPv6-mapped form.
    pub fn get_ipv6(&self) -> (r: Ipv6Address)
        ensures
            r == client_v6(*self),
    {
        match &self.ip {
            IpAddress::V4(v4) => crate::ip::to_v6_mapped(v4),
            IpAddress::V6(v6) => *v6,
        }
    }

    /// Get the canonical colon-grouped string of the address as IPv6.
    pub fn get_ipv6_string(&self) -> (r: String)
        ensures
            r@ == ascii_chars(v6_literal(client_v6(*self))),
    {
        let v6 = self.get_ipv6();
        render_ip(&IpAddress::V6(v6))
    }
}

} // verus!
