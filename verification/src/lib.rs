//! Client IP resolution for services behind reverse proxies.
//!
//! Given a request's transport-level peer address and the values of the
//! usual proxy headers (a single-value trusted header and a comma-separated
//! forwarding chain), the library decides which IP address should be treated
//! as the client's identity. Addresses from private, loopback, link-local,
//! documentation and other non-global ranges are never trusted as a public
//! client identity; header evidence is consulted only when the connection
//! itself comes from such an address.

pub mod cache;
pub mod client_addr;
pub mod ip;
pub mod laws;
pub mod text;
pub mod parse;
pub mod render;
pub mod resolve;
