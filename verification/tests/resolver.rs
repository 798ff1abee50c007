use client_addr::cache::ResolutionCache;
use client_addr::client_addr::ClientAddr;
use client_addr::ip::{IpAddress, Ipv4Address};
use client_addr::resolve::{RequestData, Resolver, Strategy};

fn v4(a: u8, b: u8, c: u8, d: u8) -> IpAddress {
    IpAddress::V4(Ipv4Address { a, b, c, d })
}

fn chain_walker() -> Resolver {
    Resolver::new(Strategy::ChainWalk)
}

#[test]
fn direct_connection_beats_any_header() {
    let req = RequestData::new(
        Some(v4(8, 8, 8, 8)),
        Some("203.0.113.9"),
        Some("10.0.0.1, 203.0.113.5"),
    );
    let got = chain_walker().resolve(&req);
    assert_eq!(got, Some(ClientAddr { ip: v4(8, 8, 8, 8) }));
}

#[test]
fn chain_yields_first_public_from_the_right() {
    let req = RequestData::new(
        Some(v4(127, 0, 0, 1)),
        None,
        Some("10.0.0.1, 8.8.4.4, 10.0.0.2"),
    );
    let got = chain_walker().resolve(&req);
    assert_eq!(got, Some(ClientAddr { ip: v4(8, 8, 4, 4) }));
}

#[test]
fn documentation_addresses_in_a_chain_are_skipped_as_local() {
    // 203.0.113.0/24 is a documentation range, so such a hop is not taken
    // for a public client; the scan continues leftward
    let req = RequestData::new(
        Some(v4(127, 0, 0, 1)),
        None,
        Some("8.8.4.4, 203.0.113.5"),
    );
    let got = chain_walker().resolve(&req);
    assert_eq!(got, Some(ClientAddr { ip: v4(8, 8, 4, 4) }));
}

#[test]
fn all_local_chain_falls_back_to_nearest_hop() {
    let req = RequestData::new(Some(v4(127, 0, 0, 1)), None, Some("10.0.0.1, 10.0.0.2"));
    let got = chain_walker().resolve(&req);
    assert_eq!(got, Some(ClientAddr { ip: v4(10, 0, 0, 2) }));
}

#[test]
fn corrupted_chain_stops_and_falls_back_to_peer() {
    // the rightmost token is unparseable, so the walk stops at once and the
    // peer, though local, is the consistent tie-break
    let req = RequestData::new(Some(v4(127, 0, 0, 1)), None, Some("203.0.113.5, not-an-ip"));
    let got = chain_walker().resolve(&req);
    assert_eq!(got, Some(ClientAddr { ip: v4(127, 0, 0, 1) }));
}

#[test]
fn corrupted_tail_keeps_addresses_already_found() {
    let req = RequestData::new(Some(v4(127, 0, 0, 1)), None, Some("not-an-ip, 10.0.0.7"));
    let got = chain_walker().resolve(&req);
    assert_eq!(got, Some(ClientAddr { ip: v4(10, 0, 0, 7) }));
}

#[test]
fn trusted_header_wins_over_chain() {
    let req = RequestData::new(
        Some(v4(127, 0, 0, 1)),
        Some("203.0.113.9"),
        Some("8.8.8.8"),
    );
    let got = chain_walker().resolve(&req);
    assert_eq!(got, Some(ClientAddr { ip: v4(203, 0, 113, 9) }));
}

#[test]
fn trusted_header_is_taken_even_when_local() {
    let req = RequestData::new(Some(v4(127, 0, 0, 1)), Some("10.1.2.3"), None);
    let got = chain_walker().resolve(&req);
    assert_eq!(got, Some(ClientAddr { ip: v4(10, 1, 2, 3) }));
}

#[test]
fn malformed_trusted_header_falls_through_to_chain() {
    let req = RequestData::new(Some(v4(127, 0, 0, 1)), Some("bogus"), Some("203.0.113.5"));
    let got = chain_walker().resolve(&req);
    assert_eq!(got, Some(ClientAddr { ip: v4(203, 0, 113, 5) }));
}

#[test]
fn empty_chain_value_falls_back_to_peer() {
    let req = RequestData::new(Some(v4(192, 168, 0, 9)), None, Some(""));
    let got = chain_walker().resolve(&req);
    assert_eq!(got, Some(ClientAddr { ip: v4(192, 168, 0, 9) }));
}

#[test]
fn whitespace_tokens_are_trimmed() {
    let req = RequestData::new(
        Some(v4(127, 0, 0, 1)),
        None,
        Some("  10.0.0.1 ,\t203.0.113.5  "),
    );
    let got = chain_walker().resolve(&req);
    assert_eq!(got, Some(ClientAddr { ip: v4(203, 0, 113, 5) }));
}

#[test]
fn nothing_available_is_not_applicable() {
    let req = RequestData::new(None, None, None);
    assert_eq!(chain_walker().resolve(&req), None);
    let local_only = RequestData::new(Some(v4(127, 0, 0, 1)), None, None);
    assert_eq!(
        chain_walker().resolve(&local_only),
        Some(ClientAddr { ip: v4(127, 0, 0, 1) })
    );
}

#[test]
fn v6_chain_resolves() {
    let req = RequestData::new(None, None, Some("2001:db8::1, 2607:f8b0::1"));
    let got = chain_walker().resolve(&req);
    let expect = client_addr::parse::parse_ip_str("2607:f8b0::1").unwrap();
    assert_eq!(got, Some(ClientAddr { ip: expect }));
}

#[test]
fn peer_only_strategy_never_reads_headers() {
    let r = Resolver::new(Strategy::PeerOnly);
    let behind_proxy = RequestData::new(Some(v4(127, 0, 0, 1)), Some("8.8.8.8"), Some("8.8.8.8"));
    assert_eq!(r.resolve(&behind_proxy), None);
    let direct = RequestData::new(Some(v4(8, 8, 8, 8)), None, None);
    assert_eq!(r.resolve(&direct), Some(ClientAddr { ip: v4(8, 8, 8, 8) }));
}

#[test]
fn single_header_strategy_ignores_the_chain() {
    let r = Resolver::new(Strategy::SingleHeaderOnly);
    let req = RequestData::new(Some(v4(127, 0, 0, 1)), None, Some("203.0.113.5"));
    assert_eq!(r.resolve(&req), Some(ClientAddr { ip: v4(127, 0, 0, 1) }));
    let with_header = RequestData::new(Some(v4(127, 0, 0, 1)), Some("203.0.113.9"), None);
    assert_eq!(
        r.resolve(&with_header),
        Some(ClientAddr { ip: v4(203, 0, 113, 9) })
    );
}

#[test]
fn resolution_is_idempotent() {
    let r = chain_walker();
    let req = RequestData::new(Some(v4(127, 0, 0, 1)), None, Some("10.0.0.1, 203.0.113.5"));
    let first = r.resolve(&req);
    let second = r.resolve(&req);
    assert_eq!(first, second);
}

#[test]
fn cache_returns_the_stored_value() {
    let r = chain_walker();
    let req = RequestData::new(Some(v4(127, 0, 0, 1)), None, Some("10.0.0.1, 203.0.113.5"));
    let mut cache = ResolutionCache::new();
    let first = cache.lookup(&r, &req);
    assert_eq!(first, Some(ClientAddr { ip: v4(203, 0, 113, 5) }));
    let second = cache.lookup(&r, &req);
    assert_eq!(second, first);
    // a second lookup never recomputes: even other request data leaves the
    // stored value in place
    let other = RequestData::new(Some(v4(8, 8, 8, 8)), None, None);
    let third = cache.lookup(&r, &other);
    assert_eq!(third, first);
}
