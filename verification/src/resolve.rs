//! The trust-resolution algorithm: which address counts as the client.

use vstd::prelude::*;

use crate::client_addr::ClientAddr;
use crate::ip::{is_local, is_local_ip, IpAddress};
use crate::parse::{parse_ip, parse_ip_spec};
use crate::text::{
    lemma_rfind_at, lemma_rfind_none, rfind_byte, trim_bytes, trim_exec,
};
use vstd::string::{StrSliceExecFns, StringSliceAdditionalSpecFns};

verus! {

/// How much header evidence a resolver consults.
#[derive(Clone, Copy, Debug, PartialEq, Eq, Structural)]
pub enum Strategy {
    /// Only the peer address; headers are never trusted.
    PeerOnly,
    /// The peer address, then the single-value trusted header.
    SingleHeaderOnly,
    /// The peer address, the trusted header, then the forwarding chain.
    ChainWalk,
}

/// The read-only request data the resolver inspects: the transport-level
/// peer address and the first value of each proxy header, as raw bytes.
#[derive(Debug)]
pub struct RequestData {
    /// The address at the other end of the connection, when there is one.
    pub peer: Option<IpAddress>,
    /// The first value of the single-value trusted header (x-real-ip).
    pub real_ip: Option<Vec<u8>>,
    /// The first value of the forwarding-chain header (x-forwarded-for).
    pub forwarded: Option<Vec<u8>>,
}

/// The bytes of an optional header value.
pub open spec fn opt_view(o: Option<Vec<u8>>) -> Option<Seq<u8>> {
    match o {
        Some(v) => Some(v@),
        None => None,
    }
}

impl RequestData {
    /// Builds request data from header values given as strings.
    pub fn new(peer: Option<IpAddress>, real_ip: Option<&str>, forwarded: Option<&str>) -> (r:
        RequestData)
        ensures
            r.peer == peer,
            opt_view(r.real_ip) == match real_ip {
                Some(s) => Some(s.spec_bytes()),
                None => None::<Seq<u8>>,
            },
            opt_view(r.forwarded) == match forwarded {
                Some(s) => Some(s.spec_bytes()),
                None => None::<Seq<u8>>,
            },
    {
        RequestData {
            peer,
            real_ip: match real_ip {
                Some(s) => Some(s.as_bytes_vec()),
                None => None,
            },
            forwarded: match forwarded {
                Some(s) => Some(s.as_bytes_vec()),
                None => None,
            },
        }
    }
}

/// One step of the right-to-left chain walk over the bytes `s` of what is
/// left of the chain, with `fb` the fallback recorded so far: the token
/// after the last comma is trimmed and parsed; a public address wins at
/// once; a local one is recorded as fallback if none is yet and the walk
/// moves left; an unparseable token stops the walk with the fallback.
pub open spec fn chain_lookup(s: Seq<u8>, fb: Option<IpAddress>) -> Option<IpAddress>
    decreases s.len(),
{
    if s.len() == 0 {
        fb
    } else {
        match rfind_byte(s, 44) {
            None => match parse_ip_spec(trim_bytes(s)) {
                None => fb,
                Some(ip) => if !is_local(ip) {
                    Some(ip)
                } else if fb is Some {
                    fb
                } else {
                    Some(ip)
                },
            },
            Some(i0) => {
                let i = if 0 <= i0 < s.len() {
                    i0
                } else {
                    0
                };
                match parse_ip_spec(trim_bytes(s.skip(i + 1))) {
                    None => fb,
                    Some(ip) => if !is_local(ip) {
                        Some(ip)
                    } else {
                        chain_lookup(
                            s.take(i),
                            if fb is Some {
                                fb
                            } else {
                                Some(ip)
                            },
                        )
                    },
                }
            },
        }
    }
}

/// The address a forwarding-chain header value yields, if any.
pub open spec fn chain_result(s: Seq<u8>) -> Option<IpAddress> {
    chain_lookup(s, None)
}

/// The address the single-value trusted header yields, if any.
pub open spec fn header_result(h: Option<Seq<u8>>) -> Option<IpAddress> {
    match h {
        Some(s) => parse_ip_spec(trim_bytes(s)),
        None => None,
    }
}

pub open spec fn chain_header_result(h: Option<Seq<u8>>) -> Option<IpAddress> {
    match h {
        Some(s) => chain_result(s),
        None => None,
    }
}

/// The header-consulting resolution: a present non-local peer wins at once;
/// otherwise the trusted header, parsed, wins even when local; otherwise
/// the forwarding chain is walked; otherwise the peer, even when local,
/// is the last resort.
pub open spec fn resolve_steps(
    peer: Option<IpAddress>,
    real_h: Option<Seq<u8>>,
    fwd: Option<Seq<u8>>,
) -> Option<IpAddress> {
    if peer is Some && !is_local(peer->0) {
        peer
    } else if header_result(real_h) is Some {
        header_result(real_h)
    } else if chain_header_result(fwd) is Some {
        chain_header_result(fwd)
    } else {
        peer
    }
}

/// What each strategy resolves to on given request data.
pub open spec fn resolve_spec(
    strategy: Strategy,
    peer: Option<IpAddress>,
    real_h: Option<Seq<u8>>,
    fwd: Option<Seq<u8>>,
) -> Option<IpAddress> {
    match strategy {
        Strategy::PeerOnly => match peer {
            Some(p) => if !is_local(p) {
                Some(p)
            } else {
                None
            },
            None => None,
        },
        Strategy::SingleHeaderOnly => resolve_steps(peer, real_h, None),
        Strategy::ChainWalk => resolve_steps(peer, real_h, fwd),
    }
}

/// A resolution result wrapped as the guard value handed to callers.
pub open spec fn wrap_client(o: Option<IpAddress>) -> Option<ClientAddr> {
    match o {
        Some(ip) => Some(ClientAddr { ip }),
        None => None,
    }
}

/// Finds the last comma among the first `end` bytes.
fn rfind_comma(s: &[u8], end: usize) -> (r: Option<usize>)
    requires
        end <= s@.len(),
    ensures
        match r {
            Some(i) => i < end && rfind_byte(s@.take(end as int), 44) == Some(i as int),
            None => rfind_byte(s@.take(end as int), 44) == None::<int>,
        },
{
    let mut j: usize = end;
    while j > 0
        invariant
            j <= end <= s@.len(),
            forall|k: int| j <= k < end ==> s@[k] != 44,
        decreases j,
    {
        if s[j - 1] == 44 {
            proof {
                let t = s@.take(end as int);
                assert(t[j - 1] == s@[j - 1]);
                assert(forall|k: int| j <= k < end ==> #[trigger] t[k] != 44);
                lemma_rfind_at(t, 44, j as int - 1);
            }
            return Some(j - 1);
        }
        j -= 1;
    }
    proof {
        let t = s@.take(end as int);
        assert(forall|k: int| 0 <= k < t.len() ==> #[trigger] t[k] != 44);
        lemma_rfind_none(t, 44);
    }
    None
}

/// Walks a forwarding chain from its nearest hop leftward: the first public
/// address wins; an unparseable token stops the walk; when only local
/// addresses were seen, the nearest parsed one is returned.
pub fn walk_chain(s: &[u8]) -> (r: Option<IpAddress>)
    ensures
        r == chain_result(s@),
{
    let mut end: usize = s.len();
    let mut fb: Option<IpAddress> = None;
    proof {
        assert(s@.take(s@.len() as int) =~= s@);
    }
    loop
        invariant
            end <= s@.len(),
            chain_lookup(s@.take(end as int), fb) == chain_lookup(s@, None),
        decreases end,
    {
        let ghost t = s@.take(end as int);
        if end == 0 {
            proof {
                assert(t.len() == 0);
            }
            return fb;
        }
        match rfind_comma(s, end) {
            None => {
                let tok = trim_exec(vstd::slice::slice_subrange(s, 0, end));
                proof {
                    assert(s@.subrange(0, end as int) =~= t);
                }
                match parse_ip(tok) {
                    None => {
                        return fb;
                    },
                    Some(ip) => {
                        if !is_local_ip(&ip) {
                            return Some(ip);
                        } else if fb.is_some() {
                            return fb;
                        } else {
                            return Some(ip);
                        }
                    },
                }
            },
            Some(i) => {
                let tok = trim_exec(vstd::slice::slice_subrange(s, i + 1, end));
                proof {
                    assert(s@.subrange(i as int + 1, end as int) =~= t.skip(i as int + 1));
                }
                match parse_ip(tok) {
                    None => {
                        return fb;
                    },
                    Some(ip) => {
                        if !is_local_ip(&ip) {
                            return Some(ip);
                        }
                        let ghost old_fb = fb;
                        if fb.is_none() {
                            fb = Some(ip);
                        }
                        proof {
                            assert(t.take(i as int) =~= s@.take(i as int));
                            assert(chain_lookup(t, old_fb) == chain_lookup(s@.take(i as int), fb));
                        }
                        end = i;
                    },
                }
            },
        }
    }
}

/// A client-address resolver configured with a trust strategy.
#[derive(Clone, Copy, Debug, PartialEq, Eq, Structural)]
pub struct Resolver {
    pub strategy: Strategy,
}

impl Resolver {
    pub fn new(strategy: Strategy) -> (r: Resolver)
        ensures
            r.strategy == strategy,
    {
        Resolver { strategy }
    }

    /// Resolves the client address for the given request data; `None` means
    /// the guard does not apply, never an error.
    pub fn resolve(&self, req: &RequestData) -> (r: Option<ClientAddr>)
        ensures
            r == wrap_client(
                resolve_spec(self.strategy, req.peer, opt_view(req.real_ip), opt_view(req.forwarded)),
            ),
    {
        match self.strategy {
            Strategy::PeerOnly => match &req.peer {
                Some(p) => if !is_local_ip(p) {
                    Some(ClientAddr { ip: *p })
                } else {
                    None
                },
                None => None,
            },
            Strategy::SingleHeaderOnly => resolve_with_headers(req, false),
            Strategy::ChainWalk => resolve_with_headers(req, true),
        }
    }
}

/// The header-consulting resolution shared by the two header strategies.
fn resolve_with_headers(req: &RequestData, use_chain: bool) -> (r: Option<ClientAddr>)
    ensures
        r == wrap_client(
            resolve_steps(
                req.peer,
                opt_view(req.real_ip),
                if use_chain {
                    opt_view(req.forwarded)
                } else {
                    None
                },
            ),
        ),
{
    if let Some(p) = &req.peer {
        if !is_local_ip(p) {
            return Some(ClientAddr { ip: *p });
        }
    }
    if let Some(h) = &req.real_ip {
        let tok = trim_exec(h.as_slice());
        if let Some(ip) = parse_ip(tok) {
            return Some(ClientAddr { ip });
        }
    }
    if use_chain {
        if let Some(h) = &req.forwarded {
            if let Some(ip) = walk_chain(h.as_slice()) {
                return Some(ClientAddr { ip });
            }
        }
    }
    match &req.peer {
        Some(p) => Some(ClientAddr { ip: *p }),
        None => None,
    }
}

} // verus!
