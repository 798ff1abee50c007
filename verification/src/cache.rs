//! A once-per-request memoization slot for the resolution result.

use vstd::prelude::*;

use crate::client_addr::ClientAddr;
use crate::resolve::{opt_view, resolve_spec, wrap_client, RequestData, Resolver};

verus! {

/// A resolution cache scoped to one request: the first lookup computes and
/// stores the result, every later lookup returns the stored value unchanged,
/// so repeated resolutions within one request are identical.
#[derive(Clone, Copy, Debug)]
pub struct ResolutionCache {
    slot: Option<Option<ClientAddr>>,
}

impl ResolutionCache {
    /// What the cache holds: nothing yet, or the stored resolution result.
    pub closed spec fn entry(&self) -> Option<Option<ClientAddr>> {
        self.slot
    }

    /// An empty cache for a fresh request.
    pub fn new() -> (r: ResolutionCache)
        ensures
            r.entry() is None,
    {
        ResolutionCache { slot: None }
    }

    /// Resolves through the cache: the first call stores the resolver's
    /// answer, and every call returns the value the first call stored.
    pub fn lookup(&mut self, resolver: &Resolver, req: &RequestData) -> (r: Option<ClientAddr>)
        ensures
            final(self).entry() == Some(r),
            match old(self).entry() {
                Some(v) => r == v && *final(self) == *old(self),
                None => r == wrap_client(
                    resolve_spec(
                        resolver.strategy,
                        req.peer,
                        opt_view(req.real_ip),
                        opt_view(req.forwarded),
                    ),
                ),
            },
    {
        match self.slot {
            Some(v) => v,
            None => {
                let r = resolver.resolve(req);
                self.slot = Some(r);
                r
            },
        }
    }
}

} // verus!
