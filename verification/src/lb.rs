//! The kinds of upstream pools and the addresses that a pool balances over.

use vstd::prelude::*;

use crate::table::Table;

pub mod laws;

verus! {

/// What a pool's upstreams are used for, and with it the protocol spoken to them.
#[derive(Debug, Clone, Copy, PartialEq, Eq, Hash, Structural)]
pub enum TransportKind {
    /// Plain requests over HTTP/1.1, and upgrade requests.
    Http1,
    /// Plain requests over HTTP/2.
    Http2,
    /// Upstreams set apart for WebSocket. Their health is checked, but no request is routed to them:
    /// upgrade requests go to those of HTTP/1.1.
    Ws,
}

/// A set of backend addresses.
pub struct BackendSet {
    addresses: Table<String, ()>,
}

impl View for BackendSet {
    type V = Set<Seq<char>>;

    closed spec fn view(&self) -> Set<Seq<char>> {
        self.addresses@.dom()
    }
}

impl BackendSet {
    /// The empty set.
    pub fn new() -> (r: Self)
        ensures
            r@ == Set::<Seq<char>>::empty(),
    {
        let r = BackendSet { addresses: Table::new() };
        assert(r@ =~= Set::<Seq<char>>::empty());
        r
    }

    /// Adds an address.
    pub fn insert(&mut self, address: String)
        ensures
            final(self)@ == old(self)@.insert(address@),
    {
        self.addresses.insert(address, ());
        assert(self@ =~= old(self)@.insert(address@));
    }

    /// Whether an address is in the set.
    pub fn contains(&self, address: &str) -> (r: bool)
        ensures
            r == self@.contains(address@),
    {
        self.addresses.contains_key(address)
    }
}

} // verus!
