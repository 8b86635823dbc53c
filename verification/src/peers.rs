use vstd::prelude::*;

use crate::resolve::str_eq;

verus! {

/// One registered direct connection: the endpoint it belongs to and the
/// caller's handle for the established transport.
#[derive(Debug, Clone, PartialEq, Eq)]
pub struct PeerEntry {
    pub endpoint: String,
    pub conn: usize,
}

/// The direct connection registered for an endpoint, the most recently
/// registered one winning.
pub open spec fn lookup_in(s: Seq<PeerEntry>, ep: Seq<char>) -> Option<usize>
    decreases s,
{
    if s.len() == 0 {
        None
    } else if s.last().endpoint@ == ep {
        Some(s.last().conn)
    } else {
        lookup_in(s.drop_last(), ep)
    }
}

/// The table of direct peer-to-peer connections, keyed by target endpoint.
/// It is built once, before the direct-transport traversal starts, and only
/// read afterwards; endpoints registered twice keep the later connection.
pub struct PeerTable {
    entries: Vec<PeerEntry>,
}

impl PeerTable {
    /// The connection handle registered for an endpoint, if any.
    pub closed spec fn spec_lookup(self, ep: Seq<char>) -> Option<usize> {
        lookup_in(self.entries@, ep)
    }

    pub closed spec fn spec_len(self) -> nat {
        self.entries@.len()
    }

    pub fn new() -> (t: PeerTable)
        ensures
            forall|e: Seq<char>| #[trigger] t.spec_lookup(e) == None::<usize>,
            t.spec_len() == 0,
    {
        PeerTable { entries: Vec::new() }
    }

    /// Registers the direct connection negotiated for an endpoint; a later
    /// registration for the same endpoint replaces an earlier one.
    pub fn register(&mut self, endpoint: String, conn: usize)
        ensures
            forall|e: Seq<char>| #[trigger]
                final(self).spec_lookup(e) == if e == endpoint@ {
                    Some(conn)
                } else {
                    old(self).spec_lookup(e)
                },
            final(self).spec_len() == old(self).spec_len() + 1,
    {
        let ghost pre = self.entries@;
        self.entries.push(PeerEntry { endpoint, conn });
        proof {
            assert(self.entries@.drop_last() =~= pre);
        }
    }

    /// Finds the direct connection registered for an endpoint.
    pub fn lookup(&self, endpoint: &str) -> (r: Option<usize>)
        ensures
            r == self.spec_lookup(endpoint@),
    {
        let mut i: usize = self.entries.len();
        proof {
            assert(self.entries@.subrange(0, i as int) =~= self.entries@);
        }
        while i > 0
            invariant
                0 <= i <= self.entries@.len(),
                lookup_in(self.entries@.subrange(0, i as int), endpoint@) == self.spec_lookup(
                    endpoint@,
                ),
            decreases i,
        {
            i = i - 1;
            let ghost upto = self.entries@.subrange(0, i + 1);
            proof {
                assert(upto.last() == self.entries@[i as int]);
                assert(upto.drop_last() =~= self.entries@.subrange(0, i as int));
            }
            if str_eq(self.entries[i].endpoint.as_str(), endpoint) {
                return Some(self.entries[i].conn);
            }
        }
        proof {
            assert(self.entries@.subrange(0, 0) =~= Seq::<PeerEntry>::empty());
        }
        None
    }

    /// Picks the connection for a child reference: the registered direct
    /// connection when one exists, otherwise the routed connection — a
    /// missing peer connection is never fatal, the traversal falls back.
    pub fn pick_or(&self, endpoint: &str, routed: usize) -> (c: usize)
        ensures
            c == match self.spec_lookup(endpoint@) {
                Some(p) => p,
                None => routed,
            },
    {
        match self.lookup(endpoint) {
            Some(p) => p,
            None => routed,
        }
    }

    /// How many direct connections are registered.
    pub fn peer_count(&self) -> (n: usize)
        ensures
            n == self.spec_len(),
    {
        self.entries.len()
    }
}

} // verus!
