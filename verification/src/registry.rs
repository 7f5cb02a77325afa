//! The client registry: a bounded LRU map from peer address to the tick
//! the peer was last heard from.

use vstd::prelude::*;

use crate::lru::{AddrLru, StoreUpdate, addr_lru_entries, addr_lru_insert, addr_lru_model, addr_lru_new};
use crate::model::{Addr, MAX_CLIENTS, distinct_keys, has_key, key_index, lemma_lru_insert_wf, lru_insert};

verus! {

/// Bounded LRU registry of the peers recently heard from, holding at most
/// `MAX_CLIENTS` of them, each with the tick of its last datagram.
pub struct ClientRegistry {
    lru: AddrLru,
}

impl View for ClientRegistry {
    type V = Seq<(Addr, u64)>;

    /// The registry's entries, most recently active first.
    closed spec fn view(&self) -> Seq<(Addr, u64)> {
        addr_lru_model(self.lru)
    }
}

/// The registry contents after `a` is touched at tick `now`.
pub open spec fn touched(s: Seq<(Addr, u64)>, a: Addr, now: u64) -> Seq<(Addr, u64)> {
    lru_insert(s, MAX_CLIENTS as nat, a, now)
}

impl ClientRegistry {
    /// Each address appears at most once and capacity is respected.
    pub open spec fn wf(&self) -> bool {
        distinct_keys(self@) && self@.len() <= MAX_CLIENTS
    }

    /// An empty registry.
    pub fn new() -> (r: ClientRegistry)
        ensures
            r.wf(),
            r@ == Seq::<(Addr, u64)>::empty(),
    {
        ClientRegistry { lru: addr_lru_new() }
    }

    /// Upserts `a -> now` and moves `a` to the most recently used position,
    /// evicting the least recently used peer when a fresh address arrives at
    /// capacity. Reports whether `a` was absent until now.
    pub fn touch(&mut self, a: Addr, now: u64) -> (was_new: bool)
        requires
            old(self).wf(),
        ensures
            final(self).wf(),
            was_new == !has_key(old(self)@, a),
            final(self)@ == touched(old(self)@, a, now),
            !was_new ==> final(self)@.len() == old(self)@.len(),
    {
        proof {
            lemma_lru_insert_wf(self@, MAX_CLIENTS as nat, a, now);
        }
        match addr_lru_insert(&mut self.lru, a, now) {
            StoreUpdate::Rebound(_) => false,
            StoreUpdate::Fresh => true,
            StoreUpdate::Evicted(_, _) => true,
        }
    }

    /// The full current contents, most recently active first; fan-out
    /// follows this order directly.
    pub fn snapshot(&self) -> (r: Vec<(Addr, u64)>)
        ensures
            r@ == self@,
    {
        addr_lru_entries(&self.lru)
    }
}

/// Capacity law: however a well-formed registry is touched, its size
/// never exceeds `MAX_CLIENTS`, and a fresh address arriving at capacity
/// evicts exactly the least recently used entry — the new contents are the
/// new entry in front of all the old ones but the last.
pub proof fn lemma_touch_capacity(s: Seq<(Addr, u64)>, a: Addr, now: u64)
    requires
        distinct_keys(s),
        s.len() <= MAX_CLIENTS,
    ensures
        touched(s, a, now).len() <= MAX_CLIENTS,
        !has_key(s, a) && s.len() == MAX_CLIENTS ==> touched(s, a, now) == seq![(a, now)]
            + s.drop_last(),
{
    lemma_lru_insert_wf(s, MAX_CLIENTS as nat, a, now);
}

/// Touch idempotence on an existing key: touching an address already
/// present never changes the registry's size, and no entry is evicted —
/// every other address stays.
pub proof fn lemma_touch_existing(s: Seq<(Addr, u64)>, a: Addr, now: u64)
    requires
        distinct_keys(s),
        s.len() <= MAX_CLIENTS,
        has_key(s, a),
    ensures
        touched(s, a, now).len() == s.len(),
        forall|i: int|
            0 <= i < s.len() ==> has_key(touched(s, a, now), (#[trigger] s[i]).0),
{
    lemma_lru_insert_wf(s, MAX_CLIENTS as nat, a, now);
    let t = touched(s, a, now);
    let j = key_index(s, a);
    assert(0 <= j < s.len() && s[j].0 == a);
    assert forall|i: int| 0 <= i < s.len() implies has_key(t, (#[trigger] s[i]).0) by {
        if i == j {
            assert(t[0].0 == a);
        } else if i < j {
            assert(t[i + 1] == s[i]);
        } else {
            assert(t[i] == s[i]);
        }
    }
}

} // verus!
