//! The mathematical model shared by the registry and the replay buffer:
//! peer addresses, association sequences with distinct keys, and the
//! bounded-LRU insertion rule.

use vstd::prelude::*;

verus! {

/// The capacity of the client registry.
pub const MAX_CLIENTS: usize = 64;

/// The capacity of the replay buffer.
pub const MAX_REPLAY: usize = 16;

/// A UDP endpoint. IPv4 addresses are carried in their IPv6-mapped form,
/// so `ip` together with `port` uniquely identifies the endpoint.
#[derive(Clone, Copy, PartialEq, Eq, Structural, Debug, Hash)]
pub struct Addr {
    pub ip: u128,
    pub port: u16,
}

/// No two entries of `s` share a key.
pub open spec fn distinct_keys<K, V>(s: Seq<(K, V)>) -> bool {
    forall|i: int, j: int| 0 <= i < j < s.len() ==> (#[trigger] s[i]).0 != (#[trigger] s[j]).0
}

/// Some entry of `s` has key `k`.
pub open spec fn has_key<K, V>(s: Seq<(K, V)>, k: K) -> bool {
    exists|i: int| 0 <= i < s.len() && (#[trigger] s[i]).0 == k
}

/// An index at which `s` holds key `k` (meaningful when `has_key(s, k)`).
pub open spec fn key_index<K, V>(s: Seq<(K, V)>, k: K) -> int {
    choose|i: int| 0 <= i < s.len() && (#[trigger] s[i]).0 == k
}

/// `s` with its entry for key `k` taken out, order preserved.
pub open spec fn remove_key<K, V>(s: Seq<(K, V)>, k: K) -> Seq<(K, V)> {
    s.subrange(0, key_index(s, k)) + s.subrange(key_index(s, k) + 1, s.len() as int)
}

/// The contents of a bounded LRU map, most recently used first, after `k`
/// is bound to `v`: an existing entry for `k` moves to the front carrying
/// the new value; a fresh key enters at the front, and when the map already
/// holds `cap` entries the least recently used entry (the last one) leaves.
pub open spec fn lru_insert<K, V>(s: Seq<(K, V)>, cap: nat, k: K, v: V) -> Seq<(K, V)> {
    if has_key(s, k) {
        seq![(k, v)] + remove_key(s, k)
    } else if s.len() < cap {
        seq![(k, v)] + s
    } else {
        seq![(k, v)] + s.drop_last()
    }
}

/// A peer last seen at `seen` is still live at `now`: no older than
/// `timeout` ticks, the boundary itself included. A timestamp in the
/// future counts as age zero, as a saturating clock difference would.
pub open spec fn fresh_at(now: u64, seen: u64, timeout: u64) -> bool {
    (if seen <= now {
        now - seen
    } else {
        0
    }) <= timeout
}

/// Executable form of `fresh_at`.
pub fn is_fresh(now: u64, seen: u64, timeout: u64) -> (r: bool)
    ensures
        r == fresh_at(now, seen, timeout),
{
    if seen <= now {
        now - seen <= timeout
    } else {
        true
    }
}

/// An LRU insertion keeps the keys distinct and the size within `cap`:
/// rebinding a known key keeps the size, a fresh key grows the map only
/// up to `cap`.
pub proof fn lemma_lru_insert_wf<K, V>(s: Seq<(K, V)>, cap: nat, k: K, v: V)
    requires
        distinct_keys(s),
        s.len() <= cap,
        cap > 0,
    ensures
        distinct_keys(lru_insert(s, cap, k, v)),
        lru_insert(s, cap, k, v).len() <= cap,
        has_key(s, k) ==> lru_insert(s, cap, k, v).len() == s.len(),
        !has_key(s, k) && s.len() < cap ==> lru_insert(s, cap, k, v).len() == s.len() + 1,
        !has_key(s, k) && s.len() == cap ==> lru_insert(s, cap, k, v).len() == cap,
{
    let r = lru_insert(s, cap, k, v);
    if has_key(s, k) {
        let j = key_index(s, k);
        assert(0 <= j < s.len() && s[j].0 == k);
        let rest = remove_key(s, k);
        assert forall|i: int| 0 <= i < rest.len() implies (#[trigger] rest[i]).0 != k by {
            if i < j {
                assert(rest[i] == s[i]);
            } else {
                assert(rest[i] == s[i + 1]);
            }
        }
        assert forall|p: int, q: int| 0 <= p < q < r.len() implies (#[trigger] r[p]).0 != (
        #[trigger] r[q]).0 by {
            if p > 0 {
                let rp = rest[p - 1];
                let rq = rest[q - 1];
                if p - 1 < j && q - 1 < j {
                    assert(rp == s[p - 1] && rq == s[q - 1]);
                } else if p - 1 < j {
                    assert(rp == s[p - 1] && rq == s[q]);
                } else {
                    assert(rp == s[p] && rq == s[q]);
                }
            }
        }
    } else {
        assert forall|p: int, q: int| 0 <= p < q < r.len() implies (#[trigger] r[p]).0 != (
        #[trigger] r[q]).0 by {
            if s.len() < cap {
                if p == 0 {
                    assert(r[q] == s[q - 1]);
                    assert(!(exists|i: int|
                        0 <= i < s.len() && (#[trigger] s[i]).0 == k));
                    assert(s[q - 1].0 != k);
                } else {
                    assert(r[p] == s[p - 1] && r[q] == s[q - 1]);
                }
            } else {
                if p == 0 {
                    assert(r[q] == s[q - 1]);
                    assert(s[q - 1].0 != k);
                } else {
                    assert(r[p] == s[p - 1] && r[q] == s[q - 1]);
                }
            }
        }
    }
}

} // verus!
