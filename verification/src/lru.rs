//! The trusted boundary around `const_lru::ConstLru`, the fixed-capacity
//! LRU map both stores are built on. The two wrapped caches are opaque to
//! the verifier: an uninterpreted sequence names the contents of each,
//! most recently used first, and the wrappers state how every call the
//! crate makes moves those contents, as the `const_lru` source shows.

use vstd::prelude::*;

use crate::model::{Addr, MAX_CLIENTS, MAX_REPLAY, distinct_keys, has_key, key_index, lru_insert};
use const_lru::{ConstLru, InsertReplaced};

verus! {

/// What inserting into the address cache did: the key was fresh and there
/// was room, the key was already bound (to the returned last-seen tick),
/// or the key was fresh and the returned least recently used entry was
/// evicted to make room.
pub enum StoreUpdate {
    Fresh,
    Rebound(u64),
    Evicted(Addr, u64),
}

/// A fixed-capacity LRU map from peer address to last-seen tick,
/// `MAX_CLIENTS` entries at most.
#[verifier::external_body]
pub struct AddrLru {
    inner: ConstLru<(u128, u16), u64, MAX_CLIENTS, u8>,
}

/// The entries of `m`, most recently used first.
pub uninterp spec fn addr_lru_model(m: AddrLru) -> Seq<(Addr, u64)>;

/// Relies on `const_lru::ConstLru::new`: a fresh cache holds nothing.
#[verifier::external_body]
pub fn addr_lru_new() -> (m: AddrLru)
    ensures
        addr_lru_model(m) == Seq::<(Addr, u64)>::empty(),
{
    AddrLru { inner: ConstLru::new() }
}

/// Relies on `const_lru::ConstLru::insert`: a key already present keeps its
/// slot's key, takes the new value and moves to the most recently used
/// position, and `OldValue` comes back; a fresh key enters at that position,
/// with `LruEvicted` carrying out the least recently used entry when the
/// cache is full and `None` otherwise.
#[verifier::external_body]
pub fn addr_lru_insert(m: &mut AddrLru, a: Addr, t: u64) -> (r: StoreUpdate)
    requires
        distinct_keys(addr_lru_model(*old(m))),
        addr_lru_model(*old(m)).len() <= MAX_CLIENTS,
    ensures
        addr_lru_model(*final(m)) == lru_insert(
            addr_lru_model(*old(m)),
            MAX_CLIENTS as nat,
            a,
            t,
        ),
        has_key(addr_lru_model(*old(m)), a) ==> r == StoreUpdate::Rebound(
            addr_lru_model(*old(m))[key_index(addr_lru_model(*old(m)), a)].1,
        ),
        !has_key(addr_lru_model(*old(m)), a) && addr_lru_model(*old(m)).len() < MAX_CLIENTS ==> r
            == StoreUpdate::Fresh,
        !has_key(addr_lru_model(*old(m)), a) && addr_lru_model(*old(m)).len() == MAX_CLIENTS ==> r
            == StoreUpdate::Evicted(
            addr_lru_model(*old(m)).last().0,
            addr_lru_model(*old(m)).last().1,
        ),
{
    match m.inner.insert((a.ip, a.port), t) {
        None => StoreUpdate::Fresh,
        Some(InsertReplaced::OldValue(v)) => StoreUpdate::Rebound(v),
        Some(InsertReplaced::LruEvicted(k, v)) => StoreUpdate::Evicted(
            Addr { ip: k.0, port: k.1 },
            v,
        ),
    }
}

/// Relies on `const_lru::ConstLru::iter`: it yields every entry, from most
/// recently used to least recently used, without touching the order.
#[verifier::external_body]
pub fn addr_lru_entries(m: &AddrLru) -> (r: Vec<(Addr, u64)>)
    ensures
        r@ == addr_lru_model(*m),
{
    m.inner.iter().map(|(k, v)| (Addr { ip: k.0, port: k.1 }, *v)).collect()
}

/// A fixed-capacity LRU map from receipt tick to captured payload,
/// `MAX_REPLAY` entries at most.
#[verifier::external_body]
pub struct ReplayLru {
    inner: ConstLru<u64, Vec<u8>, MAX_REPLAY, u8>,
}

/// The entries of `m`, most recently used first.
pub uninterp spec fn replay_lru_model(m: ReplayLru) -> Seq<(u64, Seq<u8>)>;

/// Relies on `const_lru::ConstLru::new`: a fresh cache holds nothing.
#[verifier::external_body]
pub fn replay_lru_new() -> (m: ReplayLru)
    ensures
        replay_lru_model(m) == Seq::<(u64, Seq<u8>)>::empty(),
{
    ReplayLru { inner: ConstLru::new() }
}

/// Relies on `const_lru::ConstLru::insert`, exactly as `addr_lru_insert`
/// does; the caller does not need the returned old value here.
#[verifier::external_body]
pub fn replay_lru_insert(m: &mut ReplayLru, t: u64, payload: &Vec<u8>)
    requires
        distinct_keys(replay_lru_model(*old(m))),
        replay_lru_model(*old(m)).len() <= MAX_REPLAY,
    ensures
        replay_lru_model(*final(m)) == lru_insert(
            replay_lru_model(*old(m)),
            MAX_REPLAY as nat,
            t,
            payload@,
        ),
{
    m.inner.insert(t, payload.clone());
}

/// Relies on `const_lru::ConstLru::iter`: it yields every entry, from most
/// recently used to least recently used, without touching the order.
#[verifier::external_body]
pub fn replay_lru_entries(m: &ReplayLru) -> (r: Vec<(u64, Vec<u8>)>)
    ensures
        r@.len() == replay_lru_model(*m).len(),
        forall|i: int|
            0 <= i < r@.len() ==> (#[trigger] r@[i]).0 == replay_lru_model(*m)[i].0 && r@[i].1@
                == replay_lru_model(*m)[i].1,
{
    m.inner.iter().map(|(t, d)| (*t, d.clone())).collect()
}

} // verus!
