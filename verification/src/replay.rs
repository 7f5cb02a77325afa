//! The replay buffer: a bounded LRU map from receipt tick to captured
//! payload, replayed to newly seen peers while the messages are still
//! within the staleness timeout.

use vstd::prelude::*;

use crate::lru::{ReplayLru, replay_lru_entries, replay_lru_insert, replay_lru_model, replay_lru_new};
use crate::model::{MAX_REPLAY, distinct_keys, fresh_at, is_fresh, lemma_lru_insert_wf, lru_insert};

verus! {

/// Bounded LRU buffer of the most recent messages, at most `MAX_REPLAY`
/// of them, each keyed by its receipt tick.
pub struct ReplayBuffer {
    lru: ReplayLru,
}

/// The payloads of the buffered entries still within `timeout` of `now`,
/// in buffer order; stale entries are passed over, not removed.
pub open spec fn replay_payloads(entries: Seq<(u64, Seq<u8>)>, now: u64, timeout: u64) -> Seq<
    Seq<u8>,
>
    decreases entries.len(),
{
    if entries.len() == 0 {
        Seq::empty()
    } else {
        let rest = replay_payloads(entries.drop_last(), now, timeout);
        if fresh_at(now, entries.last().0, timeout) {
            rest.push(entries.last().1)
        } else {
            rest
        }
    }
}

impl View for ReplayBuffer {
    type V = Seq<(u64, Seq<u8>)>;

    /// The buffered entries, most recently recorded first.
    closed spec fn view(&self) -> Seq<(u64, Seq<u8>)> {
        replay_lru_model(self.lru)
    }
}

impl ReplayBuffer {
    /// Each receipt tick appears at most once and capacity is respected.
    pub open spec fn wf(&self) -> bool {
        distinct_keys(self@) && self@.len() <= MAX_REPLAY
    }

    /// An empty buffer.
    pub fn new() -> (r: ReplayBuffer)
        ensures
            r.wf(),
            r@ == Seq::<(u64, Seq<u8>)>::empty(),
    {
        ReplayBuffer { lru: replay_lru_new() }
    }

    /// Inserts or overwrites `t -> payload` under the bounded-LRU rule:
    /// a fresh tick at capacity evicts the least recently used entry.
    pub fn record(&mut self, t: u64, payload: &Vec<u8>)
        requires
            old(self).wf(),
        ensures
            final(self).wf(),
            final(self)@ == lru_insert(old(self)@, MAX_REPLAY as nat, t, payload@),
    {
        proof {
            lemma_lru_insert_wf(self@, MAX_REPLAY as nat, t, payload@);
        }
        replay_lru_insert(&mut self.lru, t, payload);
    }

    /// The full current contents, most recently recorded first; replay
    /// follows this order directly.
    pub fn entries(&self) -> (r: Vec<(u64, Vec<u8>)>)
        ensures
            r@.len() == self@.len(),
            forall|i: int|
                0 <= i < r@.len() ==> (#[trigger] r@[i]).0 == self@[i].0 && r@[i].1@ == self@[i].1,
    {
        replay_lru_entries(&self.lru)
    }

    /// The buffered payloads still within `timeout` of `now`, in buffer
    /// order: what a newly seen peer is owed.
    pub fn fresh_payloads(&self, now: u64, timeout: u64) -> (r: Vec<Vec<u8>>)
        ensures
            r@.len() == replay_payloads(self@, now, timeout).len(),
            forall|j: int|
                0 <= j < r@.len() ==> (#[trigger] r@[j])@ == replay_payloads(
                    self@,
                    now,
                    timeout,
                )[j],
    {
        let entries = self.entries();
        let ghost em = self@;
        let mut r: Vec<Vec<u8>> = Vec::new();
        let mut i: usize = 0;
        while i < entries.len()
            invariant
                i <= entries@.len(),
                entries@.len() == em.len(),
                forall|p: int|
                    0 <= p < em.len() ==> (#[trigger] entries@[p]).0 == em[p].0 && entries@[p].1@
                        == em[p].1,
                r@.len() == replay_payloads(em.take(i as int), now, timeout).len(),
                forall|j: int|
                    0 <= j < r@.len() ==> (#[trigger] r@[j])@ == replay_payloads(
                        em.take(i as int),
                        now,
                        timeout,
                    )[j],
            decreases entries@.len() - i,
        {
            proof {
                assert(em.take(i + 1).drop_last() =~= em.take(i as int));
                assert(em.take(i + 1).last() == em[i as int]);
            }
            if is_fresh(now, entries[i].0, timeout) {
                r.push(copy_bytes(&entries[i].1));
            }
            i = i + 1;
        }
        proof {
            assert(em.take(em.len() as int) =~= em);
        }
        r
    }
}

/// A byte-for-byte copy of `src`.
fn copy_bytes(src: &Vec<u8>) -> (r: Vec<u8>)
    ensures
        r@ == src@,
{
    let mut r: Vec<u8> = Vec::new();
    let mut i: usize = 0;
    while i < src.len()
        invariant
            i <= src@.len(),
            r@ == src@.take(i as int),
        decreases src@.len() - i,
    {
        r.push(src[i]);
        proof {
            assert(src@.take(i + 1) =~= src@.take(i as int).push(src@[i as int]));
        }
        i = i + 1;
    }
    proof {
        assert(src@.take(src@.len() as int) =~= src@);
    }
    r
}

} // verus!
