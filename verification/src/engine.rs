//! The relay engine: for one received datagram, how the registry and the
//! replay buffer move and which datagrams go out in reply.

use vstd::prelude::*;

use crate::model::{Addr, MAX_REPLAY, fresh_at, has_key, is_fresh, lru_insert};
use crate::registry::{ClientRegistry, touched};
use crate::replay::{ReplayBuffer, replay_payloads};

verus! {

/// The fan-out targets drawn from a registry snapshot `snap`: every peer
/// other than `sender` whose last-seen tick is within `timeout` of `now`,
/// in snapshot order.
pub open spec fn fanout_targets(snap: Seq<(Addr, u64)>, sender: Addr, now: u64, timeout: u64) -> Seq<
    Addr,
>
    decreases snap.len(),
{
    if snap.len() == 0 {
        Seq::empty()
    } else {
        let rest = fanout_targets(snap.drop_last(), sender, now, timeout);
        if snap.last().0 != sender && fresh_at(now, snap.last().1, timeout) {
            rest.push(snap.last().0)
        } else {
            rest
        }
    }
}

/// What one received datagram makes the process send: each replayed
/// payload goes to the sender, then the received payload goes to each
/// broadcast target in order, and an echo is the received (empty) payload
/// sent back to the sender.
pub struct Outcome {
    pub echo: bool,
    pub replays: Vec<Vec<u8>>,
    pub broadcast: Vec<Addr>,
}

/// The relay decision logic together with the two stores it drives.
pub struct RelayEngine {
    registry: ClientRegistry,
    replay: Option<ReplayBuffer>,
    timeout: u64,
}

impl RelayEngine {
    /// The registry's entries, most recently active first.
    pub closed spec fn registry_view(&self) -> Seq<(Addr, u64)> {
        self.registry@
    }

    /// The replay buffer's entries, most recently recorded first; empty
    /// when the replay capability is absent.
    pub closed spec fn buffered(&self) -> Seq<(u64, Seq<u8>)> {
        match self.replay {
            Some(b) => b@,
            None => Seq::empty(),
        }
    }

    /// Whether the replay capability is present.
    pub closed spec fn replay_enabled(&self) -> bool {
        self.replay is Some
    }

    /// The staleness timeout, in the same ticks as the timestamps.
    pub closed spec fn timeout_spec(&self) -> u64 {
        self.timeout
    }

    /// Both stores are well formed.
    pub closed spec fn wf(&self) -> bool {
        self.registry.wf() && match self.replay {
            Some(b) => b.wf(),
            None => true,
        }
    }

    /// A fresh engine: empty registry, and an empty replay buffer exactly
    /// when the capability is switched on.
    pub fn new(timeout: u64, replay_enabled: bool) -> (r: RelayEngine)
        ensures
            r.wf(),
            r.registry_view() == Seq::<(Addr, u64)>::empty(),
            r.buffered() == Seq::<(u64, Seq<u8>)>::empty(),
            r.replay_enabled() == replay_enabled,
            r.timeout_spec() == timeout,
    {
        RelayEngine {
            registry: ClientRegistry::new(),
            replay: if replay_enabled {
                Some(ReplayBuffer::new())
            } else {
                None
            },
            timeout,
        }
    }

    /// One receipt cycle for the datagram `payload` from `sender` at tick
    /// `now`. The sender is always touched into the registry. An empty
    /// payload is a keepalive: it is echoed to the sender alone, with no
    /// broadcast and no replay side effects. A non-empty payload is
    /// replayed to a first-ever sender (when the capability is on), fanned
    /// out to every other live peer, and then recorded.
    pub fn handle_datagram(&mut self, sender: Addr, payload: &Vec<u8>, now: u64) -> (out: Outcome)
        requires
            old(self).wf(),
        ensures
            final(self).wf(),
            final(self).timeout_spec() == old(self).timeout_spec(),
            final(self).replay_enabled() == old(self).replay_enabled(),
            // the sender is touched into the registry, whatever the payload
            final(self).registry_view() == touched(old(self).registry_view(), sender, now),
            // keepalive: an empty datagram is echoed to the sender alone
            out.echo == (payload@.len() == 0),
            payload@.len() == 0 ==> out.replays@.len() == 0 && out.broadcast@.len() == 0
                && final(self).buffered() == old(self).buffered(),
            // fan-out over the refreshed registry, in snapshot order
            payload@.len() > 0 ==> out.broadcast@ == fanout_targets(
                touched(old(self).registry_view(), sender, now),
                sender,
                now,
                old(self).timeout_spec(),
            ),
            // the sender never receives its own broadcast
            forall|i: int| 0 <= i < out.broadcast@.len() ==> out.broadcast@[i] != sender,
            // replay goes out exactly on a first appearance of the sender
            payload@.len() > 0 && old(self).replay_enabled() && !has_key(
                old(self).registry_view(),
                sender,
            ) ==> out.replays@.len() == replay_payloads(
                old(self).buffered(),
                now,
                old(self).timeout_spec(),
            ).len() && forall|j: int|
                0 <= j < out.replays@.len() ==> (#[trigger] out.replays@[j])@ == replay_payloads(
                    old(self).buffered(),
                    now,
                    old(self).timeout_spec(),
                )[j],
            !(payload@.len() > 0 && old(self).replay_enabled() && !has_key(
                old(self).registry_view(),
                sender,
            )) ==> out.replays@.len() == 0,
            // a non-empty payload is recorded when the capability is on
            payload@.len() > 0 && old(self).replay_enabled() ==> final(self).buffered()
                == lru_insert(old(self).buffered(), MAX_REPLAY as nat, now, payload@),
            !(payload@.len() > 0 && old(self).replay_enabled()) ==> final(self).buffered() == old(
                self,
            ).buffered(),
    {
        let was_new = self.registry.touch(sender, now);
        let mut replays: Vec<Vec<u8>> = Vec::new();
        let mut broadcast: Vec<Addr> = Vec::new();
        if payload.len() == 0 {
            return Outcome { echo: true, replays, broadcast };
        }
        if was_new {
            match &self.replay {
                Some(buf) => {
                    replays = buf.fresh_payloads(now, self.timeout);
                },
                None => {},
            }
        }
        let snap = self.registry.snapshot();
        broadcast = collect_targets(&snap, sender, now, self.timeout);
        proof {
            lemma_no_self_delivery(snap@, sender, now, self.timeout);
        }
        match &mut self.replay {
            Some(buf) => {
                buf.record(now, payload);
            },
            None => {},
        }
        Outcome { echo: false, replays, broadcast }
    }
}

/// Collects `fanout_targets` from a registry snapshot.
fn collect_targets(snap: &Vec<(Addr, u64)>, sender: Addr, now: u64, timeout: u64) -> (r: Vec<Addr>)
    ensures
        r@ == fanout_targets(snap@, sender, now, timeout),
{
    let mut r: Vec<Addr> = Vec::new();
    let mut i: usize = 0;
    while i < snap.len()
        invariant
            i <= snap@.len(),
            r@ == fanout_targets(snap@.take(i as int), sender, now, timeout),
        decreases snap@.len() - i,
    {
        proof {
            assert(snap@.take(i + 1).drop_last() =~= snap@.take(i as int));
            assert(snap@.take(i + 1).last() == snap@[i as int]);
        }
        let e = snap[i];
        if !(e.0 == sender) && is_fresh(now, e.1, timeout) {
            r.push(e.0);
        }
        i = i + 1;
    }
    proof {
        assert(snap@.take(snap@.len() as int) =~= snap@);
    }
    r
}

/// No self-delivery: the sender never appears among the fan-out targets
/// drawn from any snapshot.
pub proof fn lemma_no_self_delivery(snap: Seq<(Addr, u64)>, sender: Addr, now: u64, timeout: u64)
    ensures
        forall|i: int|
            0 <= i < fanout_targets(snap, sender, now, timeout).len() ==> fanout_targets(
                snap,
                sender,
                now,
                timeout,
            )[i] != sender,
    decreases snap.len(),
{
    if snap.len() > 0 {
        lemma_no_self_delivery(snap.drop_last(), sender, now, timeout);
        let t = fanout_targets(snap, sender, now, timeout);
        let rest = fanout_targets(snap.drop_last(), sender, now, timeout);
        assert forall|i: int| 0 <= i < t.len() implies t[i] != sender by {
            if snap.last().0 != sender && fresh_at(now, snap.last().1, timeout) {
                if i < t.len() - 1 {
                    assert(t[i] == rest[i]);
                } else {
                    assert(t[i] == snap.last().0);
                }
            } else {
                assert(t[i] == rest[i]);
            }
        }
    }
}

/// Staleness filter: an address is fanned out exactly when some snapshot
/// entry carries it, it is not the sender's, and its last-seen tick is
/// within `timeout` of `now` — the boundary `now - seen == timeout`
/// included, as `fresh_at` states.
pub proof fn lemma_staleness_filter(
    snap: Seq<(Addr, u64)>,
    sender: Addr,
    now: u64,
    timeout: u64,
    a: Addr,
)
    ensures
        fanout_targets(snap, sender, now, timeout).contains(a) <==> (a != sender && exists|i: int|
            0 <= i < snap.len() && (#[trigger] snap[i]).0 == a && fresh_at(
                now,
                snap[i].1,
                timeout,
            )),
    decreases snap.len(),
{
    if snap.len() > 0 {
        lemma_staleness_filter(snap.drop_last(), sender, now, timeout, a);
        let t = fanout_targets(snap, sender, now, timeout);
        let rest = fanout_targets(snap.drop_last(), sender, now, timeout);
        if a != sender && exists|i: int|
            0 <= i < snap.len() && (#[trigger] snap[i]).0 == a && fresh_at(now, snap[i].1, timeout) {
            let i = choose|i: int|
                0 <= i < snap.len() && (#[trigger] snap[i]).0 == a && fresh_at(
                    now,
                    snap[i].1,
                    timeout,
                );
            if i < snap.len() - 1 {
                assert(snap.drop_last()[i] == snap[i]);
                assert(rest.contains(a));
                if snap.last().0 != sender && fresh_at(now, snap.last().1, timeout) {
                    let j = choose|j: int| 0 <= j < rest.len() && rest[j] == a;
                    assert(t[j] == a);
                } else {
                    assert(t.contains(a));
                }
            } else {
                assert(t.last() == a);
            }
        }
        if t.contains(a) {
            let j = choose|j: int| 0 <= j < t.len() && t[j] == a;
            if snap.last().0 != sender && fresh_at(now, snap.last().1, timeout) {
                if j < t.len() - 1 {
                    assert(rest[j] == a);
                    assert(rest.contains(a));
                } else {
                    assert(snap[snap.len() - 1].0 == a);
                }
            } else {
                assert(rest[j] == a);
                assert(rest.contains(a));
            }
            if rest.contains(a) {
                let i = choose|i: int|
                    0 <= i < snap.drop_last().len() && (#[trigger] snap.drop_last()[i]).0 == a
                        && fresh_at(now, snap.drop_last()[i].1, timeout);
                assert(snap[i] == snap.drop_last()[i]);
            }
        }
    }
}

/// Replay staleness: every replayed payload comes from a buffered entry
/// still within `timeout` of the replay moment, every such entry's payload
/// is replayed, and when every entry is stale nothing is replayed.
pub proof fn lemma_replay_staleness(entries: Seq<(u64, Seq<u8>)>, now: u64, timeout: u64)
    ensures
        forall|j: int|
            0 <= j < replay_payloads(entries, now, timeout).len() ==> exists|i: int|
                0 <= i < entries.len() && fresh_at(now, (#[trigger] entries[i]).0, timeout)
                    && entries[i].1 == #[trigger] replay_payloads(entries, now, timeout)[j],
        forall|i: int|
            0 <= i < entries.len() && fresh_at(now, (#[trigger] entries[i]).0, timeout)
                ==> replay_payloads(entries, now, timeout).contains(entries[i].1),
        (forall|i: int| 0 <= i < entries.len() ==> !fresh_at(now, (#[trigger] entries[i]).0, timeout))
            ==> replay_payloads(entries, now, timeout).len() == 0,
    decreases entries.len(),
{
    if entries.len() > 0 {
        lemma_replay_staleness(entries.drop_last(), now, timeout);
        let p = replay_payloads(entries, now, timeout);
        let rest = replay_payloads(entries.drop_last(), now, timeout);
        assert forall|j: int| 0 <= j < p.len() implies exists|i: int|
            0 <= i < entries.len() && fresh_at(now, (#[trigger] entries[i]).0, timeout)
                && entries[i].1 == #[trigger] p[j] by {
            if fresh_at(now, entries.last().0, timeout) && j == p.len() - 1 {
                assert(entries[entries.len() - 1].1 == p[j]);
            } else {
                assert(p[j] == rest[j]);
                let i = choose|i: int|
                    0 <= i < entries.drop_last().len() && fresh_at(
                        now,
                        (#[trigger] entries.drop_last()[i]).0,
                        timeout,
                    ) && entries.drop_last()[i].1 == rest[j];
                assert(entries[i] == entries.drop_last()[i]);
            }
        }
        assert forall|i: int|
            0 <= i < entries.len() && fresh_at(now, (#[trigger] entries[i]).0, timeout) implies p
            .contains(entries[i].1) by {
            if i == entries.len() - 1 {
                assert(p.last() == entries[i].1);
            } else {
                assert(entries.drop_last()[i] == entries[i]);
                assert(rest.contains(entries[i].1));
                let j = choose|j: int| 0 <= j < rest.len() && rest[j] == entries[i].1;
                assert(p[j] == entries[i].1);
            }
        }
    }
}

} // verus!
