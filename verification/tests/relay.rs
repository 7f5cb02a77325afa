use udpexchange::engine::RelayEngine;
use udpexchange::model::Addr;

fn addr(n: u128) -> Addr {
    Addr { ip: n, port: 1 }
}

#[test]
fn first_sender_broadcasts_to_none() {
    let mut e = RelayEngine::new(60_000, false);
    let out = e.handle_datagram(addr(1), &b"hello".to_vec(), 0);
    assert!(!out.echo);
    assert!(out.replays.is_empty());
    assert!(out.broadcast.is_empty());
}

#[test]
fn known_peer_receives_broadcast() {
    let mut e = RelayEngine::new(60_000, false);
    let y = addr(1);
    let x = addr(2);
    e.handle_datagram(y, &b"hi".to_vec(), 0);
    let out = e.handle_datagram(x, &b"hello".to_vec(), 1);
    assert_eq!(out.broadcast, vec![y]);
    assert!(!out.broadcast.contains(&x));
}

#[test]
fn keepalive_echo_only() {
    let mut e = RelayEngine::new(60_000, true);
    let a = addr(1);
    let b = addr(2);
    e.handle_datagram(b, &b"noise".to_vec(), 0);
    let out = e.handle_datagram(a, &Vec::new(), 1);
    assert!(out.echo);
    assert!(out.replays.is_empty());
    assert!(out.broadcast.is_empty());
}

#[test]
fn keepalive_still_refreshes_liveness() {
    let mut e = RelayEngine::new(1_000, false);
    let a = addr(1);
    let b = addr(2);
    e.handle_datagram(a, &b"old".to_vec(), 0);
    // an empty probe at t=1500 refreshes a even though it says nothing
    let probe = e.handle_datagram(a, &Vec::new(), 1_500);
    assert!(probe.echo);
    let out = e.handle_datagram(b, &b"late".to_vec(), 2_000);
    assert_eq!(out.broadcast, vec![a]);
}

#[test]
fn capacity_eviction_drops_first_address() {
    let mut e = RelayEngine::new(u64::MAX, false);
    for i in 1..=65u128 {
        e.handle_datagram(addr(i), &b"m".to_vec(), i as u64);
    }
    // the 65th distinct sender evicted addr(1); a repeat sender now reaches
    // everyone else still registered
    let out = e.handle_datagram(addr(65), &b"again".to_vec(), 66);
    assert_eq!(out.broadcast.len(), 63);
    assert!(!out.broadcast.contains(&addr(1)));
    assert!(out.broadcast.contains(&addr(2)));
    assert!(out.broadcast.contains(&addr(64)));
    assert!(!out.broadcast.contains(&addr(65)));
}

#[test]
fn stale_peer_excluded_from_fanout() {
    let mut e = RelayEngine::new(1_000, false);
    let a = addr(1);
    let b = addr(2);
    e.handle_datagram(a, &b"first".to_vec(), 0);
    let out = e.handle_datagram(b, &b"second".to_vec(), 2_000);
    assert!(out.broadcast.is_empty());
}

#[test]
fn peer_exactly_at_timeout_included() {
    let mut e = RelayEngine::new(1_000, false);
    let a = addr(1);
    let c = addr(3);
    e.handle_datagram(a, &b"first".to_vec(), 0);
    let out = e.handle_datagram(c, &b"second".to_vec(), 1_000);
    assert_eq!(out.broadcast, vec![a]);
}

#[test]
fn replay_delivered_to_new_client() {
    let mut e = RelayEngine::new(60_000, true);
    let a = addr(1);
    let b = addr(2);
    e.handle_datagram(a, &b"msg1".to_vec(), 0);
    let out = e.handle_datagram(b, &b"hi".to_vec(), 5_000);
    assert_eq!(out.replays, vec![b"msg1".to_vec()]);
    assert_eq!(out.broadcast, vec![a]);
}

#[test]
fn replay_only_on_first_appearance() {
    let mut e = RelayEngine::new(60_000, true);
    let a = addr(1);
    let b = addr(2);
    e.handle_datagram(a, &b"msg1".to_vec(), 0);
    let first = e.handle_datagram(b, &b"hi".to_vec(), 5_000);
    assert_eq!(first.replays.len(), 1);
    let second = e.handle_datagram(b, &b"hi again".to_vec(), 6_000);
    assert!(second.replays.is_empty());
}

#[test]
fn replay_skips_stale_messages() {
    let mut e = RelayEngine::new(1_000, true);
    let a = addr(1);
    let b = addr(2);
    e.handle_datagram(a, &b"msg1".to_vec(), 0);
    e.handle_datagram(a, &b"msg2".to_vec(), 500);
    // at t=1400, msg1 is 1400 ticks old (stale), msg2 is 900 (still live)
    let out = e.handle_datagram(b, &b"hi".to_vec(), 1_400);
    assert_eq!(out.replays, vec![b"msg2".to_vec()]);
}

#[test]
fn replay_disabled_records_nothing() {
    let mut e = RelayEngine::new(60_000, false);
    let a = addr(1);
    let b = addr(2);
    e.handle_datagram(a, &b"msg1".to_vec(), 0);
    let out = e.handle_datagram(b, &b"hi".to_vec(), 5);
    assert!(out.replays.is_empty());
}
