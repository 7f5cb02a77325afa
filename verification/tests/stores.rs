use udpexchange::model::Addr;
use udpexchange::registry::ClientRegistry;
use udpexchange::replay::ReplayBuffer;

fn addr(n: u128) -> Addr {
    Addr { ip: n, port: 7 }
}

#[test]
fn touch_reports_new_then_known() {
    let mut r = ClientRegistry::new();
    assert!(r.touch(addr(1), 10));
    assert!(!r.touch(addr(1), 20));
    let snap = r.snapshot();
    assert_eq!(snap, vec![(addr(1), 20)]);
}

#[test]
fn touch_existing_keeps_size() {
    let mut r = ClientRegistry::new();
    for i in 1..=64u128 {
        assert!(r.touch(addr(i), i as u64));
    }
    assert_eq!(r.snapshot().len(), 64);
    assert!(!r.touch(addr(30), 100));
    let snap = r.snapshot();
    assert_eq!(snap.len(), 64);
    assert_eq!(snap[0], (addr(30), 100));
}

#[test]
fn snapshot_is_most_recent_first() {
    let mut r = ClientRegistry::new();
    r.touch(addr(1), 1);
    r.touch(addr(2), 2);
    r.touch(addr(3), 3);
    r.touch(addr(1), 4);
    let snap = r.snapshot();
    assert_eq!(snap, vec![(addr(1), 4), (addr(3), 3), (addr(2), 2)]);
}

#[test]
fn sixty_fifth_address_evicts_least_recently_used() {
    let mut r = ClientRegistry::new();
    for i in 1..=64u128 {
        r.touch(addr(i), i as u64);
    }
    // addr(1) is the least recently used; one more distinct address evicts it
    assert!(r.touch(addr(65), 65));
    let snap = r.snapshot();
    assert_eq!(snap.len(), 64);
    assert!(!snap.iter().any(|e| e.0 == addr(1)));
    assert!(snap.iter().any(|e| e.0 == addr(2)));
    assert_eq!(snap[0], (addr(65), 65));
}

#[test]
fn replay_buffer_keeps_sixteen_newest() {
    let mut b = ReplayBuffer::new();
    for t in 0..17u64 {
        b.record(t, &vec![t as u8]);
    }
    let got = b.fresh_payloads(16, u64::MAX);
    assert_eq!(got.len(), 16);
    // the very first payload was evicted; the newest comes first
    assert!(!got.contains(&vec![0u8]));
    assert_eq!(got[0], vec![16u8]);
    assert_eq!(got[15], vec![1u8]);
}

#[test]
fn replay_buffer_entries_newest_first() {
    let mut b = ReplayBuffer::new();
    b.record(1, &b"a".to_vec());
    b.record(2, &b"b".to_vec());
    assert_eq!(b.entries(), vec![(2, b"b".to_vec()), (1, b"a".to_vec())]);
}

#[test]
fn replay_buffer_overwrites_same_tick() {
    let mut b = ReplayBuffer::new();
    b.record(5, &b"first".to_vec());
    b.record(5, &b"second".to_vec());
    let got = b.fresh_payloads(6, 100);
    assert_eq!(got, vec![b"second".to_vec()]);
}

#[test]
fn replay_buffer_filters_by_age() {
    let mut b = ReplayBuffer::new();
    b.record(0, &b"old".to_vec());
    b.record(900, &b"boundary".to_vec());
    b.record(1_500, &b"young".to_vec());
    // at now=1900 with timeout 1000: age 1900 is stale, 1000 and 400 are live
    let got = b.fresh_payloads(1_900, 1_000);
    assert_eq!(got, vec![b"young".to_vec(), b"boundary".to_vec()]);
}
