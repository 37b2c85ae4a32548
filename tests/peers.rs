use adnl_rldp::ids::get_affinity;
use adnl_rldp::peers_iter::{KnownPeer, PeersIter};

fn id(first: u8) -> [u8; 32] {
    let mut a = [0u8; 32];
    a[0] = first;
    a
}

fn good(first: u8) -> KnownPeer {
    KnownPeer { id: id(first), is_bad: false }
}

#[test]
fn affinity_counts_leading_equal_bits() {
    let k = [0u8; 32];
    assert_eq!(get_affinity(&k, &id(0x80)), 0);
    assert_eq!(get_affinity(&k, &id(0x40)), 1);
    assert_eq!(get_affinity(&k, &id(0x20)), 2);
    assert_eq!(get_affinity(&k, &id(0x10)), 3);
    assert_eq!(get_affinity(&k, &id(0x01)), 7);
    assert_eq!(get_affinity(&k, &k), 256);
    let mut far = [0u8; 32];
    far[31] = 1;
    assert_eq!(get_affinity(&k, &far), 255);
}

#[test]
fn peers_iter_batch_of_two() {
    let peers = vec![good(0x80), good(0x40), good(0x20), good(0x10)];
    let mut it = PeersIter::with_key_id([0u8; 32]);
    it.fill(&peers, Some(2));
    assert_eq!(it.next(), Some(id(0x10)));
    assert_eq!(it.next(), Some(id(0x20)));
    assert_eq!(it.next(), None);
}

#[test]
fn peers_iter_without_batch_keeps_all_in_order() {
    let peers = vec![good(0x20), good(0x80), good(0x10), good(0x40)];
    let mut it = PeersIter::with_key_id([0u8; 32]);
    it.fill(&peers, None);
    let out: Vec<_> = std::iter::from_fn(|| it.next()).collect();
    assert_eq!(out, vec![id(0x10), id(0x20), id(0x40), id(0x80)]);
}

#[test]
fn peers_iter_skips_bad_peers() {
    let peers = vec![good(0x80), KnownPeer { id: id(0x01), is_bad: true }, good(0x40)];
    let mut it = PeersIter::with_key_id([0u8; 32]);
    it.fill(&peers, None);
    assert_eq!(it.next(), Some(id(0x40)));
    assert_eq!(it.next(), Some(id(0x80)));
    assert_eq!(it.next(), None);
}

#[test]
fn peers_iter_keeps_all_ties() {
    let peers = vec![good(0x80), good(0x11), good(0x12), good(0x13)];
    let mut it = PeersIter::with_key_id([0u8; 32]);
    it.fill(&peers, Some(1));
    let mut out = Vec::new();
    while let Some(p) = it.next() {
        out.push(p);
    }
    assert_eq!(out.len(), 3);
    for p in &out {
        assert_eq!(get_affinity(&[0u8; 32], p), 3);
    }
}

#[test]
fn peers_iter_order_non_increasing() {
    let firsts = [0x03u8, 0x90, 0x41, 0x07, 0x22, 0x01, 0x55, 0x0f, 0x80, 0x30];
    let peers: Vec<KnownPeer> = firsts.iter().map(|f| good(*f)).collect();
    let k = [0u8; 32];
    let mut it = PeersIter::with_key_id(k);
    it.fill(&peers, Some(4));
    let mut last = u16::MAX;
    let mut n = 0;
    while let Some(p) = it.next() {
        let a = get_affinity(&k, &p);
        assert!(a <= last);
        last = a;
        n += 1;
    }
    assert!(n >= 4);
}

#[test]
fn peers_iter_second_fill_scans_only_new_peers() {
    let mut peers = vec![good(0x80)];
    let mut it = PeersIter::with_key_id([0u8; 32]);
    it.fill(&peers, None);
    peers.push(good(0x40));
    it.fill(&peers, None);
    assert_eq!(it.next(), Some(id(0x40)));
    assert_eq!(it.next(), Some(id(0x80)));
    assert_eq!(it.next(), None);
}

#[test]
fn peers_iter_single_candidate_batch_of_one() {
    let peers = vec![good(0x80)];
    let mut it = PeersIter::with_key_id([0u8; 32]);
    it.fill(&peers, Some(1));
    assert_eq!(it.next(), Some(id(0x80)));
    assert_eq!(it.next(), None);
}
