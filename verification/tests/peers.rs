use fedimint_server::peers::{PeerId, PeerSet};

#[test]
fn first_holds_the_ordinals_below_n() {
    let set = PeerSet::first(4);
    assert_eq!(set.len(), 4);
    for i in 0..4u16 {
        assert!(set.contains(PeerId(i)));
    }
    assert!(!set.contains(PeerId(4)));
}

#[test]
fn insert_twice_keeps_one() {
    let mut set = PeerSet::new();
    assert!(set.is_empty());
    assert!(set.insert(PeerId(7)));
    assert!(!set.insert(PeerId(7)));
    assert_eq!(set.len(), 1);
    assert_eq!(set.to_vec(), vec![PeerId(7)]);
}

#[test]
fn remove_takes_only_the_named_peer() {
    let mut set = PeerSet::first(3);
    assert!(set.remove(PeerId(1)));
    assert!(!set.remove(PeerId(1)));
    assert_eq!(set.len(), 2);
    assert!(set.contains(PeerId(0)));
    assert!(set.contains(PeerId(2)));
    assert!(!set.contains(PeerId(1)));
}

#[test]
fn same_members_ignores_the_order_of_insertion() {
    let mut a = PeerSet::new();
    a.insert(PeerId(2));
    a.insert(PeerId(0));
    a.insert(PeerId(1));
    let b = PeerSet::first(3);
    assert!(a.same_members(&b));
    assert!(a.is_subset_of(&b));
    a.remove(PeerId(0));
    assert!(!a.same_members(&b));
    assert!(a.is_subset_of(&b));
    assert!(!b.is_subset_of(&a));
}

#[test]
fn duplicate_is_independent_of_the_original() {
    let a = PeerSet::first(2);
    let mut b = a.duplicate();
    b.insert(PeerId(9));
    assert_eq!(a.len(), 2);
    assert_eq!(b.len(), 3);
}

#[test]
fn peer_id_converts_to_its_ordinal() {
    assert_eq!(PeerId::new(42), PeerId(42));
    assert_eq!(PeerId(65535).to_usize(), 65535);
}
