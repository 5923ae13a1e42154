use fedimint_server::peers::{PeerId, PeerSet};
use fedimint_server::upgrade::{ConsensusUpgradeTracker, UpgradeStatus};

#[test]
fn signals_only_grow() {
    let mut t = ConsensusUpgradeTracker::new();
    assert!(t.signal(PeerId(1)));
    assert!(!t.signal(PeerId(1)));
    assert!(t.signal(PeerId(0)));
    assert!(t.has_signalled(PeerId(0)));
    assert!(t.has_signalled(PeerId(1)));
    assert!(!t.has_signalled(PeerId(2)));
    let mut votes = t.votes();
    votes.sort_by_key(|p| p.0);
    assert_eq!(votes, vec![PeerId(0), PeerId(1)]);
}

#[test]
fn no_upgrade_on_a_part_of_the_peers() {
    let active = PeerSet::first(4);
    let mut t = ConsensusUpgradeTracker::new();
    t.signal_round(&vec![PeerId(0), PeerId(1), PeerId(2)]);
    assert_eq!(t.round_committed(&active, 5), None);
    assert_eq!(t.status(), UpgradeStatus::Collecting);
    assert!(!t.blocks(6));
    assert!(!t.new_version_at(6));
}

#[test]
fn upgrade_fires_once_after_the_round_of_unanimity() {
    let active = PeerSet::first(4);
    let mut t = ConsensusUpgradeTracker::new();
    t.signal_round(&vec![PeerId(0), PeerId(1)]);
    assert_eq!(t.round_committed(&active, 7), None);
    t.signal_round(&vec![PeerId(3), PeerId(2), PeerId(0)]);
    assert_eq!(t.round_committed(&active, 8), Some(9));
    assert_eq!(t.status(), UpgradeStatus::Scheduled { epoch: 9 });
    assert_eq!(t.round_committed(&active, 9), None);
    assert_eq!(t.round_committed(&active, 10), None);
    assert_eq!(t.status(), UpgradeStatus::Scheduled { epoch: 9 });
}

#[test]
fn content_waits_for_the_migration() {
    let active = PeerSet::first(1);
    let mut t = ConsensusUpgradeTracker::new();
    assert!(!t.migration_completed());
    t.signal(PeerId(0));
    assert_eq!(t.round_committed(&active, 3), Some(4));
    assert!(!t.blocks(3));
    assert!(t.blocks(4));
    assert!(t.blocks(5));
    assert!(!t.new_version_at(3));
    assert!(t.new_version_at(4));
    assert!(t.migration_completed());
    assert_eq!(t.status(), UpgradeStatus::Completed { epoch: 4 });
    assert!(!t.blocks(4));
    assert!(t.new_version_at(4));
    assert!(!t.new_version_at(3));
    assert!(!t.migration_completed());
    assert_eq!(t.round_committed(&active, 4), None);
}

#[test]
fn a_signal_from_outside_the_active_set_prevents_unanimity() {
    let active = PeerSet::first(2);
    let mut t = ConsensusUpgradeTracker::new();
    t.signal_round(&vec![PeerId(0), PeerId(1), PeerId(5)]);
    assert_eq!(t.round_committed(&active, 0), None);
}

#[test]
fn no_upgrade_after_the_last_epoch() {
    let active = PeerSet::first(1);
    let mut t = ConsensusUpgradeTracker::new();
    t.signal(PeerId(0));
    assert_eq!(t.round_committed(&active, u64::MAX), None);
    assert_eq!(t.status(), UpgradeStatus::Collecting);
}

#[test]
fn a_duplicate_keeps_votes_and_status() {
    let active = PeerSet::first(1);
    let mut t = ConsensusUpgradeTracker::new();
    t.signal(PeerId(0));
    t.round_committed(&active, 1);
    let copy = t.duplicate();
    assert_eq!(copy.status(), UpgradeStatus::Scheduled { epoch: 2 });
    assert!(copy.has_signalled(PeerId(0)));
}
