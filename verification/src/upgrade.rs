//! The consensus upgrade quorum tracker.
//!
//! Peers signal that they are ready for the next protocol and schema
//! version. The set of signals only grows. The upgrade is scheduled once,
//! after the first round at whose end the set equals the whole active set,
//! for the epoch that follows. From that epoch on no content is processed
//! before the schema migration has been completed.

use crate::peers::{spec_increasing, PeerId, PeerSet};
use vstd::prelude::*;

verus! {

/// How far the upgrade has come.
#[derive(Clone, Copy, Debug, PartialEq, Eq, Structural)]
pub enum UpgradeStatus {
    /// Not every active peer has signalled yet.
    Collecting,
    /// Every active peer has signalled: the new version takes effect at
    /// `epoch`, and the migration has to run before that epoch is processed.
    Scheduled { epoch: u64 },
    /// The migration has run: the new version is in effect from `epoch` on.
    Completed { epoch: u64 },
}

/// Whether the signals `votes` are those of all of `active`.
pub open spec fn spec_unanimous(votes: Set<PeerId>, active: Set<PeerId>) -> bool {
    votes == active
}

/// The status after a round that committed `epoch`, and the epoch for which
/// the upgrade was scheduled by it, if it was.
pub open spec fn spec_after_round(
    status: UpgradeStatus,
    votes: Set<PeerId>,
    active: Set<PeerId>,
    epoch: u64,
) -> (UpgradeStatus, Option<u64>) {
    if status is Collecting && spec_unanimous(votes, active) && epoch < u64::MAX {
        (UpgradeStatus::Scheduled { epoch: (epoch + 1) as u64 }, Some((epoch + 1) as u64))
    } else {
        (status, None)
    }
}

/// Whether content of `epoch` must wait for the migration.
pub open spec fn spec_blocks(status: UpgradeStatus, epoch: u64) -> bool {
    status matches UpgradeStatus::Scheduled { epoch: at } && epoch >= at
}

/// Whether `epoch` is processed under the new version.
pub open spec fn spec_new_version_at(status: UpgradeStatus, epoch: u64) -> bool {
    match status {
        UpgradeStatus::Collecting => false,
        UpgradeStatus::Scheduled { epoch: at } => epoch >= at,
        UpgradeStatus::Completed { epoch: at } => epoch >= at,
    }
}

/// The signals of readiness for the next version.
pub struct ConsensusUpgradeTracker {
    votes: PeerSet,
    status: UpgradeStatus,
}

impl View for ConsensusUpgradeTracker {
    type V = Set<PeerId>;

    closed spec fn view(&self) -> Set<PeerId> {
        self.votes@
    }
}

impl ConsensusUpgradeTracker {
    /// The representation invariant of the set of signals.
    pub closed spec fn wf(&self) -> bool {
        self.votes.wf()
    }

    /// How far the upgrade has come.
    pub closed spec fn spec_status(&self) -> UpgradeStatus {
        self.status
    }

    /// A tracker without signals, before any upgrade.
    pub fn new() -> (t: ConsensusUpgradeTracker)
        ensures
            t.wf(),
            t@ == Set::<PeerId>::empty(),
            t.spec_status() is Collecting,
    {
        ConsensusUpgradeTracker { votes: PeerSet::new(), status: UpgradeStatus::Collecting }
    }

    /// A tracker with the same signals and status.
    pub fn duplicate(&self) -> (t: ConsensusUpgradeTracker)
        requires
            self.wf(),
        ensures
            t.wf(),
            t@ == self@,
            t.spec_status() == self.spec_status(),
    {
        ConsensusUpgradeTracker { votes: self.votes.duplicate(), status: self.status }
    }

    pub fn status(&self) -> (s: UpgradeStatus)
        ensures
            s == self.spec_status(),
    {
        self.status
    }

    /// Whether `peer` has signalled.
    pub fn has_signalled(&self, peer: PeerId) -> (found: bool)
        ensures
            found == self@.contains(peer),
    {
        self.votes.contains(peer)
    }

    /// The peers that have signalled, in the order of their ordinals.
    pub fn votes(&self) -> (list: Vec<PeerId>)
        requires
            self.wf(),
        ensures
            spec_increasing(list@),
            list@.to_set() == self@,
    {
        self.votes.to_vec()
    }

    /// Takes the signal of `peer`. Returns whether it was new; a signal that
    /// is given again changes nothing. The status stays as it is.
    pub fn signal(&mut self, peer: PeerId) -> (added: bool)
        requires
            old(self).wf(),
        ensures
            final(self).wf(),
            final(self)@ == old(self)@.insert(peer),
            added == !old(self)@.contains(peer),
            final(self).spec_status() == old(self).spec_status(),
    {
        self.votes.insert(peer)
    }

    /// Takes all signals of one round as one update.
    pub fn signal_round(&mut self, peers: &Vec<PeerId>)
        requires
            old(self).wf(),
        ensures
            final(self).wf(),
            final(self)@ == old(self)@.union(peers@.to_set()),
            final(self).spec_status() == old(self).spec_status(),
    {
        let mut i: usize = 0;
        assert(peers@.take(0).to_set() =~= Set::<PeerId>::empty());
        assert(self@ =~= old(self)@.union(peers@.take(0).to_set()));
        while i < peers.len()
            invariant
                i <= peers@.len(),
                self.wf(),
                self.spec_status() == old(self).spec_status(),
                self@ == old(self)@.union(peers@.take(i as int).to_set()),
            decreases peers@.len() - i,
        {
            self.signal(peers[i]);
            proof {
                let before = peers@.take(i as int);
                assert(peers@.take(i + 1) =~= before.push(peers@[i as int]));
                before.lemma_push_to_set_commute(peers@[i as int]);
                assert(self@ =~= old(self)@.union(peers@.take(i + 1).to_set()));
            }
            i += 1;
        }
        assert(peers@.take(peers@.len() as int) =~= peers@);
    }

    /// The round that committed `epoch` has ended with `active` as the
    /// active set. Schedules the upgrade for the next epoch where the signals
    /// are those of all of `active` and it has not been scheduled before;
    /// returns that epoch then, and `None` otherwise.
    pub fn round_committed(&mut self, active: &PeerSet, epoch: u64) -> (scheduled: Option<u64>)
        requires
            old(self).wf(),
            active.wf(),
        ensures
            final(self).wf(),
            final(self)@ == old(self)@,
            (final(self).spec_status(), scheduled) == spec_after_round(
                old(self).spec_status(),
                old(self)@,
                active@,
                epoch,
            ),
    {
        match self.status {
            UpgradeStatus::Collecting => {
                if epoch < u64::MAX && self.votes.same_members(active) {
                    self.status = UpgradeStatus::Scheduled { epoch: epoch + 1 };
                    Some(epoch + 1)
                } else {
                    None
                }
            },
            _ => None,
        }
    }

    /// The migration has been completed. Returns whether one was due.
    pub fn migration_completed(&mut self) -> (was_due: bool)
        requires
            old(self).wf(),
        ensures
            final(self).wf(),
            final(self)@ == old(self)@,
            match old(self).spec_status() {
                UpgradeStatus::Scheduled { epoch } => was_due && final(self).spec_status() == (
                UpgradeStatus::Completed { epoch }),
                _ => !was_due && final(self).spec_status() == old(self).spec_status(),
            },
    {
        match self.status {
            UpgradeStatus::Scheduled { epoch } => {
                self.status = UpgradeStatus::Completed { epoch };
                true
            },
            _ => false,
        }
    }

    /// Whether content of `epoch` must wait for the migration.
    pub fn blocks(&self, epoch: u64) -> (wait: bool)
        ensures
            wait == spec_blocks(self.spec_status(), epoch),
    {
        match self.status {
            UpgradeStatus::Scheduled { epoch: at } => epoch >= at,
            _ => false,
        }
    }

    /// Whether `epoch` is processed under the new version.
    pub fn new_version_at(&self, epoch: u64) -> (new: bool)
        ensures
            new == spec_new_version_at(self.spec_status(), epoch),
    {
        match self.status {
            UpgradeStatus::Collecting => false,
            UpgradeStatus::Scheduled { epoch: at } => epoch >= at,
            UpgradeStatus::Completed { epoch: at } => epoch >= at,
        }
    }
}

/// The upgrade is scheduled once: a round schedules it exactly when it has
/// not been scheduled before and the signals are those of the whole active
/// set, for the epoch after the one the round committed; and once it is
/// scheduled, no later round schedules it again or moves it.
pub proof fn lemma_scheduled_once(
    status: UpgradeStatus,
    votes: Set<PeerId>,
    active: Set<PeerId>,
    epoch: u64,
    later_votes: Set<PeerId>,
    later_active: Set<PeerId>,
    later_epoch: u64,
)
    ensures
        spec_after_round(status, votes, active, epoch).1 is Some <==> status is Collecting
            && votes == active && epoch < u64::MAX,
        spec_after_round(status, votes, active, epoch).1 matches Some(at) ==> at == epoch + 1
            && spec_after_round(status, votes, active, epoch).0 == (UpgradeStatus::Scheduled {
            epoch: at,
        }),
        !(spec_after_round(status, votes, active, epoch).0 is Collecting) ==> spec_after_round(
            spec_after_round(status, votes, active, epoch).0,
            later_votes,
            later_active,
            later_epoch,
        ) == (spec_after_round(status, votes, active, epoch).0, None::<u64>),
{
}

/// From the epoch for which the upgrade is scheduled on, content waits for
/// the migration: no epoch is processed under the new version while the
/// migration is due.
pub proof fn lemma_migration_before_new_version(status: UpgradeStatus, epoch: u64)
    ensures
        spec_new_version_at(status, epoch) && !spec_blocks(status, epoch) ==> status is Completed,
        spec_blocks(status, epoch) ==> spec_new_version_at(status, epoch),
{
}

} // verus!
