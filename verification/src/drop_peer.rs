//! The peer drop quorum tracker.
//!
//! Whenever a peer fails to take part in a round as it should, each peer
//! that saw it registers a vote against it. A vote is a pair of voter and
//! target; the same vote registered again changes nothing. Once the number
//! of distinct voters against a peer reaches `f + 1`, the peer leaves the
//! active set, unless too few peers would be left to continue.

use crate::peers::{spec_increasing, PeerId, PeerSet};
use crate::quorum::{
    can_continue, exclusion_threshold, spec_can_continue, spec_exclusion_threshold,
};
use vstd::prelude::*;

verus! {

/// One observation: `voter` saw `target` fail.
#[derive(Clone, Copy, Debug, PartialEq, Eq, Structural)]
pub struct DropVote {
    pub voter: PeerId,
    pub target: PeerId,
}

/// The peers that voted against `target` in `votes`.
pub open spec fn spec_voters(votes: Set<DropVote>, target: PeerId) -> Set<PeerId> {
    Set::new(|voter: PeerId| votes.contains(DropVote { voter, target }))
}

/// The number of distinct voters against `target` in `votes`.
pub open spec fn spec_tally(votes: Set<DropVote>, target: PeerId) -> nat {
    spec_voters(votes, target).len()
}

/// Whether `votes` holds a vote against `target`.
pub open spec fn spec_is_target(votes: Set<DropVote>, target: PeerId) -> bool {
    exists|voter: PeerId| votes.contains(DropVote { voter, target })
}

/// Whether `list` has an entry for `target`.
pub open spec fn spec_lists(list: Seq<(PeerId, usize)>, target: PeerId) -> bool {
    exists|k: int| 0 <= k < list.len() && (#[trigger] list[k]).0 == target
}

/// Whether `target` is to leave a federation of `n` peers on `votes`.
pub open spec fn spec_due(votes: Set<DropVote>, target: PeerId, n: nat) -> bool {
    spec_tally(votes, target) >= spec_exclusion_threshold(n)
}

/// The peers of `active` that stay on `votes`.
pub open spec fn spec_survivors(votes: Set<DropVote>, active: Set<PeerId>) -> Set<PeerId> {
    Set::new(|p: PeerId| active.contains(p) && !spec_due(votes, p, active.len()))
}

/// The voters against one target are finitely many where the votes are.
pub proof fn lemma_voters_finite(votes: Set<DropVote>, target: PeerId)
    requires
        votes.finite(),
    ensures
        spec_voters(votes, target).finite(),
{
    let voters = spec_voters(votes, target);
    let image = votes.map(|v: DropVote| v.voter);
    votes.lemma_map_finite(|v: DropVote| v.voter);
    assert forall|p: PeerId| voters.contains(p) implies image.contains(p) by {
        let v = DropVote { voter: p, target };
        assert(votes.contains(v) && v.voter == p);
    }
    vstd::set_lib::lemma_set_subset_finite(image, voters);
}

/// The tally never falls: with more votes, no target has fewer voters.
pub proof fn lemma_tally_monotonic(before: Set<DropVote>, after: Set<DropVote>, target: PeerId)
    requires
        after.finite(),
        before.subset_of(after),
    ensures
        spec_tally(before, target) <= spec_tally(after, target),
{
    lemma_voters_finite(after, target);
    assert(spec_voters(before, target).subset_of(spec_voters(after, target)));
    vstd::set_lib::lemma_len_subset(spec_voters(before, target), spec_voters(after, target));
}

/// A vote that is registered again leaves every tally as it is, and a new
/// vote raises the tally of its target by one and no other.
pub proof fn lemma_tally_of_insert(votes: Set<DropVote>, vote: DropVote, target: PeerId)
    requires
        votes.finite(),
    ensures
        spec_tally(votes.insert(vote), target) == if !votes.contains(vote) && vote.target
            == target {
            spec_tally(votes, target) + 1
        } else {
            spec_tally(votes, target)
        },
{
    lemma_voters_finite(votes, target);
    let before = spec_voters(votes, target);
    let after = spec_voters(votes.insert(vote), target);
    if !votes.contains(vote) && vote.target == target {
        assert(after =~= before.insert(vote.voter));
        assert(!before.contains(vote.voter));
    } else {
        assert(after =~= before);
    }
}

/// A peer leaves exactly when its tally has reached the threshold, never
/// earlier: of the active peers those stay whose distinct voters are fewer
/// than `f + 1`, and no peer joins.
pub proof fn lemma_excluded_exactly_when_due(
    votes: Set<DropVote>,
    active: Set<PeerId>,
    peer: PeerId,
)
    ensures
        spec_survivors(votes, active).contains(peer) <==> active.contains(peer) && spec_tally(
            votes,
            peer,
        ) < spec_exclusion_threshold(active.len()),
        spec_survivors(votes, active).subset_of(active),
{
}

/// Why a round could not go on.
#[derive(Clone, Copy, Debug, PartialEq, Eq, Structural)]
pub enum DropFault {
    /// The votes exclude so many peers that the `remaining` ones could not
    /// continue agreement. No peer was excluded.
    UnsafeExclusion { remaining: usize },
}

/// The votes to drop peers.
pub struct DropPeerTracker {
    votes: Vec<DropVote>,
}

impl View for DropPeerTracker {
    type V = Set<DropVote>;

    closed spec fn view(&self) -> Set<DropVote> {
        self.votes@.to_set()
    }
}

impl DropPeerTracker {
    /// No vote is held twice.
    pub closed spec fn wf(&self) -> bool {
        self.votes@.no_duplicates()
    }

    /// The votes are finitely many.
    pub proof fn lemma_finite(&self)
        ensures
            self@.finite(),
    {
        vstd::seq_lib::seq_to_set_is_finite(self.votes@);
    }

    /// A tracker without votes.
    pub fn new() -> (t: DropPeerTracker)
        ensures
            t.wf(),
            t@ == Set::<DropVote>::empty(),
    {
        let t = DropPeerTracker { votes: Vec::new() };
        assert(t.votes@.to_set() =~= Set::<DropVote>::empty());
        t
    }

    /// A tracker with the same votes.
    pub fn duplicate(&self) -> (t: DropPeerTracker)
        requires
            self.wf(),
        ensures
            t.wf(),
            t@ == self@,
    {
        DropPeerTracker { votes: self.votes.clone() }
    }

    /// Whether `vote` has been registered.
    pub fn has_vote(&self, vote: DropVote) -> (found: bool)
        ensures
            found == self@.contains(vote),
    {
        let mut i: usize = 0;
        while i < self.votes.len()
            invariant
                i <= self.votes@.len(),
                forall|j: int| 0 <= j < i ==> self.votes@[j] != vote,
            decreases self.votes@.len() - i,
        {
            if self.votes[i] == vote {
                return true;
            }
            i += 1;
        }
        false
    }

    /// Registers `vote`. Returns whether it was new; a vote that is
    /// registered again changes nothing.
    pub fn register_vote(&mut self, vote: DropVote) -> (added: bool)
        requires
            old(self).wf(),
        ensures
            final(self).wf(),
            final(self)@ == old(self)@.insert(vote),
            added == !old(self)@.contains(vote),
    {
        if self.has_vote(vote) {
            assert(self@ =~= self@.insert(vote));
            false
        } else {
            proof {
                self.votes@.lemma_push_to_set_commute(vote);
            }
            self.votes.push(vote);
            true
        }
    }

    /// Registers all votes of one round as one update.
    pub fn register_round(&mut self, votes: &Vec<DropVote>)
        requires
            old(self).wf(),
        ensures
            final(self).wf(),
            final(self)@ == old(self)@.union(votes@.to_set()),
    {
        let mut i: usize = 0;
        assert(votes@.take(0).to_set() =~= Set::<DropVote>::empty());
        assert(self@ =~= old(self)@.union(votes@.take(0).to_set()));
        while i < votes.len()
            invariant
                i <= votes@.len(),
                self.wf(),
                self@ == old(self)@.union(votes@.take(i as int).to_set()),
            decreases votes@.len() - i,
        {
            self.register_vote(votes[i]);
            proof {
                let before = votes@.take(i as int);
                assert(votes@.take(i + 1) =~= before.push(votes@[i as int]));
                before.lemma_push_to_set_commute(votes@[i as int]);
                assert(self@ =~= old(self)@.union(votes@.take(i + 1).to_set()));
            }
            i += 1;
        }
        assert(votes@.take(votes@.len() as int) =~= votes@);
    }

    /// The number of distinct voters against `target`.
    pub fn tally(&self, target: PeerId) -> (n: usize)
        requires
            self.wf(),
        ensures
            n == spec_tally(self@, target),
    {
        self.voters(target).len()
    }

    /// The peers that voted against `target`, each once.
    pub fn voters(&self, target: PeerId) -> (voters: PeerSet)
        ensures
            voters.wf(),
            voters@ == spec_voters(self@, target),
    {
        let mut voters = PeerSet::new();
        let mut i: usize = 0;
        while i < self.votes.len()
            invariant
                i <= self.votes@.len(),
                voters.wf(),
                forall|p: PeerId|
                    voters@.contains(p) <==> exists|j: int|
                        0 <= j < i && #[trigger] self.votes@[j] == (DropVote { voter: p, target }),
            decreases self.votes@.len() - i,
        {
            let vote = self.votes[i];
            let ghost before = voters@;
            if vote.target == target {
                voters.insert(vote.voter);
            }
            proof {
                assert forall|p: PeerId|
                    voters@.contains(p) <==> exists|j: int|
                        0 <= j < i + 1 && #[trigger] self.votes@[j] == (DropVote {
                            voter: p,
                            target,
                        }) by {
                    let v = DropVote { voter: p, target };
                    if voters@.contains(p) {
                        if before.contains(p) {
                            let j = choose|j: int| 0 <= j < i && #[trigger] self.votes@[j] == v;
                            assert(0 <= j < i + 1);
                        } else {
                            assert(self.votes@[i as int] == v);
                        }
                    }
                    if exists|j: int| 0 <= j < i + 1 && #[trigger] self.votes@[j] == v {
                        let j = choose|j: int| 0 <= j < i + 1 && #[trigger] self.votes@[j] == v;
                        if j < i {
                            assert(before.contains(p));
                        }
                    }
                }
            }
            i += 1;
        }
        proof {
            assert forall|p: PeerId| voters@.contains(p) <==> spec_voters(self@, target).contains(
                p,
            ) by {
                let v = DropVote { voter: p, target };
                if voters@.contains(p) {
                    let j = choose|j: int| 0 <= j < i && #[trigger] self.votes@[j] == v;
                    assert(self.votes@.contains(v));
                }
                if self.votes@.contains(v) {
                    let j = choose|j: int| 0 <= j < self.votes@.len() && self.votes@[j] == v;
                    assert(self.votes@[j] == v);
                }
            }
            assert(voters@ =~= spec_voters(self@, target));
        }
        voters
    }

    /// Whether `target` is to leave a federation of `n` peers.
    pub fn is_due(&self, target: PeerId, n: usize) -> (due: bool)
        requires
            self.wf(),
        ensures
            due == spec_due(self@, target, n as nat),
    {
        self.tally(target) >= exclusion_threshold(n)
    }

    /// The targets against which a vote is registered, each once.
    pub fn targets(&self) -> (targets: PeerSet)
        ensures
            targets.wf(),
            forall|p: PeerId| targets@.contains(p) <==> spec_is_target(self@, p),
    {
        let mut targets = PeerSet::new();
        let mut i: usize = 0;
        while i < self.votes.len()
            invariant
                i <= self.votes@.len(),
                targets.wf(),
                forall|p: PeerId|
                    targets@.contains(p) <==> exists|j: int|
                        0 <= j < i && (#[trigger] self.votes@[j]).target == p,
            decreases self.votes@.len() - i,
        {
            let ghost before = targets@;
            targets.insert(self.votes[i].target);
            proof {
                assert forall|p: PeerId|
                    targets@.contains(p) <==> exists|j: int|
                        0 <= j < i + 1 && (#[trigger] self.votes@[j]).target == p by {
                    if targets@.contains(p) {
                        if before.contains(p) {
                            let j = choose|j: int|
                                0 <= j < i && (#[trigger] self.votes@[j]).target == p;
                            assert(0 <= j < i + 1);
                        } else {
                            assert(self.votes@[i as int].target == p);
                        }
                    }
                    if exists|j: int| 0 <= j < i + 1 && (#[trigger] self.votes@[j]).target == p {
                        let j = choose|j: int|
                            0 <= j < i + 1 && (#[trigger] self.votes@[j]).target == p;
                        if j < i {
                            assert(before.contains(p));
                        }
                    }
                }
            }
            i += 1;
        }
        proof {
            assert forall|p: PeerId| targets@.contains(p) <==> spec_is_target(self@, p) by {
                if targets@.contains(p) {
                    let j = choose|j: int|
                        0 <= j < self.votes@.len() && (#[trigger] self.votes@[j]).target == p;
                    let v = self.votes@[j];
                    assert(self.votes@.contains(v));
                    assert(self@.contains(DropVote { voter: v.voter, target: p }));
                }
                if spec_is_target(self@, p) {
                    let voter = choose|voter: PeerId| self@.contains(DropVote { voter, target: p });
                    let v = DropVote { voter, target: p };
                    let j = choose|j: int| 0 <= j < self.votes@.len() && self.votes@[j] == v;
                    assert(self.votes@[j].target == p);
                }
            }
        }
        targets
    }

    /// The tally of every target with a vote against it, in the order of
    /// the targets.
    pub fn tallies(&self) -> (list: Vec<(PeerId, usize)>)
        requires
            self.wf(),
        ensures
            forall|k: int|
                0 <= k < list@.len() ==> (#[trigger] list@[k]).1 == spec_tally(self@, list@[k].0),
            forall|k: int, m: int| 0 <= k < m < list@.len() ==> list@[k].0.0 < list@[m].0.0,
            forall|p: PeerId| #[trigger] spec_lists(list@, p) <==> spec_is_target(self@, p),
    {
        let targets = self.targets();
        let members = targets.to_vec();
        let mut list: Vec<(PeerId, usize)> = Vec::new();
        let mut i: usize = 0;
        while i < members.len()
            invariant
                i <= members@.len(),
                self.wf(),
                list@.len() == i,
                forall|k: int| 0 <= k < i ==> (#[trigger] list@[k]).0 == members@[k],
                forall|k: int|
                    0 <= k < i ==> (#[trigger] list@[k]).1 == spec_tally(self@, list@[k].0),
            decreases members@.len() - i,
        {
            let n = self.tally(members[i]);
            list.push((members[i], n));
            i += 1;
        }
        proof {
            assert forall|p: PeerId| #[trigger] spec_lists(list@, p) <==> targets@.contains(p) by {
                if spec_lists(list@, p) {
                    let k = choose|k: int| 0 <= k < list@.len() && (#[trigger] list@[k]).0 == p;
                    assert(members@[k] == p);
                    assert(members@.contains(p));
                }
                if targets@.contains(p) {
                    assert(members@.to_set().contains(p));
                    let k = choose|k: int| 0 <= k < members@.len() && members@[k] == p;
                    assert(list@[k].0 == p);
                }
            }
        }
        list
    }

    /// Takes the votes of one round and excludes from `active` every peer
    /// whose tally has reached the threshold of the federation as it stood
    /// before the round. Returns the peers that were excluded, in the order
    /// of their ordinals. Where too few
    /// peers would be left to continue, nothing is changed and the fault is
    /// returned.
    pub fn process_round(&mut self, active: &mut PeerSet, votes: &Vec<DropVote>) -> (r: Result<
        Vec<PeerId>,
        DropFault,
    >)
        requires
            old(self).wf(),
            old(active).wf(),
        ensures
            final(self).wf(),
            final(active).wf(),
            ({
                let merged = old(self)@.union(votes@.to_set());
                let survivors = spec_survivors(merged, old(active)@);
                match r {
                    Ok(excluded) => {
                        &&& spec_can_continue(survivors.len())
                        &&& final(self)@ == merged
                        &&& final(active)@ == survivors
                        &&& spec_increasing(excluded@)
                        &&& excluded@.to_set() == old(active)@.difference(survivors)
                    },
                    Err(fault) => {
                        &&& !spec_can_continue(survivors.len())
                        &&& fault == (DropFault::UnsafeExclusion {
                            remaining: survivors.len() as usize,
                        })
                        &&& final(self)@ == old(self)@
                        &&& final(active)@ == old(active)@
                    },
                }
            }),
    {
        let saved = self.votes.clone();
        self.register_round(votes);
        let ghost merged = self@;
        let members = active.to_vec();
        let n = active.len();
        let mut survivors = PeerSet::new();
        let mut excluded: Vec<PeerId> = Vec::new();
        let mut i: usize = 0;
        while i < members.len()
            invariant
                i <= members@.len(),
                self.wf(),
                self@ == merged,
                survivors.wf(),
                spec_increasing(members@),
                members@.to_set() == active@,
                n == active@.len(),
                spec_increasing(excluded@),
                forall|p: PeerId|
                    survivors@.contains(p) <==> (exists|j: int|
                        0 <= j < i && #[trigger] members@[j] == p) && !spec_due(
                        merged,
                        p,
                        n as nat,
                    ),
                forall|p: PeerId|
                    excluded@.contains(p) <==> (exists|j: int|
                        0 <= j < i && #[trigger] members@[j] == p) && spec_due(merged, p, n as nat),
            decreases members@.len() - i,
        {
            let p = members[i];
            let ghost survivors_before = survivors@;
            let ghost excluded_before = excluded@;
            if self.is_due(p, n) {
                proof {
                    assert forall|k: int| 0 <= k < excluded@.len() implies (
                    #[trigger] excluded@[k]).0 < p.0 by {
                        assert(excluded@.contains(excluded@[k]));
                        let j = choose|j: int| 0 <= j < i && #[trigger] members@[j] == excluded@[k];
                        assert(members@[j].0 < members@[i as int].0);
                    }
                }
                excluded.push(p);
                proof {
                    assert forall|q: PeerId|
                        excluded@.contains(q) <==> (exists|j: int|
                            0 <= j < i + 1 && #[trigger] members@[j] == q) && spec_due(
                            merged,
                            q,
                            n as nat,
                        ) by {
                        if excluded@.contains(q) {
                            let k = choose|k: int| 0 <= k < excluded@.len() && excluded@[k] == q;
                            if k < excluded_before.len() {
                                assert(excluded_before[k] == q);
                                assert(excluded_before.contains(q));
                                let j = choose|j: int| 0 <= j < i && #[trigger] members@[j] == q;
                                assert(0 <= j < i + 1);
                            } else {
                                assert(members@[i as int] == q);
                            }
                        }
                        if (exists|j: int| 0 <= j < i + 1 && #[trigger] members@[j] == q)
                            && spec_due(merged, q, n as nat) {
                            let j = choose|j: int| 0 <= j < i + 1 && #[trigger] members@[j] == q;
                            if j < i {
                                assert(excluded_before.contains(q));
                                let k = choose|k: int|
                                    0 <= k < excluded_before.len() && excluded_before[k] == q;
                                assert(excluded@[k] == q);
                            } else {
                                assert(excluded@[excluded_before.len() as int] == q);
                            }
                        }
                    }
                    assert forall|q: PeerId|
                        survivors@.contains(q) <==> (exists|j: int|
                            0 <= j < i + 1 && #[trigger] members@[j] == q) && !spec_due(
                            merged,
                            q,
                            n as nat,
                        ) by {
                        if survivors@.contains(q) {
                            let j = choose|j: int| 0 <= j < i && #[trigger] members@[j] == q;
                            assert(0 <= j < i + 1);
                        }
                        if (exists|j: int| 0 <= j < i + 1 && #[trigger] members@[j] == q)
                            && !spec_due(merged, q, n as nat) {
                            let j = choose|j: int| 0 <= j < i + 1 && #[trigger] members@[j] == q;
                            assert(j < i);
                        }
                    }
                }
            } else {
                survivors.insert(p);
                proof {
                    assert forall|q: PeerId|
                        survivors@.contains(q) <==> (exists|j: int|
                            0 <= j < i + 1 && #[trigger] members@[j] == q) && !spec_due(
                            merged,
                            q,
                            n as nat,
                        ) by {
                        if survivors@.contains(q) {
                            if survivors_before.contains(q) {
                                let j = choose|j: int| 0 <= j < i && #[trigger] members@[j] == q;
                                assert(0 <= j < i + 1);
                            } else {
                                assert(members@[i as int] == q);
                            }
                        }
                        if (exists|j: int| 0 <= j < i + 1 && #[trigger] members@[j] == q)
                            && !spec_due(merged, q, n as nat) {
                            let j = choose|j: int| 0 <= j < i + 1 && #[trigger] members@[j] == q;
                            if j < i {
                                assert(survivors_before.contains(q));
                            }
                        }
                    }
                    assert forall|q: PeerId|
                        excluded@.contains(q) <==> (exists|j: int|
                            0 <= j < i + 1 && #[trigger] members@[j] == q) && spec_due(
                            merged,
                            q,
                            n as nat,
                        ) by {
                        if excluded@.contains(q) {
                            let j = choose|j: int| 0 <= j < i && #[trigger] members@[j] == q;
                            assert(0 <= j < i + 1);
                        }
                        if (exists|j: int| 0 <= j < i + 1 && #[trigger] members@[j] == q)
                            && spec_due(merged, q, n as nat) {
                            let j = choose|j: int| 0 <= j < i + 1 && #[trigger] members@[j] == q;
                            assert(j < i);
                        }
                    }
                }
            }
            i += 1;
        }
        proof {
            let expected = spec_survivors(merged, active@);
            assert forall|p: PeerId| survivors@.contains(p) <==> expected.contains(p) by {
                if survivors@.contains(p) {
                    let j = choose|j: int| 0 <= j < i && #[trigger] members@[j] == p;
                    assert(members@.contains(p));
                }
                if expected.contains(p) {
                    assert(members@.to_set().contains(p));
                    let j = choose|j: int| 0 <= j < members@.len() && members@[j] == p;
                    assert(members@[j] == p);
                }
            }
            assert(survivors@ =~= expected);
            assert forall|p: PeerId|
                excluded@.to_set().contains(p) <==> active@.difference(expected).contains(p) by {
                if excluded@.contains(p) {
                    let j = choose|j: int| 0 <= j < i && #[trigger] members@[j] == p;
                    assert(members@.contains(p));
                }
                if active@.difference(expected).contains(p) {
                    assert(members@.to_set().contains(p));
                    let j = choose|j: int| 0 <= j < members@.len() && members@[j] == p;
                    assert(members@[j] == p);
                }
            }
            assert(excluded@.to_set() =~= active@.difference(expected));
        }
        let remaining = survivors.len();
        if can_continue(remaining) {
            *active = survivors;
            Ok(excluded)
        } else {
            self.votes = saved;
            Err(DropFault::UnsafeExclusion { remaining })
        }
    }
}

} // verus!
