//! The epoch sequencer.
//!
//! The sequencer drives one round after the other:
//! `Idle -> Proposing -> Agreeing -> Signing -> Committing -> Idle`. It does
//! no outside work itself. The caller hands it what the agreement, the
//! validator, the signers and the store have produced, and the sequencer
//! decides what the round has come to. Everything a round produces is kept
//! apart until the store has committed it; then the epoch, the votes and the
//! active set change together. A round that meets an integrity fault ends in
//! `Halted`, which nothing leaves.

use crate::canonical::{canonicalize, insert_sorted, spec_canonical_of, spec_keys};
use crate::crypto::{signature_verifies, spec_signature_verifies};
use crate::drop_peer::{spec_survivors, DropFault, DropPeerTracker, DropVote};
use crate::epoch::{spec_strictly_increasing, SignedEpochOutcome, SignedEpochOutcomeView};
use crate::ledger::{
    lemma_history_has_no_gaps, spec_records_match, CommitError, CommitStatus, Ledger,
};
use crate::peers::{spec_increasing, PeerId, PeerSet};
use crate::quorum::{signing_threshold, spec_can_continue, spec_signing_threshold};
use crate::round::{draft_epoch, spec_draft_of, AgreedItem, EpochDraft};
use crate::transaction::{Transaction, TransactionId};
use crate::upgrade::{spec_after_round, spec_blocks, ConsensusUpgradeTracker, UpgradeStatus};
use vstd::prelude::*;

verus! {

/// Where a round stands.
#[derive(Clone, Copy, Debug, PartialEq, Eq, Structural)]
pub enum Phase {
    /// No round is open.
    Idle,
    /// The proposal of this peer is drawn up.
    Proposing,
    /// The proposal is with the agreement; its result is awaited.
    Agreeing,
    /// The epoch is drafted; partial signatures are collected.
    Signing,
    /// The epoch is signed; the store is committing it.
    Committing,
    /// An integrity fault has stopped the sequencer for good.
    Halted,
}

/// Whether a round may pass from `from` to `to`: forward by one step, back to
/// `Idle` when it is abandoned, or into `Halted` from where faults show.
pub open spec fn spec_may_follow(from: Phase, to: Phase) -> bool {
    match from {
        Phase::Idle => to is Proposing,
        Phase::Proposing => to is Agreeing || to is Idle,
        Phase::Agreeing => to is Signing || to is Idle || to is Halted,
        Phase::Signing => to is Committing || to is Idle || to is Halted,
        Phase::Committing => to is Idle || to is Halted,
        Phase::Halted => false,
    }
}

/// Why the sequencer has halted.
#[derive(Clone, Copy, Debug, PartialEq, Eq, Structural)]
pub enum Fault {
    /// An active peer has validly signed another digest for this epoch.
    DigestMismatch { peer: PeerId },
    /// The votes of the round exclude so many peers that the `remaining`
    /// ones could not continue agreement.
    UnsafeExclusion { remaining: usize },
    /// The combined signature is not the federation's over the digest.
    InvalidSignature,
    /// The store has failed to commit the epoch in `attempts` attempts.
    StoreFailure { attempts: u32 },
}

/// Why a call did not move the round on.
#[derive(Clone, Copy, Debug, PartialEq, Eq, Structural)]
pub enum RoundError {
    /// The call has no place in the phase the round is in. Nothing changed.
    WrongPhase { phase: Phase },
    /// The schema migration has to be completed before `epoch` is processed.
    /// Nothing changed.
    MigrationPending { epoch: u64 },
    /// No further epoch number exists. Nothing changed.
    HistoryFull,
    /// Fewer valid partial signatures have come than a signature needs.
    /// Nothing changed.
    QuorumNotReached { have: usize, need: usize },
    /// The call has met a fault, and the sequencer has halted.
    Halted { fault: Fault },
}

/// What became of a submitted transaction.
#[derive(Clone, Copy, Debug, PartialEq, Eq, Structural)]
pub enum Submission {
    /// The transaction waits for a round.
    Queued,
    /// A transaction with this identifier waits for a round already.
    AlreadyQueued,
    /// The epoch `epoch` has accepted the transaction.
    AlreadyAccepted { epoch: u64 },
    /// An epoch has rejected the transaction.
    AlreadyRejected,
}

/// Whether `a` and `b` list the same transactions in the same order.
pub open spec fn spec_same_transactions(a: Seq<Transaction>, b: Seq<Transaction>) -> bool {
    &&& a.len() == b.len()
    &&& forall|i: int|
        0 <= i < a.len() ==> (#[trigger] a[i]).spec_id() == b[i].spec_id() && a[i].spec_payload()
            == b[i].spec_payload()
}

/// What a partial signature has come to.
#[derive(Clone, Copy, Debug, PartialEq, Eq, Structural)]
pub enum SigningProgress {
    /// The signer is not in the active set: nothing changed.
    Ignored,
    /// The partial signature is not valid: nothing changed. The signer is to
    /// be reported with the observations of the next round.
    Invalid,
    /// `have` of the `need` signers have signed.
    Collected { have: usize, need: usize },
    /// Enough signers have signed: the signature can be combined.
    QuorumReached { have: usize },
}

/// What a round has produced and the store has not committed yet.
pub struct PendingEpoch {
    pub draft: EpochDraft,
    /// The digest of the drafted outcome.
    pub digest: [u8; 32],
    /// The active set after the exclusions of this round.
    pub next_active: PeerSet,
    /// The votes to drop peers with those of this round.
    pub next_drops: DropPeerTracker,
    /// The upgrade signals with those of this round.
    pub next_upgrade: ConsensusUpgradeTracker,
    /// The peers that this round excludes.
    pub excluded: Vec<PeerId>,
    /// The epoch for which this round schedules the upgrade, if it does.
    pub upgrade_at: Option<u64>,
}

/// Whether the commit of `pending` on `ledger` can only fail on its
/// signature.
pub open spec fn spec_ready(ledger: Ledger, pending: PendingEpoch) -> bool {
    let draft = pending.draft@;
    &&& draft.outcome.epoch_number == ledger.spec_history().len()
    &&& draft.outcome.epoch_number < u64::MAX
    &&& ledger.spec_extends(draft.outcome)
    &&& draft.outcome.spec_canonical()
    &&& spec_records_match(draft.outcome, draft.accepted, draft.rejected)
    &&& ledger.spec_none_processed(draft.outcome.accepted)
    &&& ledger.spec_none_processed(draft.outcome.rejected)
    &&& pending.digest@ == draft.outcome.spec_digest()
    &&& pending.next_active.wf()
    &&& pending.next_drops.wf()
    &&& pending.next_upgrade.wf()
}

/// The sequencer of one peer.
pub struct Sequencer {
    ledger: Ledger,
    active: PeerSet,
    drops: DropPeerTracker,
    upgrade: ConsensusUpgradeTracker,
    max_store_attempts: u32,
    pool: Vec<Transaction>,
    phase: Phase,
    fault: Option<Fault>,
    proposal: Vec<Transaction>,
    pending: Option<PendingEpoch>,
    signers: PeerSet,
    signature: Option<[u8; 96]>,
    store_attempts: u32,
}

impl Sequencer {
    /// What has been committed.
    pub closed spec fn spec_ledger(&self) -> Ledger {
        self.ledger
    }

    /// The peers that take part in agreement and signing.
    pub closed spec fn spec_active(&self) -> Set<PeerId> {
        self.active@
    }

    /// The committed votes to drop peers.
    pub closed spec fn spec_drop_votes(&self) -> Set<DropVote> {
        self.drops@
    }

    /// The committed upgrade signals.
    pub closed spec fn spec_upgrade_votes(&self) -> Set<PeerId> {
        self.upgrade@
    }

    pub closed spec fn spec_upgrade_status(&self) -> UpgradeStatus {
        self.upgrade.spec_status()
    }

    pub closed spec fn spec_max_store_attempts(&self) -> u32 {
        self.max_store_attempts
    }

    /// Where the round stands.
    pub closed spec fn spec_phase(&self) -> Phase {
        self.phase
    }

    /// Why the sequencer has halted, if it has.
    pub closed spec fn spec_fault(&self) -> Option<Fault> {
        self.fault
    }

    /// The submitted transactions that wait for a round, in the order of
    /// identifiers.
    pub closed spec fn spec_pool(&self) -> Seq<Transaction> {
        self.pool@
    }

    /// The proposal of the open round.
    pub closed spec fn spec_proposal(&self) -> Seq<Transaction> {
        self.proposal@
    }

    /// What the open round has produced.
    pub closed spec fn spec_pending(&self) -> Option<PendingEpoch> {
        self.pending
    }

    /// The active peers whose valid partial signature has come.
    pub closed spec fn spec_signers(&self) -> Set<PeerId> {
        self.signers@
    }

    /// The combined signature of the open round.
    pub closed spec fn spec_signature(&self) -> Option<[u8; 96]> {
        self.signature
    }

    /// Failed attempts of the store at the open round.
    pub closed spec fn spec_store_attempts(&self) -> u32 {
        self.store_attempts
    }

    /// What holds of every sequencer: its parts are well-formed, it is
    /// halted exactly when it holds a fault, and from `Signing` on the round
    /// holds an epoch that the ledger will take.
    pub closed spec fn wf(&self) -> bool {
        &&& self.ledger.wf()
        &&& self.active.wf()
        &&& self.drops.wf()
        &&& self.upgrade.wf()
        &&& self.signers.wf()
        &&& spec_strictly_increasing(spec_keys(self.pool@))
        &&& (self.phase is Halted) == (self.fault is Some)
        &&& !(self.phase is Idle || self.phase is Halted) ==> self.ledger.spec_history().len()
            < u64::MAX
        &&& (self.phase is Signing || self.phase is Committing) ==> {
            &&& self.pending matches Some(p)
            &&& spec_ready(self.ledger, p)
        }
        &&& self.phase is Committing ==> {
            &&& self.pending matches Some(p)
            &&& self.signature matches Some(sig)
            &&& spec_signature_verifies(self.ledger.spec_federation_key()@, sig@, p.digest@)
        }
    }

    /// Whether what has been committed is the same in `self` and `other`.
    pub open spec fn spec_same_committed(&self, other: &Sequencer) -> bool {
        &&& self.spec_ledger() == other.spec_ledger()
        &&& self.spec_active() == other.spec_active()
        &&& self.spec_drop_votes() == other.spec_drop_votes()
        &&& self.spec_upgrade_votes() == other.spec_upgrade_votes()
        &&& self.spec_upgrade_status() == other.spec_upgrade_status()
        &&& self.spec_max_store_attempts() == other.spec_max_store_attempts()
    }

    /// Whether the open round is the same in `self` and `other`.
    pub open spec fn spec_same_round(&self, other: &Sequencer) -> bool {
        &&& self.spec_phase() == other.spec_phase()
        &&& self.spec_fault() == other.spec_fault()
        &&& self.spec_proposal() == other.spec_proposal()
        &&& self.spec_pending() == other.spec_pending()
        &&& self.spec_signers() == other.spec_signers()
        &&& self.spec_signature() == other.spec_signature()
        &&& self.spec_store_attempts() == other.spec_store_attempts()
    }

    /// The ledger of a well-formed sequencer is well-formed.
    pub proof fn lemma_ledger_wf(&self)
        requires
            self.wf(),
        ensures
            self.spec_ledger().wf(),
    {
    }

    /// A sequencer over what has been committed, with no round open. The
    /// store is tried `max_store_attempts` times in all on transient
    /// failures before the sequencer halts.
    pub fn new(
        ledger: Ledger,
        active: PeerSet,
        drops: DropPeerTracker,
        upgrade: ConsensusUpgradeTracker,
        max_store_attempts: u32,
    ) -> (s: Sequencer)
        requires
            ledger.wf(),
            active.wf(),
            drops.wf(),
            upgrade.wf(),
        ensures
            s.wf(),
            s.spec_ledger() == ledger,
            s.spec_active() == active@,
            s.spec_drop_votes() == drops@,
            s.spec_upgrade_votes() == upgrade@,
            s.spec_upgrade_status() == upgrade.spec_status(),
            s.spec_max_store_attempts() == max_store_attempts,
            s.spec_pool() == Seq::<Transaction>::empty(),
            s.spec_phase() is Idle,
            s.spec_fault() is None,
            s.spec_proposal() == Seq::<Transaction>::empty(),
            s.spec_pending() is None,
            s.spec_signature() is None,
            s.spec_store_attempts() == 0,
    {
        Sequencer {
            ledger,
            active,
            drops,
            upgrade,
            max_store_attempts,
            pool: Vec::new(),
            phase: Phase::Idle,
            fault: None,
            proposal: Vec::new(),
            pending: None,
            signers: PeerSet::new(),
            signature: None,
            store_attempts: 0,
        }
    }

    pub fn phase(&self) -> (p: Phase)
        ensures
            p == self.spec_phase(),
    {
        self.phase
    }

    pub fn fault(&self) -> (f: Option<Fault>)
        ensures
            f == self.spec_fault(),
    {
        self.fault
    }

    pub fn ledger(&self) -> (l: &Ledger)
        ensures
            *l == self.spec_ledger(),
    {
        &self.ledger
    }

    pub fn active(&self) -> (a: &PeerSet)
        requires
            self.wf(),
        ensures
            a.wf(),
            a@ == self.spec_active(),
    {
        &self.active
    }

    pub fn drops(&self) -> (d: &DropPeerTracker)
        requires
            self.wf(),
        ensures
            d.wf(),
            d@ == self.spec_drop_votes(),
    {
        &self.drops
    }

    pub fn upgrade(&self) -> (u: &ConsensusUpgradeTracker)
        requires
            self.wf(),
        ensures
            u.wf(),
            u@ == self.spec_upgrade_votes(),
            u.spec_status() == self.spec_upgrade_status(),
    {
        &self.upgrade
    }

    pub fn pool(&self) -> (p: &Vec<Transaction>)
        ensures
            p@ == self.spec_pool(),
    {
        &self.pool
    }

    pub fn proposal(&self) -> (p: &Vec<Transaction>)
        ensures
            p@ == self.spec_proposal(),
    {
        &self.proposal
    }

    pub fn pending(&self) -> (p: Option<&PendingEpoch>)
        ensures
            match p {
                Some(pending) => self.spec_pending() == Some(*pending),
                None => self.spec_pending() is None,
            },
    {
        self.pending.as_ref()
    }

    pub fn signature(&self) -> (s: Option<[u8; 96]>)
        ensures
            s == self.spec_signature(),
    {
        self.signature
    }

    /// Number of valid partial signatures that the open round needs.
    pub fn signatures_needed(&self) -> (need: usize)
        requires
            self.wf(),
        ensures
            need == spec_signing_threshold(self.spec_active().len()),
    {
        signing_threshold(self.active.len())
    }

    /// Takes a transaction of a client. A transaction that an epoch has
    /// processed is not taken again: the call says what became of it and
    /// changes nothing. Any other transaction waits in the pool for the next
    /// round, once under its identifier.
    pub fn submit(&mut self, transaction: Transaction) -> (r: Submission)
        requires
            old(self).wf(),
        ensures
            final(self).wf(),
            final(self).spec_phase() == old(self).spec_phase() || spec_may_follow(
                old(self).spec_phase(),
                final(self).spec_phase(),
            ),
            final(self).spec_same_committed(old(self)),
            final(self).spec_same_round(old(self)),
            ({
                let id = transaction.spec_id();
                let ledger = old(self).spec_ledger();
                let queued = spec_keys(old(self).spec_pool()).contains(id);
                match r {
                    Submission::AlreadyAccepted { epoch } => {
                        &&& ledger.spec_accepted_in(id, epoch)
                        &&& *final(self) == *old(self)
                    },
                    Submission::AlreadyRejected => {
                        &&& ledger.spec_is_rejected(id)
                        &&& *final(self) == *old(self)
                    },
                    Submission::AlreadyQueued => {
                        &&& !ledger.spec_is_processed(id)
                        &&& queued
                        &&& final(self).spec_pool() == old(self).spec_pool()
                    },
                    Submission::Queued => {
                        &&& !ledger.spec_is_processed(id)
                        &&& !queued
                        &&& exists|k: int|
                            0 <= k <= old(self).spec_pool().len() && final(self).spec_pool() == old(
                                self,
                            ).spec_pool().insert(k, transaction)
                    },
                }
            }),
    {
        let id = transaction.id();
        match self.ledger.accepted_transaction(&id) {
            Some(record) => {
                let epoch = record.epoch;
                proof {
                    let a = self.ledger.spec_accepted();
                    let i = choose|i: int| 0 <= i < a.len() && a[i] == record@;
                    assert(a[i].id == id && a[i].epoch == epoch);
                    assert(self.ledger.spec_accepted_in(id, epoch));
                }
                return Submission::AlreadyAccepted { epoch };
            },
            None => {},
        }
        if self.ledger.rejected_transaction(&id).is_some() {
            return Submission::AlreadyRejected;
        }
        let ghost before = self.pool@;
        if insert_sorted(&mut self.pool, transaction) {
            proof {
                let k = choose|k: int|
                    0 <= k <= before.len() && self.pool@ == before.insert(k, transaction);
                assert(self.spec_pool() == old(self).spec_pool().insert(k, transaction));
            }
            Submission::Queued
        } else {
            Submission::AlreadyQueued
        }
    }

    /// Opens a round and draws up the proposal: the transactions of the
    /// pool that no epoch has processed, in the order of identifiers. Returns
    /// the number of the epoch that the round is to commit. A round is opened
    /// only from `Idle`, and not while a scheduled migration is due for that
    /// epoch.
    pub fn begin_round(&mut self) -> (r: Result<u64, RoundError>)
        requires
            old(self).wf(),
        ensures
            final(self).wf(),
            final(self).spec_phase() == old(self).spec_phase() || spec_may_follow(
                old(self).spec_phase(),
                final(self).spec_phase(),
            ),
            match r {
                Ok(epoch) => {
                    &&& old(self).spec_phase() is Idle
                    &&& final(self).spec_phase() is Proposing
                    &&& epoch == old(self).spec_ledger().spec_next_epoch()
                    &&& epoch < u64::MAX
                    &&& !spec_blocks(old(self).spec_upgrade_status(), epoch)
                    &&& final(self).spec_same_committed(old(self))
                    &&& final(self).spec_fault() is None
                    &&& spec_canonical_of(
                        final(self).spec_pool(),
                        old(self).spec_pool(),
                        |id: TransactionId| old(self).spec_ledger().spec_is_processed(id),
                    )
                    &&& spec_same_transactions(final(self).spec_proposal(), final(self).spec_pool())
                },
                Err(e) => {
                    &&& *final(self) == *old(self)
                    &&& e == if !(old(self).spec_phase() is Idle) {
                        RoundError::WrongPhase { phase: old(self).spec_phase() }
                    } else if old(self).spec_ledger().spec_next_epoch() == u64::MAX {
                        RoundError::HistoryFull
                    } else {
                        RoundError::MigrationPending {
                            epoch: old(self).spec_ledger().spec_next_epoch(),
                        }
                    }
                    &&& !(old(self).spec_phase() is Idle)
                        || old(self).spec_ledger().spec_next_epoch() == u64::MAX || spec_blocks(
                        old(self).spec_upgrade_status(),
                        old(self).spec_ledger().spec_next_epoch(),
                    )
                },
            },
    {
        match self.phase {
            Phase::Idle => {},
            _ => {
                return Err(RoundError::WrongPhase { phase: self.phase });
            },
        }
        let epoch = self.ledger.next_epoch();
        if epoch == u64::MAX {
            return Err(RoundError::HistoryFull);
        }
        if self.upgrade.blocks(epoch) {
            return Err(RoundError::MigrationPending { epoch });
        }
        let mut waiting: Vec<Transaction> = Vec::new();
        core::mem::swap(&mut waiting, &mut self.pool);
        let canonical = canonicalize(waiting, &self.ledger);
        self.proposal = copy_transactions(&canonical);
        self.pool = canonical;
        self.phase = Phase::Proposing;
        Ok(epoch)
    }

    /// The proposal has been handed to the agreement.
    pub fn proposal_submitted(&mut self) -> (r: Result<(), RoundError>)
        requires
            old(self).wf(),
        ensures
            final(self).wf(),
            final(self).spec_phase() == old(self).spec_phase() || spec_may_follow(
                old(self).spec_phase(),
                final(self).spec_phase(),
            ),
            match r {
                Ok(_) => {
                    &&& old(self).spec_phase() is Proposing
                    &&& final(self).spec_phase() is Agreeing
                    &&& final(self).spec_same_committed(old(self))
                    &&& final(self).spec_pool() == old(self).spec_pool()
                    &&& final(self).spec_proposal() == old(self).spec_proposal()
                    &&& final(self).spec_fault() is None
                },
                Err(e) => {
                    &&& *final(self) == *old(self)
                    &&& !(old(self).spec_phase() is Proposing)
                    &&& e == (RoundError::WrongPhase { phase: old(self).spec_phase() })
                },
            },
    {
        match self.phase {
            Phase::Proposing => {
                self.phase = Phase::Agreeing;
                Ok(())
            },
            _ => Err(RoundError::WrongPhase { phase: self.phase }),
        }
    }

    /// The agreement has yielded `items`, the votes `drop_votes` to drop
    /// peers and the upgrade signals `upgrade_signals`. Drafts the epoch from
    /// the canonical list of `items` and works out the votes and the active
    /// set as they will stand once the epoch is committed. Returns the
    /// digest that the peers are to sign. Where the votes exclude so many
    /// peers that the rest could not continue, the sequencer halts.
    pub fn agreed(
        &mut self,
        items: Vec<AgreedItem>,
        drop_votes: Vec<DropVote>,
        upgrade_signals: Vec<PeerId>,
    ) -> (r: Result<[u8; 32], RoundError>)
        requires
            old(self).wf(),
        ensures
            final(self).wf(),
            final(self).spec_phase() == old(self).spec_phase() || spec_may_follow(
                old(self).spec_phase(),
                final(self).spec_phase(),
            ),
            final(self).spec_same_committed(old(self)),
            final(self).spec_pool() == old(self).spec_pool(),
            final(self).spec_proposal() == old(self).spec_proposal(),
            ({
                let ledger = old(self).spec_ledger();
                let epoch = ledger.spec_next_epoch();
                let votes = old(self).spec_drop_votes().union(drop_votes@.to_set());
                let survivors = spec_survivors(votes, old(self).spec_active());
                let signals = old(self).spec_upgrade_votes().union(upgrade_signals@.to_set());
                match r {
                    Ok(digest) => {
                        &&& old(self).spec_phase() is Agreeing
                        &&& final(self).spec_phase() is Signing
                        &&& final(self).spec_fault() is None
                        &&& final(self).spec_signers() == Set::<PeerId>::empty()
                        &&& spec_can_continue(survivors.len())
                        &&& final(self).spec_pending() matches Some(p)
                        &&& p.digest == digest
                        &&& digest@ == p.draft@.outcome.spec_digest()
                        &&& ledger.spec_extends(p.draft@.outcome)
                        &&& exists|canonical: Seq<AgreedItem>|
                            spec_canonical_of(
                                canonical,
                                items@,
                                |id: TransactionId| ledger.spec_is_processed(id),
                            ) && #[trigger] spec_draft_of(
                                p.draft@,
                                canonical,
                                epoch,
                                p.draft@.outcome.previous_hash,
                            )
                        &&& p.next_drops@ == votes
                        &&& p.next_active@ == survivors
                        &&& spec_increasing(p.excluded@)
                        &&& p.excluded@.to_set() == old(self).spec_active().difference(survivors)
                        &&& p.next_upgrade@ == signals
                        &&& (p.next_upgrade.spec_status(), p.upgrade_at) == spec_after_round(
                            old(self).spec_upgrade_status(),
                            signals,
                            survivors,
                            epoch,
                        )
                    },
                    Err(RoundError::Halted { fault }) => {
                        &&& old(self).spec_phase() is Agreeing
                        &&& final(self).spec_phase() is Halted
                        &&& final(self).spec_fault() == Some(fault)
                        &&& final(self).spec_pending() == old(self).spec_pending()
                        &&& final(self).spec_signers() == old(self).spec_signers()
                        &&& final(self).spec_signature() == old(self).spec_signature()
                        &&& !spec_can_continue(survivors.len())
                        &&& fault == (Fault::UnsafeExclusion {
                            remaining: survivors.len() as usize,
                        })
                    },
                    Err(e) => {
                        &&& *final(self) == *old(self)
                        &&& !(old(self).spec_phase() is Agreeing)
                        &&& e == (RoundError::WrongPhase { phase: old(self).spec_phase() })
                    },
                }
            }),
    {
        match self.phase {
            Phase::Agreeing => {},
            _ => {
                return Err(RoundError::WrongPhase { phase: self.phase });
            },
        }
        let mut next_active = self.active.duplicate();
        let mut next_drops = self.drops.duplicate();
        let excluded = match next_drops.process_round(&mut next_active, &drop_votes) {
            Ok(excluded) => excluded,
            Err(DropFault::UnsafeExclusion { remaining }) => {
                let fault = Fault::UnsafeExclusion { remaining };
                self.phase = Phase::Halted;
                self.fault = Some(fault);
                return Err(RoundError::Halted { fault });
            },
        };
        let epoch = self.ledger.next_epoch();
        let previous_hash = match self.ledger.latest() {
            Some(last) => Some(last.hash()),
            None => None,
        };
        let canonical = canonicalize(items, &self.ledger);
        let draft = draft_epoch(canonical, epoch, previous_hash);
        let digest = draft.outcome.digest();
        let mut next_upgrade = self.upgrade.duplicate();
        next_upgrade.signal_round(&upgrade_signals);
        let upgrade_at = next_upgrade.round_committed(&next_active, epoch);
        proof {
            let ledger = self.ledger;
            lemma_history_has_no_gaps(ledger);
            let d = draft@;
            assert(ledger.spec_extends(d.outcome));
            assert forall|k: int| 0 <= k < d.outcome.accepted.len() implies !ledger.spec_is_processed(
                #[trigger] d.outcome.accepted[k],
            ) by {
                let id = d.outcome.accepted[k];
                let j = choose|j: int|
                    0 <= j < spec_keys(canonical@).len() && spec_keys(canonical@)[j] == id;
                assert(spec_keys(canonical@)[j] == id);
            }
            assert forall|k: int| 0 <= k < d.outcome.rejected.len() implies !ledger.spec_is_processed(
                #[trigger] d.outcome.rejected[k],
            ) by {
                let id = d.outcome.rejected[k];
                let j = choose|j: int|
                    0 <= j < spec_keys(canonical@).len() && spec_keys(canonical@)[j] == id;
                assert(spec_keys(canonical@)[j] == id);
            }
        }
        self.pending = Some(
            PendingEpoch {
                draft,
                digest,
                next_active,
                next_drops,
                next_upgrade,
                excluded,
                upgrade_at,
            },
        );
        self.signers = PeerSet::new();
        self.signature = None;
        self.store_attempts = 0;
        self.phase = Phase::Signing;
        Ok(digest)
    }

    /// The partial signature of `peer` over `digest` has come; `valid` says
    /// whether it verifies under the key share of `peer`. A valid signature
    /// of an active peer over the digest of the round is counted once. A
    /// valid signature of an active peer over another digest halts the
    /// sequencer: two peers have derived different content for one epoch.
    pub fn partial_signature(&mut self, peer: PeerId, digest: [u8; 32], valid: bool) -> (r: Result<
        SigningProgress,
        RoundError,
    >)
        requires
            old(self).wf(),
        ensures
            final(self).wf(),
            final(self).spec_phase() == old(self).spec_phase() || spec_may_follow(
                old(self).spec_phase(),
                final(self).spec_phase(),
            ),
            final(self).spec_same_committed(old(self)),
            final(self).spec_pool() == old(self).spec_pool(),
            final(self).spec_proposal() == old(self).spec_proposal(),
            final(self).spec_pending() == old(self).spec_pending(),
            ({
                let need = spec_signing_threshold(old(self).spec_active().len());
                let counted = old(self).spec_phase() is Signing && old(self).spec_active().contains(
                    peer,
                ) && valid;
                match r {
                    Ok(progress) => {
                        &&& old(self).spec_phase() is Signing
                        &&& final(self).spec_phase() is Signing
                        &&& final(self).spec_fault() is None
                        &&& old(self).spec_pending() matches Some(p)
                        &&& match progress {
                            SigningProgress::Ignored => !old(self).spec_active().contains(peer)
                                && final(self).spec_signers() == old(self).spec_signers(),
                            SigningProgress::Invalid => old(self).spec_active().contains(peer)
                                && !valid && final(self).spec_signers() == old(self).spec_signers(),
                            SigningProgress::Collected { have, need: n } => {
                                &&& counted
                                &&& p.digest == digest
                                &&& final(self).spec_signers() == old(self).spec_signers().insert(
                                    peer,
                                )
                                &&& have == final(self).spec_signers().len()
                                &&& n == need
                                &&& have < need
                            },
                            SigningProgress::QuorumReached { have } => {
                                &&& counted
                                &&& p.digest == digest
                                &&& final(self).spec_signers() == old(self).spec_signers().insert(
                                    peer,
                                )
                                &&& have == final(self).spec_signers().len()
                                &&& have >= need
                            },
                        }
                    },
                    Err(RoundError::Halted { fault }) => {
                        &&& counted
                        &&& old(self).spec_pending() matches Some(p)
                        &&& p.digest != digest
                        &&& fault == (Fault::DigestMismatch { peer })
                        &&& final(self).spec_phase() is Halted
                        &&& final(self).spec_fault() == Some(fault)
                    },
                    Err(e) => {
                        &&& *final(self) == *old(self)
                        &&& !(old(self).spec_phase() is Signing)
                        &&& e == (RoundError::WrongPhase { phase: old(self).spec_phase() })
                    },
                }
            }),
    {
        match self.phase {
            Phase::Signing => {},
            _ => {
                return Err(RoundError::WrongPhase { phase: self.phase });
            },
        }
        if !self.active.contains(peer) {
            return Ok(SigningProgress::Ignored);
        }
        if !valid {
            return Ok(SigningProgress::Invalid);
        }
        let same = match &self.pending {
            Some(p) => same_digest(&p.digest, &digest),
            None => false,
        };
        if !same {
            let fault = Fault::DigestMismatch { peer };
            self.phase = Phase::Halted;
            self.fault = Some(fault);
            return Err(RoundError::Halted { fault });
        }
        self.signers.insert(peer);
        let have = self.signers.len();
        let need = signing_threshold(self.active.len());
        if have >= need {
            Ok(SigningProgress::QuorumReached { have })
        } else {
            Ok(SigningProgress::Collected { have, need })
        }
    }

    /// The partial signatures have been combined into `signature`. The
    /// signature is taken only once enough signers have signed, and it is
    /// checked against the federation's key: one that does not verify halts
    /// the sequencer. On success the epoch is ready for the store.
    pub fn combined(&mut self, signature: [u8; 96]) -> (r: Result<(), RoundError>)
        requires
            old(self).wf(),
        ensures
            final(self).wf(),
            final(self).spec_phase() == old(self).spec_phase() || spec_may_follow(
                old(self).spec_phase(),
                final(self).spec_phase(),
            ),
            final(self).spec_same_committed(old(self)),
            final(self).spec_pool() == old(self).spec_pool(),
            final(self).spec_proposal() == old(self).spec_proposal(),
            final(self).spec_pending() == old(self).spec_pending(),
            final(self).spec_signers() == old(self).spec_signers(),
            ({
                let need = spec_signing_threshold(old(self).spec_active().len());
                let have = old(self).spec_signers().len();
                let key = old(self).spec_ledger().spec_federation_key();
                match r {
                    Ok(_) => {
                        &&& old(self).spec_phase() is Signing
                        &&& have >= need
                        &&& old(self).spec_pending() matches Some(p)
                        &&& spec_signature_verifies(key@, signature@, p.draft@.outcome.spec_digest())
                        &&& final(self).spec_phase() is Committing
                        &&& final(self).spec_fault() is None
                        &&& final(self).spec_signature() == Some(signature)
                        &&& final(self).spec_store_attempts() == 0
                    },
                    Err(RoundError::Halted { fault }) => {
                        &&& old(self).spec_phase() is Signing
                        &&& have >= need
                        &&& old(self).spec_pending() matches Some(p)
                        &&& !spec_signature_verifies(
                            key@,
                            signature@,
                            p.draft@.outcome.spec_digest(),
                        )
                        &&& fault == Fault::InvalidSignature
                        &&& final(self).spec_phase() is Halted
                        &&& final(self).spec_fault() == Some(fault)
                    },
                    Err(e) => {
                        &&& *final(self) == *old(self)
                        &&& e == if !(old(self).spec_phase() is Signing) {
                            RoundError::WrongPhase { phase: old(self).spec_phase() }
                        } else {
                            RoundError::QuorumNotReached {
                                have: have as usize,
                                need: need as usize,
                            }
                        }
                        &&& !(old(self).spec_phase() is Signing) || have < need
                    },
                }
            }),
    {
        match self.phase {
            Phase::Signing => {},
            _ => {
                return Err(RoundError::WrongPhase { phase: self.phase });
            },
        }
        let have = self.signers.len();
        let need = signing_threshold(self.active.len());
        if have < need {
            return Err(RoundError::QuorumNotReached { have, need });
        }
        let verifies = match &self.pending {
            Some(p) => signature_verifies(self.ledger.federation_key(), &signature, &p.digest),
            None => false,
        };
        if !verifies {
            let fault = Fault::InvalidSignature;
            self.phase = Phase::Halted;
            self.fault = Some(fault);
            return Err(RoundError::Halted { fault });
        }
        self.signature = Some(signature);
        self.store_attempts = 0;
        self.phase = Phase::Committing;
        Ok(())
    }

    /// The store has committed the epoch. The epoch joins the history, its
    /// transactions get their records and leave the pool, and the votes and
    /// the active set become what the round has worked out, all at once.
    /// Returns the number of the epoch.
    pub fn committed(&mut self) -> (r: Result<u64, RoundError>)
        requires
            old(self).wf(),
        ensures
            final(self).wf(),
            final(self).spec_phase() == old(self).spec_phase() || spec_may_follow(
                old(self).spec_phase(),
                final(self).spec_phase(),
            ),
            final(self).spec_max_store_attempts() == old(self).spec_max_store_attempts(),
            match r {
                Ok(epoch) => {
                    &&& old(self).spec_phase() is Committing
                    &&& old(self).spec_pending() matches Some(p)
                    &&& old(self).spec_signature() matches Some(signature)
                    &&& final(self).spec_phase() is Idle
                    &&& final(self).spec_fault() is None
                    &&& final(self).spec_pending() is None
                    &&& final(self).spec_signature() is None
                    &&& final(self).spec_proposal() == Seq::<Transaction>::empty()
                    &&& epoch == p.draft@.outcome.epoch_number
                    &&& epoch == old(self).spec_ledger().spec_next_epoch()
                    &&& ({
                        let before = old(self).spec_ledger();
                        let after = final(self).spec_ledger();
                        &&& after.spec_federation_key() == before.spec_federation_key()
                        &&& after.spec_client_config_signature()
                            == before.spec_client_config_signature()
                        &&& after.spec_history() == before.spec_history().push(
                            SignedEpochOutcomeView { outcome: p.draft@.outcome, signature },
                        )
                        &&& after.spec_accepted() == before.spec_accepted() + p.draft@.accepted
                        &&& after.spec_rejected() == before.spec_rejected() + p.draft@.rejected
                    })
                    &&& final(self).spec_active() == p.next_active@
                    &&& final(self).spec_drop_votes() == p.next_drops@
                    &&& final(self).spec_upgrade_votes() == p.next_upgrade@
                    &&& final(self).spec_upgrade_status() == p.next_upgrade.spec_status()
                    &&& spec_canonical_of(
                        final(self).spec_pool(),
                        old(self).spec_pool(),
                        |id: TransactionId| final(self).spec_ledger().spec_is_processed(id),
                    )
                },
                Err(e) => {
                    &&& *final(self) == *old(self)
                    &&& !(old(self).spec_phase() is Committing)
                    &&& e == (RoundError::WrongPhase { phase: old(self).spec_phase() })
                },
            },
    {
        match self.phase {
            Phase::Committing => {},
            _ => {
                return Err(RoundError::WrongPhase { phase: self.phase });
            },
        }
        let pending = self.pending.take().unwrap();
        let signature = self.signature.take().unwrap();
        let PendingEpoch { draft, next_active, next_drops, next_upgrade, .. } = pending;
        let EpochDraft { outcome, accepted, rejected } = draft;
        let epoch = outcome.epoch_number;
        let signed = SignedEpochOutcome { outcome, signature };
        let committed = self.ledger.commit_epoch(signed, accepted, rejected);
        assert(committed == Ok::<CommitStatus, CommitError>(CommitStatus::Committed));
        let mut waiting: Vec<Transaction> = Vec::new();
        core::mem::swap(&mut waiting, &mut self.pool);
        self.pool = canonicalize(waiting, &self.ledger);
        self.active = next_active;
        self.drops = next_drops;
        self.upgrade = next_upgrade;
        self.proposal = Vec::new();
        self.signers = PeerSet::new();
        self.store_attempts = 0;
        self.phase = Phase::Idle;
        Ok(epoch)
    }

    /// The store has failed to commit the epoch. A transient failure is
    /// tried again until the attempts are used up; any other failure, and
    /// the last transient one, halts the sequencer. Returns the number of
    /// failed attempts so far where the store is to be tried again.
    pub fn commit_failed(&mut self, transient: bool) -> (r: Result<u32, RoundError>)
        requires
            old(self).wf(),
        ensures
            final(self).wf(),
            final(self).spec_phase() == old(self).spec_phase() || spec_may_follow(
                old(self).spec_phase(),
                final(self).spec_phase(),
            ),
            final(self).spec_same_committed(old(self)),
            final(self).spec_pool() == old(self).spec_pool(),
            final(self).spec_proposal() == old(self).spec_proposal(),
            final(self).spec_pending() == old(self).spec_pending(),
            final(self).spec_signature() == old(self).spec_signature(),
            final(self).spec_signers() == old(self).spec_signers(),
            match r {
                Ok(attempts) => {
                    &&& old(self).spec_phase() is Committing
                    &&& transient
                    &&& attempts == old(self).spec_store_attempts() + 1
                    &&& attempts < old(self).spec_max_store_attempts()
                    &&& final(self).spec_phase() is Committing
                    &&& final(self).spec_fault() is None
                    &&& final(self).spec_store_attempts() == attempts
                },
                Err(RoundError::Halted { fault }) => {
                    &&& old(self).spec_phase() is Committing
                    &&& !(transient && old(self).spec_store_attempts() + 1 < old(self).spec_max_store_attempts())
                    &&& fault == (Fault::StoreFailure {
                        attempts: if old(self).spec_store_attempts() < u32::MAX {
                            (old(self).spec_store_attempts() + 1) as u32
                        } else {
                            u32::MAX
                        },
                    })
                    &&& final(self).spec_phase() is Halted
                    &&& final(self).spec_fault() == Some(fault)
                },
                Err(e) => {
                    &&& *final(self) == *old(self)
                    &&& !(old(self).spec_phase() is Committing)
                    &&& e == (RoundError::WrongPhase { phase: old(self).spec_phase() })
                },
            },
    {
        match self.phase {
            Phase::Committing => {},
            _ => {
                return Err(RoundError::WrongPhase { phase: self.phase });
            },
        }
        let attempts: u32 = if self.store_attempts < u32::MAX {
            self.store_attempts + 1
        } else {
            u32::MAX
        };
        if transient && self.store_attempts < u32::MAX && attempts < self.max_store_attempts {
            self.store_attempts = attempts;
            Ok(attempts)
        } else {
            let fault = Fault::StoreFailure { attempts };
            self.phase = Phase::Halted;
            self.fault = Some(fault);
            Err(RoundError::Halted { fault })
        }
    }

    /// Abandons the open round and forgets all it has produced. What has
    /// been committed stays as it is. Returns whether a round was open.
    pub fn abandon(&mut self) -> (was_open: bool)
        requires
            old(self).wf(),
        ensures
            final(self).wf(),
            final(self).spec_phase() == old(self).spec_phase() || spec_may_follow(
                old(self).spec_phase(),
                final(self).spec_phase(),
            ),
            final(self).spec_same_committed(old(self)),
            final(self).spec_pool() == old(self).spec_pool(),
            final(self).spec_fault() == old(self).spec_fault(),
            was_open == !(old(self).spec_phase() is Idle || old(self).spec_phase() is Halted),
            was_open ==> {
                &&& final(self).spec_phase() is Idle
                &&& final(self).spec_proposal() == Seq::<Transaction>::empty()
                &&& final(self).spec_pending() is None
                &&& final(self).spec_signature() is None
                &&& final(self).spec_signers() == Set::<PeerId>::empty()
                &&& final(self).spec_store_attempts() == 0
            },
            !was_open ==> *final(self) == *old(self),
    {
        match self.phase {
            Phase::Idle => false,
            Phase::Halted => false,
            _ => {
                self.proposal = Vec::new();
                self.pending = None;
                self.signature = None;
                self.signers = PeerSet::new();
                self.store_attempts = 0;
                self.phase = Phase::Idle;
                true
            },
        }
    }

    /// The schema migration has been completed. It is taken between rounds
    /// only. Returns whether a migration was due.
    pub fn migration_completed(&mut self) -> (r: Result<bool, RoundError>)
        requires
            old(self).wf(),
        ensures
            final(self).wf(),
            final(self).spec_phase() == old(self).spec_phase() || spec_may_follow(
                old(self).spec_phase(),
                final(self).spec_phase(),
            ),
            final(self).spec_ledger() == old(self).spec_ledger(),
            final(self).spec_active() == old(self).spec_active(),
            final(self).spec_drop_votes() == old(self).spec_drop_votes(),
            final(self).spec_upgrade_votes() == old(self).spec_upgrade_votes(),
            final(self).spec_max_store_attempts() == old(self).spec_max_store_attempts(),
            final(self).spec_pool() == old(self).spec_pool(),
            final(self).spec_same_round(old(self)),
            match r {
                Ok(was_due) => {
                    &&& old(self).spec_phase() is Idle
                    &&& match old(self).spec_upgrade_status() {
                        UpgradeStatus::Scheduled { epoch } => was_due
                            && final(self).spec_upgrade_status() == (UpgradeStatus::Completed {
                            epoch,
                        }),
                        _ => !was_due && final(self).spec_upgrade_status() == old(self).spec_upgrade_status(),
                    }
                },
                Err(e) => {
                    &&& *final(self) == *old(self)
                    &&& !(old(self).spec_phase() is Idle)
                    &&& e == (RoundError::WrongPhase { phase: old(self).spec_phase() })
                },
            },
    {
        match self.phase {
            Phase::Idle => Ok(self.upgrade.migration_completed()),
            _ => Err(RoundError::WrongPhase { phase: self.phase }),
        }
    }
}

fn copy_transactions(list: &Vec<Transaction>) -> (out: Vec<Transaction>)
    ensures
        spec_same_transactions(out@, list@),
{
    let mut out: Vec<Transaction> = Vec::new();
    let mut i: usize = 0;
    while i < list.len()
        invariant
            i <= list@.len(),
            out@.len() == i,
            forall|k: int|
                0 <= k < i ==> (#[trigger] out@[k]).spec_id() == list@[k].spec_id()
                    && out@[k].spec_payload() == list@[k].spec_payload(),
        decreases list@.len() - i,
    {
        out.push(list[i].clone());
        i += 1;
    }
    out
}

fn same_digest(a: &[u8; 32], b: &[u8; 32]) -> (eq: bool)
    ensures
        eq == (*a == *b),
{
    let mut i: usize = 0;
    while i < 32
        invariant
            i <= 32,
            forall|j: int| 0 <= j < i ==> a@[j] == b@[j],
        decreases 32 - i,
    {
        if a[i] != b[i] {
            return false;
        }
        i += 1;
    }
    assert(a@ =~= b@);
    assert(*a =~= *b);
    true
}

/// Nothing leaves `Halted`: a phase that is `Halted` stays so under every
/// step that the transition table allows.
pub proof fn lemma_halted_is_final(before: Phase, after: Phase)
    requires
        before is Halted,
        after == before || spec_may_follow(before, after),
    ensures
        after is Halted,
{
}

/// A round reaches `Committing` only through `Proposing`, `Agreeing` and
/// `Signing`, in this order: each phase of an open round has exactly one
/// phase from which it is entered.
pub proof fn lemma_phases_in_order(before: Phase, after: Phase)
    requires
        spec_may_follow(before, after),
    ensures
        after is Proposing ==> before is Idle,
        after is Agreeing ==> before is Proposing,
        after is Signing ==> before is Agreeing,
        after is Committing ==> before is Signing,
{
}

} // verus!
