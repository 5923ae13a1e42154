use fedimint_server::drop_peer::{DropPeerTracker, DropVote};
use fedimint_server::ledger::Ledger;
use fedimint_server::peers::{PeerId, PeerSet};
use fedimint_server::round::{AgreedItem, Verdict};
use fedimint_server::sequencer::{
    Fault, Phase, RoundError, Sequencer, SigningProgress, Submission,
};
use fedimint_server::transaction::{Transaction, TransactionId};
use fedimint_server::upgrade::{ConsensusUpgradeTracker, UpgradeStatus};
use fedimint_threshold_crypto::{SecretKeySet, SignatureShare};

struct Federation {
    keys: SecretKeySet,
}

impl Federation {
    fn of_four() -> Federation {
        Federation { keys: SecretKeySet::random(2, &mut rand::thread_rng()) }
    }

    fn key(&self) -> [u8; 48] {
        self.keys.public_keys().public_key().to_bytes()
    }

    fn combine(&self, signers: &[usize], digest: &[u8; 32]) -> [u8; 96] {
        let shares: Vec<(usize, SignatureShare)> = signers
            .iter()
            .map(|i| (*i, self.keys.secret_key_share(*i).sign(digest)))
            .collect();
        self.keys
            .public_keys()
            .combine_signatures(shares.iter().map(|(i, s)| (*i, s)))
            .unwrap()
            .to_bytes()
    }

    fn sequencer(&self, peers: u16, attempts: u32) -> Sequencer {
        Sequencer::new(
            Ledger::new(self.key()),
            PeerSet::first(peers),
            DropPeerTracker::new(),
            ConsensusUpgradeTracker::new(),
            attempts,
        )
    }
}

fn tx(payload: &[u8]) -> Transaction {
    Transaction::new(payload.to_vec())
}

fn id_of(payload: &[u8]) -> TransactionId {
    tx(payload).id()
}

fn accept(payload: &[u8]) -> AgreedItem {
    AgreedItem { transaction: tx(payload), verdict: Verdict::Accept }
}

fn reject(payload: &[u8], reason: &str) -> AgreedItem {
    AgreedItem { transaction: tx(payload), verdict: Verdict::Reject { reason: reason.to_string() } }
}

fn vote(voter: u16, target: u16) -> DropVote {
    DropVote { voter: PeerId(voter), target: PeerId(target) }
}

fn to_signing(
    seq: &mut Sequencer,
    items: Vec<AgreedItem>,
    votes: Vec<DropVote>,
    signals: Vec<PeerId>,
) -> [u8; 32] {
    for item in items.iter() {
        seq.submit(item.transaction.clone());
    }
    seq.begin_round().unwrap();
    seq.proposal_submitted().unwrap();
    seq.agreed(items, votes, signals).unwrap()
}

fn round(
    seq: &mut Sequencer,
    fed: &Federation,
    items: Vec<AgreedItem>,
    votes: Vec<DropVote>,
    signals: Vec<PeerId>,
) -> u64 {
    let digest = to_signing(seq, items, votes, signals);
    let need = seq.signatures_needed();
    for p in seq.active().to_vec().into_iter().take(need) {
        seq.partial_signature(p, digest, true).unwrap();
    }
    seq.combined(fed.combine(&[0, 1, 2], &digest)).unwrap();
    seq.committed().unwrap()
}

#[test]
fn a_round_passes_through_all_phases() {
    let fed = Federation::of_four();
    let mut seq = fed.sequencer(4, 3);
    assert_eq!(seq.phase(), Phase::Idle);

    assert_eq!(seq.submit(tx(b"b")), Submission::Queued);
    assert_eq!(seq.submit(tx(b"a")), Submission::Queued);
    assert_eq!(seq.submit(tx(b"b")), Submission::AlreadyQueued);
    assert_eq!(seq.pool().len(), 2);
    assert_eq!(seq.begin_round(), Ok(0));
    assert_eq!(seq.phase(), Phase::Proposing);
    assert_eq!(seq.proposal().len(), 2);
    assert!(seq.proposal()[0].id().before(&seq.proposal()[1].id()));

    assert_eq!(seq.proposal_submitted(), Ok(()));
    assert_eq!(seq.phase(), Phase::Agreeing);

    let digest = seq.agreed(vec![accept(b"b"), reject(b"c", "unbalanced"), accept(b"a")], vec![], vec![]).unwrap();
    assert_eq!(seq.phase(), Phase::Signing);
    let pending = seq.pending().unwrap();
    assert_eq!(pending.digest, digest);
    assert_eq!(pending.draft.outcome.digest(), digest);
    assert_eq!(pending.draft.outcome.epoch_number, 0);
    assert_eq!(pending.draft.outcome.previous_hash, None);
    assert_eq!(pending.draft.outcome.accepted.len(), 2);
    assert_eq!(pending.draft.outcome.rejected, vec![id_of(b"c")]);
    assert!(pending.draft.outcome.is_canonical());
    assert_eq!(pending.draft.rejected[0].reason, "unbalanced");

    assert_eq!(seq.signatures_needed(), 3);
    assert_eq!(
        seq.partial_signature(PeerId(0), digest, true),
        Ok(SigningProgress::Collected { have: 1, need: 3 })
    );
    assert_eq!(
        seq.partial_signature(PeerId(0), digest, true),
        Ok(SigningProgress::Collected { have: 1, need: 3 })
    );
    assert_eq!(
        seq.partial_signature(PeerId(2), digest, true),
        Ok(SigningProgress::Collected { have: 2, need: 3 })
    );
    assert_eq!(
        seq.partial_signature(PeerId(3), digest, true),
        Ok(SigningProgress::QuorumReached { have: 3 })
    );

    let signature = fed.combine(&[0, 2, 3], &digest);
    assert_eq!(seq.combined(signature), Ok(()));
    assert_eq!(seq.phase(), Phase::Committing);
    assert_eq!(seq.signature(), Some(signature));
    assert_eq!(seq.ledger().last_epoch(), None);

    assert_eq!(seq.committed(), Ok(0));
    assert_eq!(seq.phase(), Phase::Idle);
    assert!(seq.pending().is_none());
    assert_eq!(seq.signature(), None);
    assert!(seq.proposal().is_empty());
    assert_eq!(seq.ledger().last_epoch(), Some(0));
    assert_eq!(seq.ledger().latest().unwrap().hash(), digest);
    assert!(seq.ledger().latest().unwrap().verify_first(&fed.key()));
    assert_eq!(seq.ledger().accepted_transaction(&id_of(b"a")).unwrap().epoch, 0);
    assert_eq!(seq.ledger().rejected_transaction(&id_of(b"c")).unwrap().reason, "unbalanced");
}

#[test]
fn epochs_follow_each_other_in_a_verified_chain() {
    let fed = Federation::of_four();
    let mut seq = fed.sequencer(4, 1);
    for n in 0..4u64 {
        let payload = vec![n as u8];
        assert_eq!(round(&mut seq, &fed, vec![accept(&payload)], vec![], vec![]), n);
    }
    let ledger = seq.ledger();
    assert_eq!(ledger.last_epoch(), Some(3));
    for n in 1..4u64 {
        assert!(ledger.epoch(n).unwrap().verify(ledger.epoch(n - 1).unwrap(), &fed.key()));
    }
}

#[test]
fn peer_three_is_excluded_before_epoch_ten() {
    let fed = Federation::of_four();
    let mut seq = fed.sequencer(4, 1);
    for n in 0..8u64 {
        assert_eq!(round(&mut seq, &fed, vec![], vec![], vec![]), n);
    }
    assert_eq!(round(&mut seq, &fed, vec![], vec![vote(0, 3)], vec![]), 8);
    assert_eq!(seq.drops().tally(PeerId(3)), 1);
    assert!(seq.active().contains(PeerId(3)));
    assert_eq!(seq.signatures_needed(), 3);

    let digest = to_signing(&mut seq, vec![], vec![vote(1, 3), vote(0, 3)], vec![]);
    assert_eq!(seq.pending().unwrap().excluded, vec![PeerId(3)]);
    assert!(seq.active().contains(PeerId(3)));
    for p in [0u16, 1, 3] {
        seq.partial_signature(PeerId(p), digest, true).unwrap();
    }
    seq.combined(fed.combine(&[0, 1, 3], &digest)).unwrap();
    assert_eq!(seq.committed(), Ok(9));

    assert_eq!(seq.drops().tally(PeerId(3)), 2);
    assert!(!seq.active().contains(PeerId(3)));
    assert_eq!(seq.active().len(), 3);
    for p in 0..3u16 {
        assert!(seq.active().contains(PeerId(p)));
    }
    assert_eq!(seq.signatures_needed(), 1);

    let digest = to_signing(&mut seq, vec![accept(b"ten")], vec![], vec![]);
    assert_eq!(seq.pending().unwrap().draft.outcome.epoch_number, 10);
    assert_eq!(seq.partial_signature(PeerId(3), digest, true), Ok(SigningProgress::Ignored));
    assert_eq!(
        seq.partial_signature(PeerId(1), digest, true),
        Ok(SigningProgress::QuorumReached { have: 1 })
    );
    seq.combined(fed.combine(&[0, 1, 2], &digest)).unwrap();
    assert_eq!(seq.committed(), Ok(10));
    assert_eq!(seq.ledger().last_epoch(), Some(10));
}

#[test]
fn calls_out_of_turn_change_nothing() {
    let fed = Federation::of_four();
    let mut seq = fed.sequencer(4, 1);
    let idle = RoundError::WrongPhase { phase: Phase::Idle };
    assert_eq!(seq.proposal_submitted(), Err(idle));
    assert_eq!(seq.agreed(vec![], vec![], vec![]), Err(idle));
    assert_eq!(seq.partial_signature(PeerId(0), [0; 32], true), Err(idle));
    assert_eq!(seq.combined([0; 96]), Err(idle));
    assert_eq!(seq.committed(), Err(idle));
    assert_eq!(seq.commit_failed(true), Err(idle));
    assert_eq!(seq.phase(), Phase::Idle);

    seq.begin_round().unwrap();
    let proposing = RoundError::WrongPhase { phase: Phase::Proposing };
    assert_eq!(seq.begin_round(), Err(proposing));
    assert_eq!(seq.agreed(vec![], vec![], vec![]), Err(proposing));
    assert_eq!(seq.committed(), Err(proposing));
    assert_eq!(seq.migration_completed(), Err(proposing));
    assert_eq!(seq.phase(), Phase::Proposing);

    seq.proposal_submitted().unwrap();
    let agreeing = RoundError::WrongPhase { phase: Phase::Agreeing };
    assert_eq!(seq.proposal_submitted(), Err(agreeing));
    assert_eq!(seq.combined([0; 96]), Err(agreeing));

    seq.agreed(vec![], vec![], vec![]).unwrap();
    let signing = RoundError::WrongPhase { phase: Phase::Signing };
    assert_eq!(seq.begin_round(), Err(signing));
    assert_eq!(seq.committed(), Err(signing));
    assert_eq!(seq.commit_failed(false), Err(signing));
    assert_eq!(seq.phase(), Phase::Signing);
}

#[test]
fn a_signature_is_not_taken_before_the_quorum() {
    let fed = Federation::of_four();
    let mut seq = fed.sequencer(4, 1);
    let digest = to_signing(&mut seq, vec![], vec![], vec![]);
    seq.partial_signature(PeerId(0), digest, true).unwrap();
    seq.partial_signature(PeerId(1), digest, true).unwrap();
    let signature = fed.combine(&[0, 1, 2], &digest);
    assert_eq!(seq.combined(signature), Err(RoundError::QuorumNotReached { have: 2, need: 3 }));
    assert_eq!(seq.phase(), Phase::Signing);
    seq.partial_signature(PeerId(2), digest, true).unwrap();
    assert_eq!(seq.combined(signature), Ok(()));
}

#[test]
fn an_invalid_partial_signature_is_not_counted() {
    let fed = Federation::of_four();
    let mut seq = fed.sequencer(4, 1);
    let digest = to_signing(&mut seq, vec![], vec![], vec![]);
    assert_eq!(seq.partial_signature(PeerId(0), digest, false), Ok(SigningProgress::Invalid));
    assert_eq!(seq.partial_signature(PeerId(0), [9; 32], false), Ok(SigningProgress::Invalid));
    assert_eq!(seq.partial_signature(PeerId(9), digest, true), Ok(SigningProgress::Ignored));
    assert_eq!(seq.partial_signature(PeerId(9), [9; 32], true), Ok(SigningProgress::Ignored));
    assert_eq!(
        seq.partial_signature(PeerId(0), digest, true),
        Ok(SigningProgress::Collected { have: 1, need: 3 })
    );
    assert_eq!(seq.phase(), Phase::Signing);
}

#[test]
fn a_different_digest_halts_the_sequencer() {
    let fed = Federation::of_four();
    let mut seq = fed.sequencer(4, 1);
    let digest = to_signing(&mut seq, vec![accept(b"a")], vec![], vec![]);
    let mut other = digest;
    other[0] ^= 1;
    let fault = Fault::DigestMismatch { peer: PeerId(2) };
    assert_eq!(seq.partial_signature(PeerId(2), other, true), Err(RoundError::Halted { fault }));
    assert_eq!(seq.phase(), Phase::Halted);
    assert_eq!(seq.fault(), Some(fault));
    assert_eq!(seq.ledger().last_epoch(), None);
}

#[test]
fn a_combined_signature_that_does_not_verify_halts_the_sequencer() {
    let fed = Federation::of_four();
    let stranger = Federation::of_four();
    let mut seq = fed.sequencer(4, 1);
    let digest = to_signing(&mut seq, vec![], vec![], vec![]);
    for p in 0..3u16 {
        seq.partial_signature(PeerId(p), digest, true).unwrap();
    }
    let forged = stranger.combine(&[0, 1, 2], &digest);
    let fault = Fault::InvalidSignature;
    assert_eq!(seq.combined(forged), Err(RoundError::Halted { fault }));
    assert_eq!(seq.phase(), Phase::Halted);
    assert_eq!(seq.fault(), Some(fault));
    assert_eq!(seq.signature(), None);
}

#[test]
fn nothing_leaves_the_halted_state() {
    let fed = Federation::of_four();
    let mut seq = fed.sequencer(4, 1);
    let digest = to_signing(&mut seq, vec![], vec![], vec![]);
    let mut other = digest;
    other[31] ^= 0x80;
    seq.partial_signature(PeerId(0), other, true).unwrap_err();
    let halted = RoundError::WrongPhase { phase: Phase::Halted };
    assert_eq!(seq.begin_round(), Err(halted));
    assert_eq!(seq.proposal_submitted(), Err(halted));
    assert_eq!(seq.agreed(vec![], vec![], vec![]), Err(halted));
    assert_eq!(seq.partial_signature(PeerId(0), digest, true), Err(halted));
    assert_eq!(seq.combined([0; 96]), Err(halted));
    assert_eq!(seq.committed(), Err(halted));
    assert_eq!(seq.commit_failed(true), Err(halted));
    assert_eq!(seq.migration_completed(), Err(halted));
    assert!(!seq.abandon());
    assert_eq!(seq.phase(), Phase::Halted);
    assert_eq!(seq.fault(), Some(Fault::DigestMismatch { peer: PeerId(0) }));
}

#[test]
fn transient_store_failures_are_retried_up_to_the_limit() {
    let fed = Federation::of_four();
    let mut seq = fed.sequencer(4, 3);
    let digest = to_signing(&mut seq, vec![accept(b"a")], vec![], vec![]);
    for p in 0..3u16 {
        seq.partial_signature(PeerId(p), digest, true).unwrap();
    }
    seq.combined(fed.combine(&[0, 1, 2], &digest)).unwrap();
    assert_eq!(seq.commit_failed(true), Ok(1));
    assert_eq!(seq.commit_failed(true), Ok(2));
    assert_eq!(seq.phase(), Phase::Committing);
    let fault = Fault::StoreFailure { attempts: 3 };
    assert_eq!(seq.commit_failed(true), Err(RoundError::Halted { fault }));
    assert_eq!(seq.phase(), Phase::Halted);
    assert_eq!(seq.ledger().last_epoch(), None);
}

#[test]
fn a_store_failure_after_a_retry_still_commits() {
    let fed = Federation::of_four();
    let mut seq = fed.sequencer(4, 2);
    let digest = to_signing(&mut seq, vec![accept(b"a")], vec![], vec![]);
    for p in 1..4u16 {
        seq.partial_signature(PeerId(p), digest, true).unwrap();
    }
    seq.combined(fed.combine(&[1, 2, 3], &digest)).unwrap();
    assert_eq!(seq.commit_failed(true), Ok(1));
    assert_eq!(seq.committed(), Ok(0));
    assert_eq!(seq.ledger().last_epoch(), Some(0));
}

#[test]
fn a_permanent_store_failure_halts_at_once() {
    let fed = Federation::of_four();
    let mut seq = fed.sequencer(4, 5);
    let digest = to_signing(&mut seq, vec![], vec![], vec![]);
    for p in 0..3u16 {
        seq.partial_signature(PeerId(p), digest, true).unwrap();
    }
    seq.combined(fed.combine(&[0, 1, 2], &digest)).unwrap();
    let fault = Fault::StoreFailure { attempts: 1 };
    assert_eq!(seq.commit_failed(false), Err(RoundError::Halted { fault }));
}

#[test]
fn an_abandoned_round_leaves_no_trace() {
    let fed = Federation::of_four();
    let mut seq = fed.sequencer(4, 1);
    assert!(!seq.abandon());
    round(&mut seq, &fed, vec![accept(b"kept")], vec![], vec![]);

    let digest = to_signing(&mut seq, vec![accept(b"lost")], vec![vote(0, 3), vote(1, 3)], vec![PeerId(0)]);
    for p in 0..3u16 {
        seq.partial_signature(PeerId(p), digest, true).unwrap();
    }
    seq.combined(fed.combine(&[0, 1, 2], &digest)).unwrap();
    assert!(seq.abandon());

    assert_eq!(seq.phase(), Phase::Idle);
    assert!(seq.pending().is_none());
    assert_eq!(seq.signature(), None);
    assert_eq!(seq.ledger().last_epoch(), Some(0));
    assert!(!seq.ledger().is_processed(&id_of(b"lost")));
    assert_eq!(seq.active().len(), 4);
    assert_eq!(seq.drops().tally(PeerId(3)), 0);
    assert!(!seq.upgrade().has_signalled(PeerId(0)));
    assert_eq!(seq.submit(tx(b"lost")), Submission::AlreadyQueued);
    assert_eq!(seq.begin_round(), Ok(1));
    assert_eq!(seq.proposal().len(), 1);
    assert_eq!(seq.proposal()[0].id(), id_of(b"lost"));
}

#[test]
fn a_processed_transaction_does_not_enter_a_round_again() {
    let fed = Federation::of_four();
    let mut seq = fed.sequencer(4, 1);
    round(&mut seq, &fed, vec![accept(b"a"), reject(b"r", "no")], vec![], vec![]);
    assert_eq!(seq.submit(tx(b"a")), Submission::AlreadyAccepted { epoch: 0 });
    assert_eq!(seq.submit(tx(b"r")), Submission::AlreadyRejected);
    assert_eq!(seq.submit(tx(b"b")), Submission::Queued);
    assert_eq!(seq.submit(tx(b"a")), Submission::AlreadyAccepted { epoch: 0 });
    assert_eq!(seq.pool().len(), 1);
    assert_eq!(seq.begin_round(), Ok(1));
    assert_eq!(seq.proposal().len(), 1);
    assert_eq!(seq.proposal()[0].id(), id_of(b"b"));
    seq.proposal_submitted().unwrap();
    seq.agreed(vec![accept(b"a"), accept(b"r"), accept(b"b")], vec![], vec![]).unwrap();
    let pending = seq.pending().unwrap();
    assert_eq!(pending.draft.outcome.accepted, vec![id_of(b"b")]);
    assert!(pending.draft.outcome.rejected.is_empty());
    assert_eq!(pending.draft.accepted.len(), 1);
    assert_eq!(pending.draft.accepted[0].epoch, 1);
    assert_eq!(pending.draft.accepted[0].position, 0);
}

#[test]
fn votes_that_would_leave_nobody_halt_the_round() {
    let fed = Federation::of_four();
    let mut seq = Sequencer::new(
        Ledger::new(fed.key()),
        PeerSet::first(2),
        DropPeerTracker::new(),
        ConsensusUpgradeTracker::new(),
        1,
    );
    seq.begin_round().unwrap();
    seq.proposal_submitted().unwrap();
    let fault = Fault::UnsafeExclusion { remaining: 0 };
    assert_eq!(
        seq.agreed(vec![accept(b"a")], vec![vote(0, 1), vote(1, 0)], vec![]),
        Err(RoundError::Halted { fault })
    );
    assert_eq!(seq.phase(), Phase::Halted);
    assert_eq!(seq.fault(), Some(fault));
    assert_eq!(seq.active().len(), 2);
    assert_eq!(seq.drops().tally(PeerId(0)), 0);
    assert!(seq.pending().is_none());
}

#[test]
fn the_upgrade_waits_for_all_and_blocks_until_migrated() {
    let fed = Federation::of_four();
    let mut seq = fed.sequencer(4, 1);
    round(&mut seq, &fed, vec![], vec![], vec![PeerId(0), PeerId(1)]);
    assert_eq!(seq.upgrade().status(), UpgradeStatus::Collecting);
    round(&mut seq, &fed, vec![], vec![], vec![PeerId(2)]);
    assert_eq!(seq.upgrade().status(), UpgradeStatus::Collecting);
    assert_eq!(seq.migration_completed(), Ok(false));

    let digest = to_signing(&mut seq, vec![], vec![], vec![PeerId(3), PeerId(0)]);
    assert_eq!(seq.pending().unwrap().upgrade_at, Some(3));
    assert_eq!(seq.upgrade().status(), UpgradeStatus::Collecting);
    for p in 0..3u16 {
        seq.partial_signature(PeerId(p), digest, true).unwrap();
    }
    seq.combined(fed.combine(&[0, 1, 2], &digest)).unwrap();
    assert_eq!(seq.committed(), Ok(2));
    assert_eq!(seq.upgrade().status(), UpgradeStatus::Scheduled { epoch: 3 });

    assert_eq!(seq.begin_round(), Err(RoundError::MigrationPending { epoch: 3 }));
    assert_eq!(seq.phase(), Phase::Idle);
    assert_eq!(seq.migration_completed(), Ok(true));
    assert_eq!(seq.upgrade().status(), UpgradeStatus::Completed { epoch: 3 });
    assert!(seq.upgrade().new_version_at(3));
    assert!(!seq.upgrade().new_version_at(2));

    assert_eq!(round(&mut seq, &fed, vec![], vec![], vec![PeerId(1)]), 3);
    assert_eq!(seq.upgrade().status(), UpgradeStatus::Completed { epoch: 3 });
    assert_eq!(seq.migration_completed(), Ok(false));
}

#[test]
fn exclusion_and_unanimity_are_judged_on_the_new_active_set() {
    let fed = Federation::of_four();
    let mut seq = fed.sequencer(4, 1);
    round(&mut seq, &fed, vec![], vec![], vec![PeerId(0), PeerId(1), PeerId(2)]);
    assert_eq!(seq.upgrade().status(), UpgradeStatus::Collecting);
    round(&mut seq, &fed, vec![], vec![vote(0, 3), vote(2, 3)], vec![]);
    assert!(!seq.active().contains(PeerId(3)));
    assert_eq!(seq.upgrade().status(), UpgradeStatus::Scheduled { epoch: 2 });
}

#[test]
fn a_restarted_sequencer_resumes_after_the_last_epoch() {
    let fed = Federation::of_four();
    let mut seq = fed.sequencer(4, 1);
    for n in 0..3u64 {
        let payload = vec![n as u8];
        round(&mut seq, &fed, vec![accept(&payload)], vec![], vec![]);
    }

    let mut restored = Ledger::new(fed.key());
    for n in 0..3u64 {
        let signed = seq.ledger().epoch(n).unwrap().clone();
        let id = signed.outcome.accepted[0];
        let record = seq.ledger().accepted_transaction(&id).unwrap();
        let copy = fedimint_server::ledger::AcceptedTransaction {
            transaction: record.transaction.clone(),
            epoch: record.epoch,
            position: record.position,
        };
        restored.commit_epoch(signed, vec![copy], vec![]).unwrap();
    }
    let mut again = Sequencer::new(
        restored,
        PeerSet::first(4),
        DropPeerTracker::new(),
        ConsensusUpgradeTracker::new(),
        1,
    );
    assert_eq!(again.submit(tx(&[0])), Submission::AlreadyAccepted { epoch: 0 });
    assert_eq!(again.submit(tx(&[7])), Submission::Queued);
    assert_eq!(again.begin_round(), Ok(3));
    assert_eq!(again.proposal().len(), 1);
    assert_eq!(again.proposal()[0].id(), id_of(&[7]));
}

#[test]
fn committed_transactions_leave_the_pool() {
    let fed = Federation::of_four();
    let mut seq = fed.sequencer(4, 1);
    assert_eq!(seq.submit(tx(b"later")), Submission::Queued);
    let digest = to_signing(&mut seq, vec![accept(b"now")], vec![], vec![]);
    assert_eq!(seq.proposal().len(), 2);
    assert_eq!(seq.submit(tx(b"during")), Submission::Queued);
    assert_eq!(seq.proposal().len(), 2);
    for p in 0..3u16 {
        seq.partial_signature(PeerId(p), digest, true).unwrap();
    }
    seq.combined(fed.combine(&[0, 1, 2], &digest)).unwrap();
    assert_eq!(seq.pool().len(), 3);
    assert_eq!(seq.committed(), Ok(0));
    assert_eq!(seq.pool().len(), 2);
    assert_eq!(seq.submit(tx(b"now")), Submission::AlreadyAccepted { epoch: 0 });
    assert_eq!(seq.begin_round(), Ok(1));
    let mut expected = vec![id_of(b"later"), id_of(b"during")];
    expected.sort_by_key(|id| id.0);
    let pool: Vec<TransactionId> = seq.pool().iter().map(|t| t.id()).collect();
    let proposal: Vec<TransactionId> = seq.proposal().iter().map(|t| t.id()).collect();
    assert_eq!(pool, expected);
    assert_eq!(proposal, expected);
}

#[test]
fn a_halted_sequencer_still_answers_for_processed_transactions() {
    let fed = Federation::of_four();
    let mut seq = fed.sequencer(4, 1);
    round(&mut seq, &fed, vec![accept(b"a")], vec![], vec![]);
    let digest = to_signing(&mut seq, vec![], vec![], vec![]);
    let mut other = digest;
    other[5] ^= 4;
    seq.partial_signature(PeerId(1), other, true).unwrap_err();
    assert_eq!(seq.phase(), Phase::Halted);
    assert_eq!(seq.submit(tx(b"a")), Submission::AlreadyAccepted { epoch: 0 });
    assert_eq!(seq.phase(), Phase::Halted);
}

#[test]
fn of_two_verdicts_for_one_transaction_the_last_counts() {
    let fed = Federation::of_four();
    let mut seq = fed.sequencer(4, 1);
    seq.begin_round().unwrap();
    seq.proposal_submitted().unwrap();
    seq.agreed(
        vec![accept(b"a"), reject(b"b", "first"), reject(b"a", "late"), accept(b"b")],
        vec![],
        vec![],
    )
    .unwrap();
    let pending = seq.pending().unwrap();
    assert_eq!(pending.draft.outcome.accepted, vec![id_of(b"b")]);
    assert_eq!(pending.draft.outcome.rejected, vec![id_of(b"a")]);
    assert_eq!(pending.draft.rejected[0].reason, "late");
}
