use fedimint_server::epoch::{EpochOutcome, SignedEpochOutcome};
use fedimint_server::ledger::{
    AcceptedTransaction, CommitError, CommitStatus, Ledger, RejectedTransaction,
};
use fedimint_server::transaction::{Transaction, TransactionId};
use fedimint_threshold_crypto::SecretKey;

struct Epoch {
    signed: SignedEpochOutcome,
    accepted: Vec<AcceptedTransaction>,
    rejected: Vec<RejectedTransaction>,
}

fn build(sk: &SecretKey, number: u64, previous: Option<[u8; 32]>, accept: &[&[u8]], reject: &[&[u8]]) -> Epoch {
    let mut txs: Vec<Transaction> = accept.iter().map(|p| Transaction::new(p.to_vec())).collect();
    txs.sort_by_key(|t| t.id().0);
    let mut rejected_ids: Vec<TransactionId> =
        reject.iter().map(|p| Transaction::new(p.to_vec()).id()).collect();
    rejected_ids.sort_by_key(|id| id.0);
    let outcome = EpochOutcome {
        epoch_number: number,
        previous_hash: previous,
        accepted: txs.iter().map(|t| t.id()).collect(),
        rejected: rejected_ids.clone(),
    };
    let signature = sk.sign(outcome.digest()).to_bytes();
    let mut accepted = Vec::new();
    for (i, transaction) in txs.into_iter().enumerate() {
        accepted.push(AcceptedTransaction { transaction, epoch: number, position: i as u64 });
    }
    let rejected = rejected_ids
        .into_iter()
        .map(|id| RejectedTransaction { id, reason: format!("rejected in {}", number) })
        .collect();
    Epoch { signed: SignedEpochOutcome { outcome, signature }, accepted, rejected }
}

fn next(sk: &SecretKey, ledger: &Ledger, accept: &[&[u8]], reject: &[&[u8]]) -> Epoch {
    build(sk, ledger.next_epoch(), ledger.latest().map(|s| s.hash()), accept, reject)
}

fn commit(ledger: &mut Ledger, e: Epoch) -> Result<CommitStatus, CommitError> {
    ledger.commit_epoch(e.signed, e.accepted, e.rejected)
}

fn fresh() -> (SecretKey, Ledger) {
    let sk = SecretKey::random();
    let ledger = Ledger::new(sk.public_key().to_bytes());
    (sk, ledger)
}

fn id_of(payload: &[u8]) -> TransactionId {
    Transaction::new(payload.to_vec()).id()
}

#[test]
fn a_new_ledger_is_empty() {
    let (sk, ledger) = fresh();
    assert_eq!(ledger.last_epoch(), None);
    assert_eq!(ledger.next_epoch(), 0);
    assert!(ledger.latest().is_none());
    assert!(ledger.epoch(0).is_none());
    assert_eq!(ledger.client_config_signature(), None);
    assert_eq!(ledger.federation_key(), &sk.public_key().to_bytes());
    assert!(!ledger.is_processed(&id_of(b"a")));
}

#[test]
fn history_keys_are_zero_to_last_without_gaps() {
    let (sk, mut ledger) = fresh();
    for n in 0..6u64 {
        let payload = vec![n as u8];
        let e = next(&sk, &ledger, &[&payload], &[]);
        assert_eq!(commit(&mut ledger, e), Ok(CommitStatus::Committed));
        assert_eq!(ledger.last_epoch(), Some(n));
        assert_eq!(ledger.next_epoch(), n + 1);
        for k in 0..=n {
            assert_eq!(ledger.epoch(k).unwrap().outcome.epoch_number, k);
        }
        assert!(ledger.epoch(n + 1).is_none());
        assert_eq!(ledger.latest().unwrap().outcome.epoch_number, n);
    }
}

#[test]
fn every_link_of_the_committed_history_verifies() {
    let (sk, mut ledger) = fresh();
    let key = sk.public_key().to_bytes();
    for n in 0..5u64 {
        let a = vec![n as u8, 1];
        let r = vec![n as u8, 2];
        let e = next(&sk, &ledger, &[&a], &[&r]);
        assert_eq!(commit(&mut ledger, e), Ok(CommitStatus::Committed));
    }
    assert!(ledger.epoch(0).unwrap().verify_first(&key));
    for n in 1..5u64 {
        assert!(ledger.epoch(n).unwrap().verify(ledger.epoch(n - 1).unwrap(), &key));
    }
}

#[test]
fn committed_transactions_get_their_records() {
    let (sk, mut ledger) = fresh();
    let e = next(&sk, &ledger, &[b"a", b"b"], &[b"c"]);
    let first_id = e.signed.outcome.accepted[0];
    let second_id = e.signed.outcome.accepted[1];
    assert_eq!(commit(&mut ledger, e), Ok(CommitStatus::Committed));

    let first = ledger.accepted_transaction(&first_id).unwrap();
    assert_eq!(first.transaction.id(), first_id);
    assert_eq!(first.epoch, 0);
    assert_eq!(first.position, 0);
    let second = ledger.accepted_transaction(&second_id).unwrap();
    assert_eq!(second.position, 1);
    let payloads = [first.transaction.payload().clone(), second.transaction.payload().clone()];
    assert!(payloads.contains(&b"a".to_vec()));
    assert!(payloads.contains(&b"b".to_vec()));

    let rejected = ledger.rejected_transaction(&id_of(b"c")).unwrap();
    assert_eq!(rejected.id, id_of(b"c"));
    assert_eq!(rejected.reason, "rejected in 0");
    assert!(ledger.accepted_transaction(&id_of(b"c")).is_none());
    assert!(ledger.rejected_transaction(&id_of(b"a")).is_none());
    assert!(ledger.is_processed(&id_of(b"a")));
    assert!(ledger.is_processed(&id_of(b"c")));
    assert!(!ledger.is_processed(&id_of(b"d")));
}

#[test]
fn no_transaction_is_both_accepted_and_rejected() {
    let (sk, mut ledger) = fresh();
    let e = next(&sk, &ledger, &[b"a"], &[b"b"]);
    assert_eq!(commit(&mut ledger, e), Ok(CommitStatus::Committed));

    let again_rejected = next(&sk, &ledger, &[b"x"], &[b"a"]);
    assert_eq!(commit(&mut ledger, again_rejected), Err(CommitError::AlreadyProcessed));
    let again_accepted = next(&sk, &ledger, &[b"b"], &[]);
    assert_eq!(commit(&mut ledger, again_accepted), Err(CommitError::AlreadyProcessed));
    let same_again = next(&sk, &ledger, &[b"a"], &[]);
    assert_eq!(commit(&mut ledger, same_again), Err(CommitError::AlreadyProcessed));

    assert_eq!(ledger.next_epoch(), 1);
    assert!(!ledger.is_processed(&id_of(b"x")));
    for p in [b"a", b"b"] {
        let id = id_of(p);
        let accepted = ledger.accepted_transaction(&id).is_some();
        let rejected = ledger.rejected_transaction(&id).is_some();
        assert!(accepted != rejected);
    }
}

#[test]
fn one_epoch_cannot_list_a_transaction_in_both_lists() {
    let (sk, mut ledger) = fresh();
    let mut e = build(&sk, 0, None, &[b"a"], &[]);
    let id = id_of(b"a");
    e.signed.outcome.rejected.push(id);
    e.signed.signature = sk.sign(e.signed.outcome.digest()).to_bytes();
    e.rejected.push(RejectedTransaction { id, reason: String::from("twice") });
    assert_eq!(commit(&mut ledger, e), Err(CommitError::NotCanonical));
    assert_eq!(ledger.next_epoch(), 0);
    assert!(!ledger.is_processed(&id));
}

#[test]
fn redelivery_of_a_committed_epoch_changes_nothing() {
    let (sk, mut ledger) = fresh();
    let first = build(&sk, 0, None, &[b"a"], &[b"r"]);
    let first_hash = first.signed.hash();
    assert_eq!(commit(&mut ledger, first), Ok(CommitStatus::Committed));
    let second = next(&sk, &ledger, &[b"b"], &[]);
    assert_eq!(commit(&mut ledger, second), Ok(CommitStatus::Committed));
    let latest_hash = ledger.latest().unwrap().hash();

    let redelivered = build(&sk, 0, None, &[b"a"], &[b"r"]);
    assert_eq!(commit(&mut ledger, redelivered), Ok(CommitStatus::AlreadyCommitted));
    let other_content = build(&sk, 1, Some(first_hash), &[b"z"], &[]);
    assert_eq!(commit(&mut ledger, other_content), Ok(CommitStatus::AlreadyCommitted));

    assert_eq!(ledger.next_epoch(), 2);
    assert_eq!(ledger.epoch(0).unwrap().hash(), first_hash);
    assert_eq!(ledger.latest().unwrap().hash(), latest_hash);
    assert!(!ledger.is_processed(&id_of(b"z")));
    assert_eq!(ledger.accepted_transaction(&id_of(b"a")).unwrap().epoch, 0);
    assert_eq!(ledger.accepted_transaction(&id_of(b"b")).unwrap().epoch, 1);
}

#[test]
fn an_epoch_beyond_the_next_is_a_gap() {
    let (sk, mut ledger) = fresh();
    let e = build(&sk, 1, None, &[], &[]);
    assert_eq!(commit(&mut ledger, e), Err(CommitError::Gap { expected: 0, found: 1 }));
    let e = next(&sk, &ledger, &[], &[]);
    let hash = e.signed.hash();
    assert_eq!(commit(&mut ledger, e), Ok(CommitStatus::Committed));
    let e = build(&sk, 3, Some(hash), &[], &[]);
    assert_eq!(commit(&mut ledger, e), Err(CommitError::Gap { expected: 1, found: 3 }));
    assert_eq!(ledger.next_epoch(), 1);
}

#[test]
fn an_epoch_that_does_not_name_the_last_breaks_the_chain() {
    let (sk, mut ledger) = fresh();
    let e = build(&sk, 0, Some([0; 32]), &[], &[]);
    assert_eq!(commit(&mut ledger, e), Err(CommitError::BrokenChain));
    let e = next(&sk, &ledger, &[], &[]);
    assert_eq!(commit(&mut ledger, e), Ok(CommitStatus::Committed));
    let e = build(&sk, 1, None, &[], &[]);
    assert_eq!(commit(&mut ledger, e), Err(CommitError::BrokenChain));
    let e = build(&sk, 1, Some([7; 32]), &[], &[]);
    assert_eq!(commit(&mut ledger, e), Err(CommitError::BrokenChain));
    assert_eq!(ledger.next_epoch(), 1);
}

#[test]
fn an_epoch_without_the_federation_signature_is_refused() {
    let (sk, mut ledger) = fresh();
    let other = SecretKey::random();
    let e = build(&other, 0, None, &[b"a"], &[]);
    assert_eq!(commit(&mut ledger, e), Err(CommitError::InvalidSignature));
    let mut e = build(&sk, 0, None, &[b"a"], &[]);
    e.signed.signature = [0; 96];
    assert_eq!(commit(&mut ledger, e), Err(CommitError::InvalidSignature));
    assert_eq!(ledger.next_epoch(), 0);
    assert!(!ledger.is_processed(&id_of(b"a")));
}

#[test]
fn lists_out_of_order_are_refused() {
    let (sk, mut ledger) = fresh();
    let mut e = build(&sk, 0, None, &[b"a", b"b"], &[]);
    e.signed.outcome.accepted.swap(0, 1);
    e.signed.signature = sk.sign(e.signed.outcome.digest()).to_bytes();
    assert_eq!(commit(&mut ledger, e), Err(CommitError::NotCanonical));
}

#[test]
fn records_that_do_not_match_the_outcome_are_refused() {
    let (sk, mut ledger) = fresh();
    let mut e = build(&sk, 0, None, &[b"a", b"b"], &[b"c"]);
    e.accepted.pop();
    assert_eq!(commit(&mut ledger, e), Err(CommitError::ContentMismatch));

    let mut e = build(&sk, 0, None, &[b"a"], &[b"c"]);
    e.accepted[0].epoch = 1;
    assert_eq!(commit(&mut ledger, e), Err(CommitError::ContentMismatch));

    let mut e = build(&sk, 0, None, &[b"a"], &[b"c"]);
    e.accepted[0].position = 1;
    assert_eq!(commit(&mut ledger, e), Err(CommitError::ContentMismatch));

    let mut e = build(&sk, 0, None, &[b"a"], &[b"c"]);
    e.accepted[0].transaction = Transaction::new(b"other".to_vec());
    assert_eq!(commit(&mut ledger, e), Err(CommitError::ContentMismatch));

    let mut e = build(&sk, 0, None, &[b"a"], &[b"c"]);
    e.rejected[0].id = id_of(b"other");
    assert_eq!(commit(&mut ledger, e), Err(CommitError::ContentMismatch));

    let mut e = build(&sk, 0, None, &[b"a"], &[b"c"]);
    e.rejected.clear();
    assert_eq!(commit(&mut ledger, e), Err(CommitError::ContentMismatch));
    assert_eq!(ledger.next_epoch(), 0);
}

#[test]
fn a_failed_commit_leaves_no_part_of_the_epoch() {
    let (sk, mut ledger) = fresh();
    let e = next(&sk, &ledger, &[b"a"], &[]);
    assert_eq!(commit(&mut ledger, e), Ok(CommitStatus::Committed));
    let e = next(&sk, &ledger, &[b"b", b"a"], &[b"c"]);
    assert_eq!(commit(&mut ledger, e), Err(CommitError::AlreadyProcessed));
    assert_eq!(ledger.last_epoch(), Some(0));
    assert!(!ledger.is_processed(&id_of(b"b")));
    assert!(!ledger.is_processed(&id_of(b"c")));
}

#[test]
fn client_config_signature_is_written_once() {
    let (_sk, mut ledger) = fresh();
    assert!(ledger.set_client_config_signature([1; 96]));
    assert_eq!(ledger.client_config_signature(), Some([1; 96]));
    assert!(!ledger.set_client_config_signature([2; 96]));
    assert_eq!(ledger.client_config_signature(), Some([1; 96]));
    assert!(!ledger.set_client_config_signature([1; 96]));
    assert_eq!(ledger.client_config_signature(), Some([1; 96]));
}

#[test]
fn commits_leave_the_client_config_signature_alone() {
    let (sk, mut ledger) = fresh();
    ledger.set_client_config_signature([3; 96]);
    let e = next(&sk, &ledger, &[], &[]);
    assert_eq!(commit(&mut ledger, e), Ok(CommitStatus::Committed));
    assert_eq!(ledger.client_config_signature(), Some([3; 96]));
}
