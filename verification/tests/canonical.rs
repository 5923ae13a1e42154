use fedimint_server::canonical::{canonicalize, insert_sorted};
use fedimint_server::round::{AgreedItem, Verdict};
use fedimint_server::epoch::{EpochOutcome, SignedEpochOutcome};
use fedimint_server::ledger::{AcceptedTransaction, CommitStatus, Ledger};
use fedimint_server::transaction::{Transaction, TransactionId};
use fedimint_threshold_crypto::SecretKey;

fn txs(payloads: &[&[u8]]) -> Vec<Transaction> {
    payloads.iter().map(|p| Transaction::new(p.to_vec())).collect()
}

fn ids(list: &[Transaction]) -> Vec<TransactionId> {
    list.iter().map(|t| t.id()).collect()
}

fn empty_ledger() -> Ledger {
    Ledger::new(SecretKey::random().public_key().to_bytes())
}

#[test]
fn canonical_list_is_in_the_order_of_identifiers() {
    let out = canonicalize(txs(&[b"d", b"a", b"c", b"b"]), &empty_ledger());
    assert_eq!(out.len(), 4);
    for w in out.windows(2) {
        assert!(w[0].id().before(&w[1].id()));
    }
    let mut expected = ids(&txs(&[b"a", b"b", b"c", b"d"]));
    expected.sort_by_key(|id| id.0);
    assert_eq!(ids(&out), expected);
}

#[test]
fn canonical_list_does_not_depend_on_arrival() {
    let ledger = empty_ledger();
    let one = canonicalize(txs(&[b"1", b"2", b"3", b"4", b"5"]), &ledger);
    let two = canonicalize(txs(&[b"5", b"3", b"1", b"4", b"2"]), &ledger);
    let three = canonicalize(txs(&[b"2", b"2", b"5", b"1", b"4", b"3", b"1"]), &ledger);
    assert_eq!(ids(&one), ids(&two));
    assert_eq!(ids(&one), ids(&three));
    let payloads: Vec<Vec<u8>> = one.iter().map(|t| t.payload().clone()).collect();
    let other: Vec<Vec<u8>> = three.iter().map(|t| t.payload().clone()).collect();
    assert_eq!(payloads, other);
}

#[test]
fn canonical_list_keeps_one_of_each() {
    let out = canonicalize(txs(&[b"a", b"a", b"a"]), &empty_ledger());
    assert_eq!(out.len(), 1);
    assert_eq!(out[0].payload(), &b"a".to_vec());
    assert!(canonicalize(Vec::<Transaction>::new(), &empty_ledger()).is_empty());
}

#[test]
fn canonical_list_leaves_out_what_was_processed() {
    let sk = SecretKey::random();
    let mut ledger = Ledger::new(sk.public_key().to_bytes());
    let tx = Transaction::new(b"old".to_vec());
    let outcome = EpochOutcome {
        epoch_number: 0,
        previous_hash: None,
        accepted: vec![tx.id()],
        rejected: vec![],
    };
    let signature = sk.sign(outcome.digest()).to_bytes();
    let record = AcceptedTransaction { transaction: tx, epoch: 0, position: 0 };
    assert_eq!(
        ledger.commit_epoch(SignedEpochOutcome { outcome, signature }, vec![record], vec![]),
        Ok(CommitStatus::Committed)
    );
    let out = canonicalize(txs(&[b"new", b"old", b"newer"]), &ledger);
    let mut expected = ids(&txs(&[b"new", b"newer"]));
    expected.sort_by_key(|id| id.0);
    assert_eq!(ids(&out), expected);
}

#[test]
fn insert_sorted_refuses_an_identifier_that_is_there() {
    let mut sorted: Vec<Transaction> = Vec::new();
    assert!(insert_sorted(&mut sorted, Transaction::new(b"m".to_vec())));
    assert!(insert_sorted(&mut sorted, Transaction::new(b"a".to_vec())));
    assert!(insert_sorted(&mut sorted, Transaction::new(b"z".to_vec())));
    assert!(!insert_sorted(&mut sorted, Transaction::new(b"m".to_vec())));
    assert_eq!(sorted.len(), 3);
    for w in sorted.windows(2) {
        assert!(w[0].id().before(&w[1].id()));
    }
}

#[test]
fn canonical_list_keeps_the_last_of_one_identifier() {
    let items = vec![
        AgreedItem { transaction: Transaction::new(b"a".to_vec()), verdict: Verdict::Accept },
        AgreedItem {
            transaction: Transaction::new(b"a".to_vec()),
            verdict: Verdict::Reject { reason: String::from("second") },
        },
        AgreedItem {
            transaction: Transaction::new(b"a".to_vec()),
            verdict: Verdict::Reject { reason: String::from("third") },
        },
    ];
    let out = canonicalize(items, &empty_ledger());
    assert_eq!(out.len(), 1);
    assert!(matches!(&out[0].verdict, Verdict::Reject { reason } if reason == "third"));
}
