//! The committed state of the ledger.
//!
//! The ledger holds what has been committed: the history of signed epoch
//! outcomes, the record of every accepted and of every rejected transaction,
//! and the federation's signature over its client configuration. An epoch is
//! committed as a whole or not at all, and only where it extends the history
//! by one verified link.

use crate::crypto::spec_sha256;
use crate::epoch::{
    lemma_increasing_has_no_duplicates, lemma_verified_history_is_numbered, spec_history_verifies,
    spec_link_holds, spec_outcome_views, EpochOutcomeView, SignedEpochOutcome,
    SignedEpochOutcomeView,
};
use crate::transaction::{Transaction, TransactionId};
use vstd::prelude::*;

verus! {

/// The record of a transaction that an epoch accepted.
pub struct AcceptedTransaction {
    pub transaction: Transaction,
    /// The epoch that committed the transaction.
    pub epoch: u64,
    /// The place of the transaction among those the epoch accepted.
    pub position: u64,
}

/// The mathematical value of an [`AcceptedTransaction`].
pub struct AcceptedTransactionView {
    pub id: TransactionId,
    pub payload: Seq<u8>,
    pub epoch: u64,
    pub position: u64,
}

impl View for AcceptedTransaction {
    type V = AcceptedTransactionView;

    open spec fn view(&self) -> AcceptedTransactionView {
        AcceptedTransactionView {
            id: self.transaction.spec_id(),
            payload: self.transaction.spec_payload(),
            epoch: self.epoch,
            position: self.position,
        }
    }
}

/// The record of a transaction that an epoch rejected.
pub struct RejectedTransaction {
    pub id: TransactionId,
    /// Why the validator rejected the transaction.
    pub reason: String,
}

/// The mathematical value of a [`RejectedTransaction`].
pub struct RejectedTransactionView {
    pub id: TransactionId,
    pub reason: Seq<char>,
}

impl View for RejectedTransaction {
    type V = RejectedTransactionView;

    open spec fn view(&self) -> RejectedTransactionView {
        RejectedTransactionView { id: self.id, reason: self.reason@ }
    }
}

/// The mathematical values of `records`.
pub open spec fn spec_accepted_views(records: Seq<AcceptedTransaction>) -> Seq<
    AcceptedTransactionView,
> {
    records.map_values(|r: AcceptedTransaction| r@)
}

/// The mathematical values of `records`.
pub open spec fn spec_rejected_views(records: Seq<RejectedTransaction>) -> Seq<
    RejectedTransactionView,
> {
    records.map_values(|r: RejectedTransaction| r@)
}

/// Whether the records are those of the transactions that `outcome` lists:
/// one record for each identifier, in the same order, the accepted ones with
/// the epoch number and their place.
pub open spec fn spec_records_match(
    outcome: EpochOutcomeView,
    accepted: Seq<AcceptedTransactionView>,
    rejected: Seq<RejectedTransactionView>,
) -> bool {
    &&& accepted.len() == outcome.accepted.len()
    &&& rejected.len() == outcome.rejected.len()
    &&& forall|i: int|
        0 <= i < accepted.len() ==> (#[trigger] accepted[i]).id == outcome.accepted[i]
            && accepted[i].epoch == outcome.epoch_number && accepted[i].position == i
    &&& forall|i: int| 0 <= i < rejected.len() ==> (#[trigger] rejected[i]).id == outcome.rejected[i]
}

/// Whether an outcome of `history` lists `id` as accepted.
pub open spec fn spec_listed_accepted(history: Seq<SignedEpochOutcomeView>, id: TransactionId) -> bool {
    exists|n: int, k: int|
        0 <= n < history.len() && 0 <= k < history[n].outcome.accepted.len()
            && #[trigger] history[n].outcome.accepted[k] == id
}

/// Whether an outcome of `history` lists `id` as rejected.
pub open spec fn spec_listed_rejected(history: Seq<SignedEpochOutcomeView>, id: TransactionId) -> bool {
    exists|n: int, k: int|
        0 <= n < history.len() && 0 <= k < history[n].outcome.rejected.len()
            && #[trigger] history[n].outcome.rejected[k] == id
}

/// How a commit ended that changed nothing it should not.
#[derive(Clone, Copy, Debug, PartialEq, Eq, Structural)]
pub enum CommitStatus {
    /// The epoch was appended to the history.
    Committed,
    /// The epoch had been committed before: nothing was changed.
    AlreadyCommitted,
}

/// Why an epoch was not committed. Nothing was changed.
#[derive(Clone, Copy, Debug, PartialEq, Eq, Structural)]
pub enum CommitError {
    /// The epoch is not the next one.
    Gap { expected: u64, found: u64 },
    /// No further epoch number exists.
    HistoryFull,
    /// The outcome does not name the last committed outcome by its digest.
    BrokenChain,
    /// The signature is not the federation's over the digest of the outcome.
    InvalidSignature,
    /// The lists of the outcome are not in the order of identifiers, or hold
    /// an identifier twice.
    NotCanonical,
    /// The records are not those of the transactions that the outcome lists.
    ContentMismatch,
    /// The outcome lists a transaction that an earlier epoch has processed.
    AlreadyProcessed,
}

/// The committed state.
pub struct Ledger {
    federation_key: [u8; 48],
    history: Vec<SignedEpochOutcome>,
    accepted: Vec<AcceptedTransaction>,
    rejected: Vec<RejectedTransaction>,
    client_config_signature: Option<[u8; 96]>,
}

impl Ledger {
    /// The federation's combined public key.
    pub closed spec fn spec_federation_key(&self) -> [u8; 48] {
        self.federation_key
    }

    /// The signed outcomes, entry `n` for epoch `n`.
    pub closed spec fn spec_history(&self) -> Seq<SignedEpochOutcomeView> {
        spec_outcome_views(self.history@)
    }

    /// The records of the accepted transactions, in the order of commit.
    pub closed spec fn spec_accepted(&self) -> Seq<AcceptedTransactionView> {
        spec_accepted_views(self.accepted@)
    }

    /// The records of the rejected transactions, in the order of commit.
    pub closed spec fn spec_rejected(&self) -> Seq<RejectedTransactionView> {
        spec_rejected_views(self.rejected@)
    }

    pub closed spec fn spec_client_config_signature(&self) -> Option<[u8; 96]> {
        self.client_config_signature
    }

    /// The number of the last committed epoch.
    pub open spec fn spec_last_epoch(&self) -> Option<u64> {
        if self.spec_history().len() == 0 {
            None
        } else {
            Some((self.spec_history().len() - 1) as u64)
        }
    }

    /// The number of the epoch that is committed next.
    pub open spec fn spec_next_epoch(&self) -> u64 {
        self.spec_history().len() as u64
    }

    /// Whether the history holds an outcome with the epoch number `number`.
    pub open spec fn spec_has_epoch(&self, number: u64) -> bool {
        exists|n: int|
            0 <= n < self.spec_history().len() && (
            #[trigger] self.spec_history()[n]).outcome.epoch_number == number
    }

    /// Whether a record says that `id` was accepted.
    pub open spec fn spec_is_accepted(&self, id: TransactionId) -> bool {
        exists|i: int| 0 <= i < self.spec_accepted().len() && self.spec_accepted()[i].id == id
    }

    /// Whether epoch `epoch` has accepted the transaction `id`.
    pub open spec fn spec_accepted_in(&self, id: TransactionId, epoch: u64) -> bool {
        exists|i: int|
            0 <= i < self.spec_accepted().len() && (#[trigger] self.spec_accepted()[i]).id == id
                && self.spec_accepted()[i].epoch == epoch
    }

    /// Whether a record says that `id` was rejected.
    pub open spec fn spec_is_rejected(&self, id: TransactionId) -> bool {
        exists|i: int| 0 <= i < self.spec_rejected().len() && self.spec_rejected()[i].id == id
    }

    /// Whether an epoch has accepted or rejected `id`.
    pub open spec fn spec_is_processed(&self, id: TransactionId) -> bool {
        self.spec_is_accepted(id) || self.spec_is_rejected(id)
    }

    /// Whether no epoch has accepted or rejected any of `ids`.
    pub open spec fn spec_none_processed(&self, ids: Seq<TransactionId>) -> bool {
        forall|i: int| 0 <= i < ids.len() ==> !self.spec_is_processed(#[trigger] ids[i])
    }

    /// What holds of every ledger: the history verifies link by link under
    /// the federation's key, no transaction has two records, the records are
    /// those of the transactions that the outcomes list, and every accepted
    /// record names the epoch and the place at which its outcome lists it
    /// and carries the content hash of its payload.
    pub open spec fn wf(&self) -> bool {
        let h = self.spec_history();
        let a = self.spec_accepted();
        let r = self.spec_rejected();
        &&& h.len() <= u64::MAX
        &&& spec_history_verifies(h, self.spec_federation_key())
        &&& forall|i: int, j: int|
            0 <= i < a.len() && 0 <= j < a.len() && i != j ==> (#[trigger] a[i]).id != (
            #[trigger] a[j]).id
        &&& forall|i: int, j: int|
            0 <= i < r.len() && 0 <= j < r.len() && i != j ==> (#[trigger] r[i]).id != (
            #[trigger] r[j]).id
        &&& forall|i: int, j: int|
            0 <= i < a.len() && 0 <= j < r.len() ==> (#[trigger] a[i]).id != (#[trigger] r[j]).id
        &&& forall|i: int|
            0 <= i < a.len() ==> (#[trigger] a[i]).epoch < h.len() && a[i].id.0@ == spec_sha256(
                a[i].payload,
            ) && a[i].position < h[a[i].epoch as int].outcome.accepted.len()
                && h[a[i].epoch as int].outcome.accepted[a[i].position as int] == a[i].id
        &&& forall|id: TransactionId|
            #[trigger] self.spec_is_accepted(id) <==> spec_listed_accepted(h, id)
        &&& forall|id: TransactionId|
            #[trigger] self.spec_is_rejected(id) <==> spec_listed_rejected(h, id)
    }

    /// Whether `outcome` extends the history by one link.
    pub open spec fn spec_extends(&self, outcome: EpochOutcomeView) -> bool {
        if self.spec_history().len() == 0 {
            outcome.spec_first()
        } else {
            outcome.spec_follows(self.spec_history().last().outcome)
        }
    }

    /// How the commit of `signed` with its records ends.
    pub open spec fn spec_commit_result(
        &self,
        signed: SignedEpochOutcomeView,
        accepted: Seq<AcceptedTransactionView>,
        rejected: Seq<RejectedTransactionView>,
    ) -> Result<CommitStatus, CommitError> {
        let next = self.spec_history().len();
        let number = signed.outcome.epoch_number;
        if number < next {
            Ok(CommitStatus::AlreadyCommitted)
        } else if number > next {
            Err(CommitError::Gap { expected: next as u64, found: number })
        } else if number == u64::MAX {
            Err(CommitError::HistoryFull)
        } else if !self.spec_extends(signed.outcome) {
            Err(CommitError::BrokenChain)
        } else if !signed.spec_signed_by(self.spec_federation_key()) {
            Err(CommitError::InvalidSignature)
        } else if !signed.outcome.spec_canonical() {
            Err(CommitError::NotCanonical)
        } else if !spec_records_match(signed.outcome, accepted, rejected) {
            Err(CommitError::ContentMismatch)
        } else if !(self.spec_none_processed(signed.outcome.accepted) && self.spec_none_processed(
            signed.outcome.rejected,
        )) {
            Err(CommitError::AlreadyProcessed)
        } else {
            Ok(CommitStatus::Committed)
        }
    }

    /// An empty ledger of the federation with the combined public key
    /// `federation_key`.
    pub fn new(federation_key: [u8; 48]) -> (ledger: Ledger)
        ensures
            ledger.wf(),
            ledger.spec_federation_key() == federation_key,
            ledger.spec_history() == Seq::<SignedEpochOutcomeView>::empty(),
            ledger.spec_accepted() == Seq::<AcceptedTransactionView>::empty(),
            ledger.spec_rejected() == Seq::<RejectedTransactionView>::empty(),
            ledger.spec_client_config_signature() is None,
    {
        let ledger = Ledger {
            federation_key,
            history: Vec::new(),
            accepted: Vec::new(),
            rejected: Vec::new(),
            client_config_signature: None,
        };
        assert(ledger.spec_history() =~= Seq::<SignedEpochOutcomeView>::empty());
        assert(ledger.spec_accepted() =~= Seq::<AcceptedTransactionView>::empty());
        assert(ledger.spec_rejected() =~= Seq::<RejectedTransactionView>::empty());
        ledger
    }

    pub fn federation_key(&self) -> (key: &[u8; 48])
        ensures
            *key == self.spec_federation_key(),
    {
        &self.federation_key
    }

    /// The number of the last committed epoch, `None` before the first.
    pub fn last_epoch(&self) -> (last: Option<u64>)
        requires
            self.wf(),
        ensures
            last == self.spec_last_epoch(),
    {
        if self.history.len() == 0 {
            None
        } else {
            Some((self.history.len() - 1) as u64)
        }
    }

    /// The number of the epoch that is committed next.
    pub fn next_epoch(&self) -> (next: u64)
        requires
            self.wf(),
        ensures
            next == self.spec_next_epoch(),
    {
        self.history.len() as u64
    }

    /// The signed outcome of epoch `number`.
    pub fn epoch(&self, number: u64) -> (found: Option<&SignedEpochOutcome>)
        requires
            self.wf(),
        ensures
            match found {
                Some(signed) => number < self.spec_history().len() && signed@
                    == self.spec_history()[number as int] && signed.outcome.epoch_number
                    == number,
                None => number >= self.spec_history().len(),
            },
    {
        if number < self.history.len() as u64 {
            proof {
                lemma_verified_history_is_numbered(
                    self.spec_history(),
                    self.spec_federation_key(),
                    number as int,
                );
            }
            Some(&self.history[number as usize])
        } else {
            None
        }
    }

    /// The signed outcome of the last committed epoch.
    pub fn latest(&self) -> (found: Option<&SignedEpochOutcome>)
        requires
            self.wf(),
        ensures
            match found {
                Some(signed) => self.spec_history().len() > 0 && signed@
                    == self.spec_history().last(),
                None => self.spec_history().len() == 0,
            },
    {
        if self.history.len() == 0 {
            None
        } else {
            Some(&self.history[self.history.len() - 1])
        }
    }

    /// The record of the accepted transaction `id`.
    pub fn accepted_transaction(&self, id: &TransactionId) -> (found: Option<&AcceptedTransaction>)
        ensures
            match found {
                Some(record) => record@.id == *id && self.spec_accepted().contains(record@),
                None => !self.spec_is_accepted(*id),
            },
    {
        let mut i: usize = 0;
        while i < self.accepted.len()
            invariant
                i <= self.accepted@.len(),
                forall|j: int| 0 <= j < i ==> self.spec_accepted()[j].id != *id,
            decreases self.accepted@.len() - i,
        {
            if self.accepted[i].transaction.id().same(id) {
                assert(self.spec_accepted()[i as int] == self.accepted@[i as int]@);
                return Some(&self.accepted[i]);
            }
            i += 1;
        }
        None
    }

    /// The record of the rejected transaction `id`.
    pub fn rejected_transaction(&self, id: &TransactionId) -> (found: Option<&RejectedTransaction>)
        ensures
            match found {
                Some(record) => record@.id == *id && self.spec_rejected().contains(record@),
                None => !self.spec_is_rejected(*id),
            },
    {
        let mut i: usize = 0;
        while i < self.rejected.len()
            invariant
                i <= self.rejected@.len(),
                forall|j: int| 0 <= j < i ==> self.spec_rejected()[j].id != *id,
            decreases self.rejected@.len() - i,
        {
            if self.rejected[i].id.same(id) {
                assert(self.spec_rejected()[i as int] == self.rejected@[i as int]@);
                return Some(&self.rejected[i]);
            }
            i += 1;
        }
        None
    }

    /// Whether an epoch has accepted or rejected the transaction `id`.
    pub fn is_processed(&self, id: &TransactionId) -> (processed: bool)
        ensures
            processed == self.spec_is_processed(*id),
    {
        self.accepted_transaction(id).is_some() || self.rejected_transaction(id).is_some()
    }

    fn none_processed(&self, ids: &Vec<TransactionId>) -> (ok: bool)
        ensures
            ok == self.spec_none_processed(ids@),
    {
        let mut i: usize = 0;
        while i < ids.len()
            invariant
                i <= ids@.len(),
                forall|j: int| 0 <= j < i ==> !self.spec_is_processed(#[trigger] ids@[j]),
            decreases ids@.len() - i,
        {
            if self.is_processed(&ids[i]) {
                return false;
            }
            i += 1;
        }
        true
    }

    /// The federation's signature over its client configuration.
    pub fn client_config_signature(&self) -> (signature: Option<[u8; 96]>)
        ensures
            signature == self.spec_client_config_signature(),
    {
        self.client_config_signature
    }

    /// Writes the federation's signature over its client configuration. It
    /// is written once: a second write changes nothing and returns `false`.
    pub fn set_client_config_signature(&mut self, signature: [u8; 96]) -> (written: bool)
        requires
            old(self).wf(),
        ensures
            final(self).wf(),
            written == (old(self).spec_client_config_signature() is None),
            final(self).spec_client_config_signature() == if written {
                Some(signature)
            } else {
                old(self).spec_client_config_signature()
            },
            final(self).spec_federation_key() == old(self).spec_federation_key(),
            final(self).spec_history() == old(self).spec_history(),
            final(self).spec_accepted() == old(self).spec_accepted(),
            final(self).spec_rejected() == old(self).spec_rejected(),
    {
        if self.client_config_signature.is_none() {
            self.client_config_signature = Some(signature);
            proof {
                assert(self.spec_history() == old(self).spec_history());
                assert(self.spec_accepted() == old(self).spec_accepted());
                assert(self.spec_rejected() == old(self).spec_rejected());
                assert forall|id: TransactionId|
                    #[trigger] self.spec_is_accepted(id) == old(self).spec_is_accepted(id) by {}
                assert forall|id: TransactionId|
                    #[trigger] self.spec_is_rejected(id) == old(self).spec_is_rejected(id) by {}
            }
            true
        } else {
            false
        }
    }

    /// Commits the epoch `signed` with the records of its transactions, all
    /// of it or nothing. An epoch that has been committed before is left as
    /// it is. The epoch must be the next one, name the last outcome by its
    /// digest, carry the federation's signature, list its transactions in the
    /// order of identifiers, come with exactly the records of the
    /// transactions it lists, and list no transaction that was processed
    /// before.
    pub fn commit_epoch(
        &mut self,
        signed: SignedEpochOutcome,
        accepted: Vec<AcceptedTransaction>,
        rejected: Vec<RejectedTransaction>,
    ) -> (r: Result<CommitStatus, CommitError>)
        requires
            old(self).wf(),
        ensures
            final(self).wf(),
            r == old(self).spec_commit_result(
                signed@,
                spec_accepted_views(accepted@),
                spec_rejected_views(rejected@),
            ),
            final(self).spec_federation_key() == old(self).spec_federation_key(),
            final(self).spec_client_config_signature() == old(self).spec_client_config_signature(),
            r == Ok::<CommitStatus, CommitError>(CommitStatus::Committed) ==> {
                &&& final(self).spec_history() == old(self).spec_history().push(signed@)
                &&& final(self).spec_accepted() == old(self).spec_accepted() + spec_accepted_views(
                    accepted@,
                )
                &&& final(self).spec_rejected() == old(self).spec_rejected() + spec_rejected_views(
                    rejected@,
                )
            },
            r != Ok::<CommitStatus, CommitError>(CommitStatus::Committed) ==> {
                &&& final(self).spec_history() == old(self).spec_history()
                &&& final(self).spec_accepted() == old(self).spec_accepted()
                &&& final(self).spec_rejected() == old(self).spec_rejected()
            },
    {
        let next: u64 = self.history.len() as u64;
        let number: u64 = signed.outcome.epoch_number;
        if number < next {
            return Ok(CommitStatus::AlreadyCommitted);
        }
        if number > next {
            return Err(CommitError::Gap { expected: next, found: number });
        }
        if number == u64::MAX {
            return Err(CommitError::HistoryFull);
        }
        let linked = if self.history.len() == 0 {
            signed.outcome.is_first()
        } else {
            signed.outcome.follows(&self.history[self.history.len() - 1].outcome)
        };
        if !linked {
            return Err(CommitError::BrokenChain);
        }
        if !signed.signed_by(&self.federation_key) {
            return Err(CommitError::InvalidSignature);
        }
        if !signed.outcome.is_canonical() {
            return Err(CommitError::NotCanonical);
        }
        if !records_match(&signed, &accepted, &rejected) {
            return Err(CommitError::ContentMismatch);
        }
        if !(self.none_processed(&signed.outcome.accepted) && self.none_processed(
            &signed.outcome.rejected,
        )) {
            return Err(CommitError::AlreadyProcessed);
        }
        let ghost old_h = self.spec_history();
        let ghost old_a = self.spec_accepted();
        let ghost old_r = self.spec_rejected();
        let ghost new_a = spec_accepted_views(accepted@);
        let ghost new_r = spec_rejected_views(rejected@);
        let ghost key = self.federation_key;
        let ghost outcome = signed@.outcome;
        let mut accepted = accepted;
        let mut rejected = rejected;
        self.history.push(signed);
        self.accepted.append(&mut accepted);
        self.rejected.append(&mut rejected);
        proof {
            let h = self.spec_history();
            let a = self.spec_accepted();
            let r = self.spec_rejected();
            assert(h =~= old_h.push(signed@));
            assert(a =~= old_a + new_a);
            assert(r =~= old_r + new_r);
            assert forall|n: int| 0 <= n < h.len() implies spec_link_holds(h, n, key) by {
                if n < old_h.len() {
                    assert(spec_link_holds(old_h, n, key));
                }
            }
            lemma_increasing_has_no_duplicates(outcome.accepted);
            lemma_increasing_has_no_duplicates(outcome.rejected);
            assert forall|i: int| 0 <= i < new_a.len() implies !old(self).spec_is_processed(
                (#[trigger] new_a[i]).id,
            ) by {
                assert(new_a[i].id == outcome.accepted[i]);
            }
            assert forall|i: int| 0 <= i < new_r.len() implies !old(self).spec_is_processed(
                (#[trigger] new_r[i]).id,
            ) by {
                assert(new_r[i].id == outcome.rejected[i]);
            }
            assert forall|i: int, j: int|
                0 <= i < a.len() && 0 <= j < a.len() && i != j implies (#[trigger] a[i]).id != (
                #[trigger] a[j]).id by {
                if i < old_a.len() && j >= old_a.len() {
                    assert(!old(self).spec_is_processed(new_a[j - old_a.len()].id));
                } else if j < old_a.len() && i >= old_a.len() {
                    assert(!old(self).spec_is_processed(new_a[i - old_a.len()].id));
                } else if i >= old_a.len() {
                    assert(outcome.accepted[i - old_a.len()] != outcome.accepted[j - old_a.len()]);
                }
            }
            assert forall|i: int, j: int|
                0 <= i < r.len() && 0 <= j < r.len() && i != j implies (#[trigger] r[i]).id != (
                #[trigger] r[j]).id by {
                if i < old_r.len() && j >= old_r.len() {
                    assert(!old(self).spec_is_processed(new_r[j - old_r.len()].id));
                } else if j < old_r.len() && i >= old_r.len() {
                    assert(!old(self).spec_is_processed(new_r[i - old_r.len()].id));
                } else if i >= old_r.len() {
                    assert(outcome.rejected[i - old_r.len()] != outcome.rejected[j - old_r.len()]);
                }
            }
            assert forall|i: int, j: int| 0 <= i < a.len() && 0 <= j < r.len() implies (
            #[trigger] a[i]).id != (#[trigger] r[j]).id by {
                if i < old_a.len() && j >= old_r.len() {
                    assert(!old(self).spec_is_processed(new_r[j - old_r.len()].id));
                } else if i >= old_a.len() && j < old_r.len() {
                    assert(!old(self).spec_is_processed(new_a[i - old_a.len()].id));
                } else if i >= old_a.len() {
                    assert(outcome.accepted[i - old_a.len()] != outcome.rejected[j - old_r.len()]);
                }
            }
            let last = old_h.len() as int;
            assert(h[last] == signed@);
            assert forall|i: int| 0 <= i < a.len() implies (#[trigger] a[i]).epoch < h.len()
                && a[i].position < h[a[i].epoch as int].outcome.accepted.len()
                && h[a[i].epoch as int].outcome.accepted[a[i].position as int] == a[i].id by {
                if i < old_a.len() {
                    assert(a[i] == old_a[i]);
                    assert(h[old_a[i].epoch as int] == old_h[old_a[i].epoch as int]);
                } else {
                    assert(a[i] == new_a[i - old_a.len()]);
                }
            }
            assert forall|id: TransactionId|
                #[trigger] self.spec_is_accepted(id) <==> spec_listed_accepted(h, id) by {
                if self.spec_is_accepted(id) {
                    let i = choose|i: int| 0 <= i < a.len() && a[i].id == id;
                    if i < old_a.len() {
                        assert(old_a[i].id == id);
                        assert(old(self).spec_is_accepted(id));
                        let (n, k) = choose|n: int, k: int|
                            0 <= n < old_h.len() && 0 <= k < old_h[n].outcome.accepted.len()
                                && #[trigger] old_h[n].outcome.accepted[k] == id;
                        assert(h[n].outcome.accepted[k] == id);
                    } else {
                        assert(new_a[i - old_a.len()].id == id);
                        assert(h[last].outcome.accepted[i - old_a.len()] == id);
                    }
                }
                if spec_listed_accepted(h, id) {
                    let (n, k) = choose|n: int, k: int|
                        0 <= n < h.len() && 0 <= k < h[n].outcome.accepted.len()
                            && #[trigger] h[n].outcome.accepted[k] == id;
                    if n < last {
                        assert(old_h[n].outcome.accepted[k] == id);
                        assert(old(self).spec_is_accepted(id));
                        let i = choose|i: int| 0 <= i < old_a.len() && old_a[i].id == id;
                        assert(a[i].id == id);
                    } else {
                        assert(a[old_a.len() + k] == new_a[k]);
                        assert(a[old_a.len() + k].id == id);
                    }
                }
            }
            assert forall|id: TransactionId|
                #[trigger] self.spec_is_rejected(id) <==> spec_listed_rejected(h, id) by {
                if self.spec_is_rejected(id) {
                    let i = choose|i: int| 0 <= i < r.len() && r[i].id == id;
                    if i < old_r.len() {
                        assert(old_r[i].id == id);
                        assert(old(self).spec_is_rejected(id));
                        let (n, k) = choose|n: int, k: int|
                            0 <= n < old_h.len() && 0 <= k < old_h[n].outcome.rejected.len()
                                && #[trigger] old_h[n].outcome.rejected[k] == id;
                        assert(h[n].outcome.rejected[k] == id);
                    } else {
                        assert(new_r[i - old_r.len()].id == id);
                        assert(h[last].outcome.rejected[i - old_r.len()] == id);
                    }
                }
                if spec_listed_rejected(h, id) {
                    let (n, k) = choose|n: int, k: int|
                        0 <= n < h.len() && 0 <= k < h[n].outcome.rejected.len()
                            && #[trigger] h[n].outcome.rejected[k] == id;
                    if n < last {
                        assert(old_h[n].outcome.rejected[k] == id);
                        assert(old(self).spec_is_rejected(id));
                        let i = choose|i: int| 0 <= i < old_r.len() && old_r[i].id == id;
                        assert(r[i].id == id);
                    } else {
                        assert(r[old_r.len() + k] == new_r[k]);
                        assert(r[old_r.len() + k].id == id);
                    }
                }
            }
        }
        Ok(CommitStatus::Committed)
    }
}

/// Checks the records against the outcome, and that each accepted record
/// carries the content hash of its payload.
fn records_match(
    signed: &SignedEpochOutcome,
    accepted: &Vec<AcceptedTransaction>,
    rejected: &Vec<RejectedTransaction>,
) -> (ok: bool)
    ensures
        ok == spec_records_match(
            signed@.outcome,
            spec_accepted_views(accepted@),
            spec_rejected_views(rejected@),
        ),
        forall|i: int|
            0 <= i < accepted@.len() ==> (#[trigger] spec_accepted_views(accepted@)[i]).id.0@
                == spec_sha256(spec_accepted_views(accepted@)[i].payload),
{
    let ghost a = spec_accepted_views(accepted@);
    let ghost r = spec_rejected_views(rejected@);
    let mut k: usize = 0;
    while k < accepted.len()
        invariant
            k <= accepted@.len(),
            a == spec_accepted_views(accepted@),
            forall|i: int| 0 <= i < k ==> (#[trigger] a[i]).id.0@ == spec_sha256(a[i].payload),
        decreases accepted@.len() - k,
    {
        let tx = &accepted[k].transaction;
        proof {
            use_type_invariant(tx);
            assert(a[k as int] == accepted@[k as int]@);
        }
        k += 1;
    }
    if accepted.len() != signed.outcome.accepted.len() || rejected.len() != signed.outcome.rejected.len() {
        return false;
    }
    let mut i: usize = 0;
    while i < accepted.len()
        invariant
            i <= accepted@.len(),
            accepted@.len() == signed.outcome.accepted@.len(),
            a == spec_accepted_views(accepted@),
            forall|k: int|
                0 <= k < a.len() ==> (#[trigger] a[k]).id.0@ == spec_sha256(a[k].payload),
            forall|k: int|
                0 <= k < i ==> (#[trigger] a[k]).id == signed.outcome.accepted@[k] && a[k].epoch
                    == signed.outcome.epoch_number && a[k].position == k,
        decreases accepted@.len() - i,
    {
        let record = &accepted[i];
        assert(a[i as int] == accepted@[i as int]@);
        if !record.transaction.id().same(&signed.outcome.accepted[i]) || record.epoch
            != signed.outcome.epoch_number || record.position != i as u64 {
            assert(!(a[i as int].id == signed.outcome.accepted@[i as int] && a[i as int].epoch
                == signed.outcome.epoch_number && a[i as int].position == i));
            return false;
        }
        i += 1;
    }
    let mut j: usize = 0;
    while j < rejected.len()
        invariant
            j <= rejected@.len(),
            rejected@.len() == signed.outcome.rejected@.len(),
            r == spec_rejected_views(rejected@),
            a == spec_accepted_views(accepted@),
            accepted@.len() == signed.outcome.accepted@.len(),
            forall|k: int|
                0 <= k < a.len() ==> (#[trigger] a[k]).id.0@ == spec_sha256(a[k].payload),
            forall|k: int|
                0 <= k < a.len() ==> (#[trigger] a[k]).id == signed.outcome.accepted@[k] && a[k].epoch
                    == signed.outcome.epoch_number && a[k].position == k,
            forall|k: int| 0 <= k < j ==> (#[trigger] r[k]).id == signed.outcome.rejected@[k],
        decreases rejected@.len() - j,
    {
        assert(r[j as int] == rejected@[j as int]@);
        if !rejected[j].id.same(&signed.outcome.rejected[j]) {
            assert(r[j as int].id != signed.outcome.rejected@[j as int]);
            return false;
        }
        j += 1;
    }
    true
}

/// The history has an entry for each of the epochs `0, 1, ..` up to the last
/// one and for no other: entry `n` carries the number `n`, and the pointer to
/// the last epoch is the greatest number in the history.
pub proof fn lemma_history_has_no_gaps(ledger: Ledger)
    requires
        ledger.wf(),
    ensures
        forall|n: int|
            0 <= n < ledger.spec_history().len() ==> (
            #[trigger] ledger.spec_history()[n]).outcome.epoch_number == n,
        forall|k: u64| #[trigger] ledger.spec_has_epoch(k) <==> k < ledger.spec_next_epoch(),
        match ledger.spec_last_epoch() {
            Some(last) => last + 1 == ledger.spec_history().len(),
            None => ledger.spec_history().len() == 0,
        },
{
    let h = ledger.spec_history();
    assert forall|n: int| 0 <= n < h.len() implies (#[trigger] h[n]).outcome.epoch_number == n by {
        lemma_verified_history_is_numbered(h, ledger.spec_federation_key(), n);
    }
    assert forall|k: u64| #[trigger] ledger.spec_has_epoch(k) <==> k
        < ledger.spec_next_epoch() by {
        if k < ledger.spec_next_epoch() {
            assert(h[k as int].outcome.epoch_number == k);
        }
    }
}

/// Every entry of the history but the first verifies against the entry
/// before it, and the first verifies as a first entry.
pub proof fn lemma_history_is_chained(ledger: Ledger, n: int)
    requires
        ledger.wf(),
        0 <= n < ledger.spec_history().len(),
    ensures
        n >= 1 ==> ledger.spec_history()[n].spec_verify(
            ledger.spec_history()[n - 1],
            ledger.spec_federation_key(),
        ),
        n == 0 ==> ledger.spec_history()[0].spec_verify_first(ledger.spec_federation_key()),
{
    assert(spec_link_holds(ledger.spec_history(), n, ledger.spec_federation_key()));
}

/// No transaction is both accepted and rejected, and none has two records.
pub proof fn lemma_accepted_xor_rejected(ledger: Ledger, id: TransactionId)
    requires
        ledger.wf(),
    ensures
        !(ledger.spec_is_accepted(id) && ledger.spec_is_rejected(id)),
        forall|i: int, j: int|
            0 <= i < ledger.spec_accepted().len() && 0 <= j < ledger.spec_accepted().len()
                && ledger.spec_accepted()[i].id == id && ledger.spec_accepted()[j].id == id ==> i
                == j,
        forall|i: int, j: int|
            0 <= i < ledger.spec_rejected().len() && 0 <= j < ledger.spec_rejected().len()
                && ledger.spec_rejected()[i].id == id && ledger.spec_rejected()[j].id == id ==> i
                == j,
{
}

/// Delivering an epoch again that has been committed changes nothing: the
/// commit of any outcome with a number below the next one ends as
/// `AlreadyCommitted`, whatever else it holds.
pub proof fn lemma_redelivery_changes_nothing(
    ledger: Ledger,
    signed: SignedEpochOutcomeView,
    accepted: Seq<AcceptedTransactionView>,
    rejected: Seq<RejectedTransactionView>,
)
    requires
        ledger.wf(),
        signed.outcome.epoch_number < ledger.spec_next_epoch(),
    ensures
        ledger.spec_commit_result(signed, accepted, rejected) == Ok::<CommitStatus, CommitError>(
            CommitStatus::AlreadyCommitted,
        ),
{
}

} // verus!
