//! The content of one round: what was agreed, and the epoch drafted from it.
//!
//! The agreement of a round yields transactions, each with the verdict of
//! the validator. From their canonical list an epoch is drafted: the outcome
//! with the accepted and the rejected identifiers, and the record of each
//! transaction.

use crate::canonical::{spec_keys, Keyed};
use crate::epoch::{spec_disjoint, spec_strictly_increasing, EpochOutcome, EpochOutcomeView};
use crate::ledger::{
    spec_accepted_views, spec_records_match, spec_rejected_views, AcceptedTransaction,
    AcceptedTransactionView, RejectedTransaction, RejectedTransactionView,
};
use crate::transaction::{lemma_order_total, Transaction, TransactionId};
use vstd::prelude::*;

verus! {

/// What the validator said of a transaction.
pub enum Verdict {
    Accept,
    Reject { reason: String },
}

/// A transaction of the agreed content of a round, with its verdict.
pub struct AgreedItem {
    pub transaction: Transaction,
    pub verdict: Verdict,
}

impl Keyed for AgreedItem {
    open spec fn spec_key(&self) -> TransactionId {
        self.transaction.spec_id()
    }

    fn key(&self) -> (id: TransactionId) {
        self.transaction.id()
    }
}

/// The outcome of an epoch that is not signed yet, with the records of its
/// transactions.
pub struct EpochDraft {
    pub outcome: EpochOutcome,
    pub accepted: Vec<AcceptedTransaction>,
    pub rejected: Vec<RejectedTransaction>,
}

/// The mathematical value of an [`EpochDraft`].
pub struct EpochDraftView {
    pub outcome: EpochOutcomeView,
    pub accepted: Seq<AcceptedTransactionView>,
    pub rejected: Seq<RejectedTransactionView>,
}

impl View for EpochDraft {
    type V = EpochDraftView;

    open spec fn view(&self) -> EpochDraftView {
        EpochDraftView {
            outcome: self.outcome@,
            accepted: spec_accepted_views(self.accepted@),
            rejected: spec_rejected_views(self.rejected@),
        }
    }
}

/// Whether `record` is the record of the accepted item `item`.
pub open spec fn spec_accepts(record: AcceptedTransactionView, item: AgreedItem) -> bool {
    item.verdict is Accept && record.id == item.transaction.spec_id() && record.payload
        == item.transaction.spec_payload()
}

/// Whether `record` is the record of the rejected item `item`.
pub open spec fn spec_rejects(record: RejectedTransactionView, item: AgreedItem) -> bool {
    item.verdict matches Verdict::Reject { reason } && record.id == item.transaction.spec_id()
        && record.reason == reason@
}

/// Whether `draft` is the epoch `epoch` drafted from the canonical list
/// `items`: each item has its record, accepted or rejected as its verdict
/// says, there is no other record, and the outcome lists the identifiers of
/// the records in their order.
pub open spec fn spec_draft_of(
    draft: EpochDraftView,
    items: Seq<AgreedItem>,
    epoch: u64,
    previous_hash: Option<[u8; 32]>,
) -> bool {
    &&& draft.outcome.epoch_number == epoch
    &&& draft.outcome.previous_hash == previous_hash
    &&& draft.outcome.spec_canonical()
    &&& spec_records_match(draft.outcome, draft.accepted, draft.rejected)
    &&& draft.accepted.len() + draft.rejected.len() == items.len()
    &&& forall|j: int|
        0 <= j < items.len() && (#[trigger] items[j]).verdict is Accept ==> exists|k: int|
            0 <= k < draft.accepted.len() && spec_accepts(#[trigger] draft.accepted[k], items[j])
    &&& forall|j: int|
        0 <= j < items.len() && (#[trigger] items[j]).verdict is Reject ==> exists|k: int|
            0 <= k < draft.rejected.len() && spec_rejects(#[trigger] draft.rejected[k], items[j])
}

/// Whether `id` is among the first `upto` of `keys`.
spec fn spec_among(keys: Seq<TransactionId>, upto: int, id: TransactionId) -> bool {
    exists|j: int| 0 <= j < upto && #[trigger] keys[j] == id
}

fn reversed<T>(items: Vec<T>) -> (out: Vec<T>)
    ensures
        out@ == items@.reverse(),
{
    let ghost all = items@;
    let mut items = items;
    let mut out: Vec<T> = Vec::new();
    while items.len() > 0
        invariant
            items@.len() + out@.len() == all.len(),
            items@ == all.take(items@.len() as int),
            forall|m: int| 0 <= m < out@.len() ==> out@[m] == all[all.len() - 1 - m],
        decreases items@.len(),
    {
        let ghost n = items@.len() - 1;
        let item = items.pop().unwrap();
        assert(item == all[n]);
        assert(items@ =~= all.take(n));
        out.push(item);
    }
    assert(out@ =~= all.reverse());
    out
}

/// Drafts the epoch `epoch` from the canonical list `items`.
pub fn draft_epoch(items: Vec<AgreedItem>, epoch: u64, previous_hash: Option<[u8; 32]>) -> (draft:
    EpochDraft)
    requires
        spec_strictly_increasing(spec_keys(items@)),
    ensures
        spec_draft_of(draft@, items@, epoch, previous_hash),
        forall|k: int|
            0 <= k < draft@.outcome.accepted.len() ==> spec_keys(items@).contains(
                #[trigger] draft@.outcome.accepted[k],
            ),
        forall|k: int|
            0 <= k < draft@.outcome.rejected.len() ==> spec_keys(items@).contains(
                #[trigger] draft@.outcome.rejected[k],
            ),
{
    let ghost all = items@;
    let ghost keys = spec_keys(items@);
    let mut stack = reversed(items);
    let mut accepted_ids: Vec<TransactionId> = Vec::new();
    let mut rejected_ids: Vec<TransactionId> = Vec::new();
    let mut accepted: Vec<AcceptedTransaction> = Vec::new();
    let mut rejected: Vec<RejectedTransaction> = Vec::new();
    while stack.len() > 0
        invariant
            stack@.len() <= all.len(),
            keys == spec_keys(all),
            spec_strictly_increasing(keys),
            forall|m: int| 0 <= m < stack@.len() ==> stack@[m] == all[all.len() - 1 - m],
            accepted@.len() == accepted_ids@.len(),
            rejected@.len() == rejected_ids@.len(),
            accepted@.len() + rejected@.len() + stack@.len() == all.len(),
            spec_strictly_increasing(accepted_ids@),
            spec_strictly_increasing(rejected_ids@),
            spec_disjoint(accepted_ids@, rejected_ids@),
            forall|k: int|
                0 <= k < accepted_ids@.len() ==> spec_among(
                    keys,
                    all.len() - stack@.len(),
                    #[trigger] accepted_ids@[k],
                ),
            forall|k: int|
                0 <= k < rejected_ids@.len() ==> spec_among(
                    keys,
                    all.len() - stack@.len(),
                    #[trigger] rejected_ids@[k],
                ),
            forall|k: int|
                0 <= k < accepted@.len() ==> (#[trigger] spec_accepted_views(accepted@)[k]).id
                    == accepted_ids@[k] && spec_accepted_views(accepted@)[k].epoch == epoch
                    && spec_accepted_views(accepted@)[k].position == k,
            forall|k: int|
                0 <= k < rejected@.len() ==> (#[trigger] spec_rejected_views(rejected@)[k]).id
                    == rejected_ids@[k],
            forall|j: int|
                0 <= j < all.len() - stack@.len() && (#[trigger] all[j]).verdict is Accept
                    ==> exists|k: int|
                    0 <= k < accepted@.len() && spec_accepts(
                        #[trigger] spec_accepted_views(accepted@)[k],
                        all[j],
                    ),
            forall|j: int|
                0 <= j < all.len() - stack@.len() && (#[trigger] all[j]).verdict is Reject
                    ==> exists|k: int|
                    0 <= k < rejected@.len() && spec_rejects(
                        #[trigger] spec_rejected_views(rejected@)[k],
                        all[j],
                    ),
        decreases stack@.len(),
    {
        let ghost i = all.len() - stack@.len();
        let ghost a_ids = accepted_ids@;
        let ghost r_ids = rejected_ids@;
        let ghost a_views = spec_accepted_views(accepted@);
        let ghost r_views = spec_rejected_views(rejected@);
        let item = stack.pop().unwrap();
        assert(item == all[i]);
        let id = item.transaction.id();
        assert(id == keys[i]);
        proof {
            assert forall|k: int| 0 <= k < a_ids.len() implies (#[trigger] a_ids[k]).spec_before(
                id,
            ) && a_ids[k] != id by {
                assert(spec_among(keys, i, a_ids[k]));
                let j = choose|j: int| 0 <= j < i && #[trigger] keys[j] == a_ids[k];
                assert(keys[j].spec_before(keys[i]));
                lemma_order_total(a_ids[k], id);
            }
            assert forall|k: int| 0 <= k < r_ids.len() implies (#[trigger] r_ids[k]).spec_before(
                id,
            ) && r_ids[k] != id by {
                assert(spec_among(keys, i, r_ids[k]));
                let j = choose|j: int| 0 <= j < i && #[trigger] keys[j] == r_ids[k];
                assert(keys[j].spec_before(keys[i]));
                lemma_order_total(r_ids[k], id);
            }
        }
        let AgreedItem { transaction, verdict } = item;
        match verdict {
            Verdict::Accept => {
                let position: u64 = accepted.len() as u64;
                accepted_ids.push(id);
                accepted.push(AcceptedTransaction { transaction, epoch, position });
                proof {
                    let views = spec_accepted_views(accepted@);
                    assert(views =~= a_views.push(views[a_views.len() as int]));
                    assert(spec_accepts(views[a_views.len() as int], all[i]));
                    assert forall|k: int| 0 <= k < accepted_ids@.len() implies spec_among(
                        keys,
                        i + 1,
                        #[trigger] accepted_ids@[k],
                    ) by {
                        if k < a_ids.len() {
                            assert(spec_among(keys, i, a_ids[k]));
                            let j = choose|j: int| 0 <= j < i && #[trigger] keys[j] == a_ids[k];
                            assert(0 <= j < i + 1 && keys[j] == accepted_ids@[k]);
                        } else {
                            assert(keys[i] == accepted_ids@[k]);
                        }
                    }
                    assert forall|k: int| 0 <= k < rejected_ids@.len() implies spec_among(
                        keys,
                        i + 1,
                        #[trigger] rejected_ids@[k],
                    ) by {
                        assert(spec_among(keys, i, r_ids[k]));
                        let j = choose|j: int| 0 <= j < i && #[trigger] keys[j] == r_ids[k];
                        assert(0 <= j < i + 1 && keys[j] == rejected_ids@[k]);
                    }
                    assert forall|j: int|
                        0 <= j < i + 1 && (#[trigger] all[j]).verdict is Accept implies exists|
                        k: int,
                    |
                        0 <= k < accepted@.len() && spec_accepts(#[trigger] views[k], all[j]) by {
                        if j < i {
                            let k = choose|k: int|
                                0 <= k < a_views.len() && spec_accepts(
                                    #[trigger] a_views[k],
                                    all[j],
                                );
                            assert(views[k] == a_views[k]);
                        } else {
                            assert(spec_accepts(views[a_views.len() as int], all[j]));
                        }
                    }
                    assert forall|j: int|
                        0 <= j < i + 1 && (#[trigger] all[j]).verdict is Reject implies exists|
                        k: int,
                    |
                        0 <= k < rejected@.len() && spec_rejects(#[trigger] r_views[k], all[j]) by {
                        assert(j < i);
                    }
                }
            },
            Verdict::Reject { reason } => {
                rejected_ids.push(id);
                rejected.push(RejectedTransaction { id, reason });
                proof {
                    let views = spec_rejected_views(rejected@);
                    assert(views =~= r_views.push(views[r_views.len() as int]));
                    assert(spec_rejects(views[r_views.len() as int], all[i]));
                    assert forall|k: int| 0 <= k < rejected_ids@.len() implies spec_among(
                        keys,
                        i + 1,
                        #[trigger] rejected_ids@[k],
                    ) by {
                        if k < r_ids.len() {
                            assert(spec_among(keys, i, r_ids[k]));
                            let j = choose|j: int| 0 <= j < i && #[trigger] keys[j] == r_ids[k];
                            assert(0 <= j < i + 1 && keys[j] == rejected_ids@[k]);
                        } else {
                            assert(keys[i] == rejected_ids@[k]);
                        }
                    }
                    assert forall|k: int| 0 <= k < accepted_ids@.len() implies spec_among(
                        keys,
                        i + 1,
                        #[trigger] accepted_ids@[k],
                    ) by {
                        assert(spec_among(keys, i, a_ids[k]));
                        let j = choose|j: int| 0 <= j < i && #[trigger] keys[j] == a_ids[k];
                        assert(0 <= j < i + 1 && keys[j] == accepted_ids@[k]);
                    }
                    assert forall|j: int|
                        0 <= j < i + 1 && (#[trigger] all[j]).verdict is Reject implies exists|
                        k: int,
                    |
                        0 <= k < rejected@.len() && spec_rejects(#[trigger] views[k], all[j]) by {
                        if j < i {
                            let k = choose|k: int|
                                0 <= k < r_views.len() && spec_rejects(
                                    #[trigger] r_views[k],
                                    all[j],
                                );
                            assert(views[k] == r_views[k]);
                        } else {
                            assert(spec_rejects(views[r_views.len() as int], all[j]));
                        }
                    }
                    assert forall|j: int|
                        0 <= j < i + 1 && (#[trigger] all[j]).verdict is Accept implies exists|
                        k: int,
                    |
                        0 <= k < accepted@.len() && spec_accepts(#[trigger] a_views[k], all[j]) by {
                        assert(j < i);
                    }
                }
            },
        }
    }
    let draft = EpochDraft {
        outcome: EpochOutcome {
            epoch_number: epoch,
            previous_hash,
            accepted: accepted_ids,
            rejected: rejected_ids,
        },
        accepted,
        rejected,
    };
    proof {
        assert forall|k: int| 0 <= k < draft@.outcome.accepted.len() implies spec_keys(
            all,
        ).contains(#[trigger] draft@.outcome.accepted[k]) by {
            assert(spec_among(keys, all.len() as int, draft@.outcome.accepted[k]));
            let j = choose|j: int|
                0 <= j < all.len() && #[trigger] keys[j] == draft@.outcome.accepted[k];
            assert(keys[j] == draft@.outcome.accepted[k]);
        }
        assert forall|k: int| 0 <= k < draft@.outcome.rejected.len() implies spec_keys(
            all,
        ).contains(#[trigger] draft@.outcome.rejected[k]) by {
            assert(spec_among(keys, all.len() as int, draft@.outcome.rejected[k]));
            let j = choose|j: int|
                0 <= j < all.len() && #[trigger] keys[j] == draft@.outcome.rejected[k];
            assert(keys[j] == draft@.outcome.rejected[k]);
        }
    }
    draft
}

} // verus!
