//! The one order of the transactions of an epoch.
//!
//! Peers collect transactions in the order in which they arrive. Before a
//! round proposes or commits them they are put in the order of their
//! identifiers, transactions that an epoch has already processed are left
//! out, and of several with one identifier the last is kept. The order that
//! comes out depends on the set of identifiers alone, so all peers derive
//! the same list.

use crate::epoch::{lemma_increasing_has_no_duplicates, spec_strictly_increasing};
use crate::ledger::Ledger;
use crate::transaction::{lemma_order_total, lemma_order_transitive, Transaction, TransactionId};
use vstd::prelude::*;

verus! {

/// Something that is listed by the identifier of a transaction.
pub trait Keyed: Sized {
    spec fn spec_key(&self) -> TransactionId;

    fn key(&self) -> (id: TransactionId)
        ensures
            id == self.spec_key(),
    ;
}

impl Keyed for Transaction {
    open spec fn spec_key(&self) -> TransactionId {
        self.spec_id()
    }

    fn key(&self) -> (id: TransactionId) {
        self.id()
    }
}

/// The identifiers of `items`, in their order.
pub open spec fn spec_keys<T: Keyed>(items: Seq<T>) -> Seq<TransactionId> {
    items.map_values(|item: T| item.spec_key())
}

/// Whether `item` is the last of `items` with its identifier.
pub open spec fn spec_last_with_key<T: Keyed>(items: Seq<T>, item: T) -> bool {
    exists|j: int|
        0 <= j < items.len() && #[trigger] items[j] == item && forall|later: int|
            j < later < items.len() ==> (#[trigger] items[later]).spec_key() != item.spec_key()
}

/// Whether `out` is the canonical list of `items` for a ledger that has
/// processed the identifiers of which `processed` holds: in the order of
/// identifiers, with every identifier of `items` that is not processed and
/// with no other, and for each identifier the last item of `items` that
/// has it.
pub open spec fn spec_canonical_of<T: Keyed>(
    out: Seq<T>,
    items: Seq<T>,
    processed: spec_fn(TransactionId) -> bool,
) -> bool {
    &&& spec_strictly_increasing(spec_keys(out))
    &&& forall|k: int| 0 <= k < out.len() ==> spec_last_with_key(items, #[trigger] out[k])
    &&& forall|k: int| 0 <= k < out.len() ==> !processed(#[trigger] spec_keys(out)[k])
    &&& forall|j: int|
        0 <= j < items.len() && !processed(#[trigger] spec_keys(items)[j]) ==> spec_keys(
            out,
        ).contains(spec_keys(items)[j])
}

/// Puts `item` in its place in `sorted`, unless an item with its identifier
/// is there already. Returns whether it was put in.
pub fn insert_sorted<T: Keyed>(sorted: &mut Vec<T>, item: T) -> (added: bool)
    requires
        spec_strictly_increasing(spec_keys(old(sorted)@)),
    ensures
        spec_strictly_increasing(spec_keys(final(sorted)@)),
        added == !spec_keys(old(sorted)@).contains(item.spec_key()),
        added ==> exists|k: int|
            0 <= k <= old(sorted)@.len() && final(sorted)@ == old(sorted)@.insert(k, item),
        !added ==> final(sorted)@ == old(sorted)@,
{
    let id = item.key();
    let ghost keys = spec_keys(sorted@);
    let mut k: usize = 0;
    while k < sorted.len() && sorted[k].key().before(&id)
        invariant
            k <= sorted@.len(),
            sorted@ == old(sorted)@,
            keys == spec_keys(sorted@),
            id == item.spec_key(),
            forall|j: int| 0 <= j < k ==> (#[trigger] keys[j]).spec_before(id),
        decreases sorted@.len() - k,
    {
        assert(sorted@[k as int].spec_key() == keys[k as int]);
        k += 1;
    }
    proof {
        assert forall|j: int| 0 <= j < k implies keys[j] != id by {
            lemma_order_total(keys[j], id);
        }
    }
    if k < sorted.len() {
        let here = sorted[k].key();
        assert(here == keys[k as int]);
        assert(!here.spec_before(id));
        if here.same(&id) {
            assert(keys.contains(id));
            return false;
        }
        proof {
            lemma_order_total(here, id);
            assert forall|j: int| k <= j < keys.len() implies id.spec_before(#[trigger] keys[j])
                && keys[j] != id by {
                if j > k {
                    lemma_order_transitive(id, keys[k as int], keys[j]);
                }
                lemma_order_total(id, keys[j]);
            }
        }
    }
    proof {
        assert(!keys.contains(id)) by {
            if keys.contains(id) {
                let j = choose|j: int| 0 <= j < keys.len() && keys[j] == id;
                assert(keys[j] == id);
            }
        }
    }
    sorted.insert(k, item);
    proof {
        let after = spec_keys(sorted@);
        assert(after =~= keys.insert(k as int, id));
        assert forall|i: int, j: int| 0 <= i < j < after.len() implies after[i].spec_before(
            after[j],
        ) by {
            if j < k {
                assert(after[i] == keys[i] && after[j] == keys[j]);
            } else if j == k {
                assert(after[i] == keys[i]);
            } else if i < k {
                assert(after[i] == keys[i] && after[j] == keys[j - 1]);
            } else if i == k {
                assert(after[j] == keys[j - 1]);
            } else {
                assert(after[i] == keys[i - 1] && after[j] == keys[j - 1]);
            }
        }
    }
    true
}

/// The canonical list of `items`: see [`spec_canonical_of`].
pub fn canonicalize<T: Keyed>(items: Vec<T>, ledger: &Ledger) -> (out: Vec<T>)
    ensures
        spec_canonical_of(out@, items@, |id: TransactionId| ledger.spec_is_processed(id)),
{
    let ghost processed = |id: TransactionId| ledger.spec_is_processed(id);
    let ghost all = items@;
    let mut items = items;
    let mut out: Vec<T> = Vec::new();
    while items.len() > 0
        invariant
            items@.len() <= all.len(),
            items@ == all.take(items@.len() as int),
            processed == |id: TransactionId| ledger.spec_is_processed(id),
            spec_strictly_increasing(spec_keys(out@)),
            forall|k: int| 0 <= k < out@.len() ==> spec_last_with_key(all, #[trigger] out@[k]),
            forall|k: int| 0 <= k < out@.len() ==> !processed(#[trigger] spec_keys(out@)[k]),
            forall|j: int|
                items@.len() <= j < all.len() && !processed(#[trigger] spec_keys(all)[j])
                    ==> spec_keys(out@).contains(spec_keys(all)[j]),
        decreases items@.len(),
    {
        let ghost before = out@;
        let ghost n = items@.len() - 1;
        let item = items.pop().unwrap();
        assert(item == all[n]);
        assert(items@ =~= all.take(n));
        let id = item.key();
        assert(id == spec_keys(all)[n]);
        if !ledger.is_processed(&id) {
            let added = insert_sorted(&mut out, item);
            proof {
                if added {
                    let k = choose|k: int|
                        0 <= k <= before.len() && out@ == before.insert(k, item);
                    assert(spec_last_with_key(all, item)) by {
                        assert forall|later: int| n < later < all.len() implies (
                        #[trigger] all[later]).spec_key() != id by {
                            if all[later].spec_key() == id {
                                assert(spec_keys(all)[later] == id);
                                assert(spec_keys(before).contains(spec_keys(all)[later]));
                            }
                        }
                        assert(all[n] == item);
                    }
                    assert forall|m: int| 0 <= m < out@.len() implies spec_last_with_key(
                        all,
                        #[trigger] out@[m],
                    ) && !processed(spec_keys(out@)[m]) by {
                        if m < k {
                            assert(out@[m] == before[m]);
                            assert(spec_keys(before)[m] == spec_keys(out@)[m]);
                        } else if m == k {
                            assert(out@[m] == all[n]);
                        } else {
                            assert(out@[m] == before[m - 1]);
                            assert(spec_keys(before)[m - 1] == spec_keys(out@)[m]);
                        }
                    }
                    assert forall|id2: TransactionId| spec_keys(before).contains(id2)
                        || id2 == id implies spec_keys(out@).contains(id2) by {
                        if id2 == id {
                            assert(spec_keys(out@)[k] == id);
                        } else {
                            let m = choose|m: int|
                                0 <= m < before.len() && spec_keys(before)[m] == id2;
                            let m2 = if m < k {
                                m
                            } else {
                                m + 1
                            };
                            assert(spec_keys(out@)[m2] == id2);
                        }
                    }
                }
                assert forall|j: int|
                    n <= j < all.len() && !processed(#[trigger] spec_keys(all)[j])
                        implies spec_keys(out@).contains(spec_keys(all)[j]) by {
                    if j > n {
                        assert(spec_keys(before).contains(spec_keys(all)[j]));
                    }
                }
            }
        }
    }
    proof {
        assert forall|k: int| 0 <= k < out@.len() implies !processed(
            #[trigger] spec_keys(out@)[k],
        ) by {}
    }
    out
}

/// Two lists in the order of identifiers with the same identifiers are the
/// same list: the canonical order depends on nothing but the set.
pub proof fn lemma_canonical_order_unique(a: Seq<TransactionId>, b: Seq<TransactionId>)
    requires
        spec_strictly_increasing(a),
        spec_strictly_increasing(b),
        a.to_set() == b.to_set(),
    ensures
        a == b,
    decreases a.len(),
{
    lemma_increasing_has_no_duplicates(a);
    lemma_increasing_has_no_duplicates(b);
    a.unique_seq_to_set();
    b.unique_seq_to_set();
    assert(a.len() == b.len());
    if a.len() > 0 {
        let x = a.last();
        let y = b.last();
        assert(a.to_set().contains(x)) by {
            assert(a[a.len() - 1] == x);
        }
        assert(b.to_set().contains(y)) by {
            assert(b[b.len() - 1] == y);
        }
        let k = choose|k: int| 0 <= k < b.len() && b[k] == x;
        let m = choose|m: int| 0 <= m < a.len() && a[m] == y;
        lemma_order_total(x, y);
        if x != y {
            assert(k < b.len() - 1);
            assert(m < a.len() - 1);
            assert(b[k].spec_before(b[b.len() - 1]));
            assert(a[m].spec_before(a[a.len() - 1]));
        }
        let a0 = a.drop_last();
        let b0 = b.drop_last();
        assert forall|id: TransactionId| a0.to_set().contains(id) <==> b0.to_set().contains(
            id,
        ) by {
            if a0.contains(id) {
                let i = choose|i: int| 0 <= i < a0.len() && a0[i] == id;
                assert(a[i] == id);
                assert(a.to_set().contains(id));
                let j = choose|j: int| 0 <= j < b.len() && b[j] == id;
                assert(j < b.len() - 1);
                assert(b0[j] == id);
            }
            if b0.contains(id) {
                let i = choose|i: int| 0 <= i < b0.len() && b0[i] == id;
                assert(b[i] == id);
                assert(b.to_set().contains(id));
                let j = choose|j: int| 0 <= j < a.len() && a[j] == id;
                assert(j < a.len() - 1);
                assert(a0[j] == id);
            }
        }
        assert(a0.to_set() =~= b0.to_set());
        assert(spec_strictly_increasing(a0)) by {
            assert forall|i: int, j: int| 0 <= i < j < a0.len() implies a0[i].spec_before(
                a0[j],
            ) by {
                assert(a[i].spec_before(a[j]));
            }
        }
        assert(spec_strictly_increasing(b0)) by {
            assert forall|i: int, j: int| 0 <= i < j < b0.len() implies b0[i].spec_before(
                b0[j],
            ) by {
                assert(b[i].spec_before(b[j]));
            }
        }
        lemma_canonical_order_unique(a0, b0);
        assert(a =~= a0.push(x));
        assert(b =~= b0.push(y));
    } else {
        assert(a =~= b);
    }
}

} // verus!
