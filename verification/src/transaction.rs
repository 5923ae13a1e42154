//! Transactions and their identifiers.
//!
//! A transaction is an opaque client payload. It is identified by the SHA-256
//! digest of that payload, and identifiers are ordered byte by byte, which is
//! the order in which every peer lists the transactions of an epoch.

use crate::crypto::{sha256_of, spec_sha256};
use vstd::prelude::*;

verus! {

/// Whether `k` is the first position at which `a` and `b` differ.
pub open spec fn spec_differ_first_at(a: Seq<u8>, b: Seq<u8>, k: int) -> bool {
    &&& 0 <= k < a.len()
    &&& k < b.len()
    &&& a[k] != b[k]
    &&& forall|j: int| 0 <= j < k ==> a[j] == b[j]
}

/// Whether `a` comes before `b`, byte by byte.
pub open spec fn spec_bytes_before(a: Seq<u8>, b: Seq<u8>) -> bool {
    exists|k: int| spec_differ_first_at(a, b, k) && a[k] < b[k]
}

/// Content hash of a transaction.
#[derive(Clone, Copy, Debug, PartialEq, Eq)]
pub struct TransactionId(pub [u8; 32]);

impl TransactionId {
    /// Whether `self` comes before `other` in the order of identifiers.
    pub open spec fn spec_before(self, other: TransactionId) -> bool {
        spec_bytes_before(self.0@, other.0@)
    }

    /// Compares two identifiers. Returns whether they are equal and whether
    /// `self` comes first.
    fn compare(&self, other: &TransactionId) -> (r: (bool, bool))
        ensures
            r.0 == (*self == *other),
            r.1 == self.spec_before(*other),
    {
        let mut i: usize = 0;
        while i < 32
            invariant
                i <= 32,
                forall|j: int| 0 <= j < i ==> self.0@[j] == other.0@[j],
            decreases 32 - i,
        {
            if self.0[i] != other.0[i] {
                let first = self.0[i] < other.0[i];
                proof {
                    assert(spec_differ_first_at(self.0@, other.0@, i as int));
                    lemma_first_difference_unique(self.0@, other.0@, i as int);
                }
                return (false, first);
            }
            i += 1;
        }
        proof {
            assert(self.0@ =~= other.0@);
            assert(self.0 =~= other.0);
        }
        (true, false)
    }

    /// Whether both identifiers are the same.
    pub fn same(&self, other: &TransactionId) -> (eq: bool)
        ensures
            eq == (*self == *other),
    {
        self.compare(other).0
    }

    /// Whether `self` comes before `other` in the order of identifiers.
    pub fn before(&self, other: &TransactionId) -> (lt: bool)
        ensures
            lt == self.spec_before(*other),
    {
        self.compare(other).1
    }
}

/// Two sequences differ first at one position only.
pub proof fn lemma_first_difference_unique(a: Seq<u8>, b: Seq<u8>, k: int)
    requires
        spec_differ_first_at(a, b, k),
    ensures
        forall|m: int| spec_differ_first_at(a, b, m) ==> m == k,
{
    assert forall|m: int| spec_differ_first_at(a, b, m) implies m == k by {
        if m < k {
            assert(a[m] == b[m]);
        } else if k < m {
            assert(a[k] == b[k]);
        }
    }
}

/// Two sequences of one length are equal or differ first somewhere below
/// `n`, as far as their first `n` bytes go.
proof fn lemma_first_difference_exists(a: Seq<u8>, b: Seq<u8>, n: int)
    requires
        a.len() == b.len(),
        0 <= n <= a.len(),
    ensures
        (forall|j: int| 0 <= j < n ==> a[j] == b[j]) || exists|k: int|
            k < n && spec_differ_first_at(a, b, k),
    decreases n,
{
    if n > 0 {
        lemma_first_difference_exists(a, b, n - 1);
        if forall|j: int| 0 <= j < n - 1 ==> a[j] == b[j] {
            if a[n - 1] != b[n - 1] {
                assert(spec_differ_first_at(a, b, n - 1));
            }
        } else {
            let k = choose|k: int| k < n - 1 && spec_differ_first_at(a, b, k);
            assert(k < n && spec_differ_first_at(a, b, k));
        }
    }
}

/// The order of identifiers is strict and total: of two identifiers exactly
/// one of "before", "equal" and "after" holds.
pub proof fn lemma_order_total(a: TransactionId, b: TransactionId)
    ensures
        a.spec_before(b) || a == b || b.spec_before(a),
        !(a.spec_before(b) && b.spec_before(a)),
        !(a.spec_before(b) && a == b),
{
    lemma_first_difference_exists(a.0@, b.0@, 32);
    if forall|j: int| 0 <= j < 32 ==> a.0@[j] == b.0@[j] {
        assert(a.0@ =~= b.0@);
        assert(a.0 =~= b.0);
    } else {
        let k = choose|k: int| k < 32 && spec_differ_first_at(a.0@, b.0@, k);
        assert(spec_differ_first_at(b.0@, a.0@, k));
        lemma_first_difference_unique(a.0@, b.0@, k);
        lemma_first_difference_unique(b.0@, a.0@, k);
    }
    if a.spec_before(b) && b.spec_before(a) {
        let k1 = choose|k: int| spec_differ_first_at(a.0@, b.0@, k) && a.0@[k] < b.0@[k];
        let k2 = choose|k: int| spec_differ_first_at(b.0@, a.0@, k) && b.0@[k] < a.0@[k];
        assert(spec_differ_first_at(a.0@, b.0@, k2));
        lemma_first_difference_unique(a.0@, b.0@, k1);
    }
}

/// The order of identifiers is transitive.
pub proof fn lemma_order_transitive(a: TransactionId, b: TransactionId, c: TransactionId)
    requires
        a.spec_before(b),
        b.spec_before(c),
    ensures
        a.spec_before(c),
{
    let k1 = choose|k: int| spec_differ_first_at(a.0@, b.0@, k) && a.0@[k] < b.0@[k];
    let k2 = choose|k: int| spec_differ_first_at(b.0@, c.0@, k) && b.0@[k] < c.0@[k];
    let k = if k1 <= k2 {
        k1
    } else {
        k2
    };
    assert forall|j: int| 0 <= j < k implies a.0@[j] == c.0@[j] by {
        assert(a.0@[j] == b.0@[j]);
        assert(b.0@[j] == c.0@[j]);
    }
    if k1 < k2 {
        assert(b.0@[k1] == c.0@[k1]);
    } else if k2 < k1 {
        assert(a.0@[k2] == b.0@[k2]);
    }
    assert(spec_differ_first_at(a.0@, c.0@, k) && a.0@[k] < c.0@[k]);
}

/// An opaque client payload together with its identifier.
pub struct Transaction {
    payload: Vec<u8>,
    id: TransactionId,
}

impl Transaction {
    /// The identifier of the transaction with payload `payload`.
    pub open spec fn spec_id_of(payload: Seq<u8>) -> Seq<u8> {
        spec_sha256(payload)
    }

    /// The payload as the client gave it.
    pub closed spec fn spec_payload(&self) -> Seq<u8> {
        self.payload@
    }

    /// The identifier of this transaction.
    pub closed spec fn spec_id(&self) -> TransactionId {
        self.id
    }

    /// The identifier is the content hash of the payload. This holds of
    /// every transaction.
    #[verifier::type_invariant]
    pub open spec fn wf(&self) -> bool {
        self.spec_id().0@ == Self::spec_id_of(self.spec_payload())
    }

    /// The transaction with the payload `payload`, identified by the
    /// content hash of it.
    pub fn new(payload: Vec<u8>) -> (t: Transaction)
        ensures
            t.wf(),
            t.spec_payload() == payload@,
            t.spec_id().0@ == Self::spec_id_of(payload@),
    {
        let id = TransactionId(sha256_of(payload.as_slice()));
        Transaction { payload, id }
    }

    pub fn id(&self) -> (id: TransactionId)
        ensures
            id == self.spec_id(),
    {
        self.id
    }

    pub fn payload(&self) -> (p: &Vec<u8>)
        ensures
            p@ == self.spec_payload(),
    {
        &self.payload
    }
}

impl Clone for Transaction {
    fn clone(&self) -> (t: Transaction)
        ensures
            t.spec_payload() == self.spec_payload(),
            t.spec_id() == self.spec_id(),
    {
        proof {
            use_type_invariant(self);
        }
        Transaction { payload: self.payload.clone(), id: self.id }
    }
}

} // verus!
