//! Epoch outcomes, their digest and the chain verifier.
//!
//! The outcome of an epoch lists the identifiers of the transactions that the
//! epoch accepted and of those it rejected, each list in the order of
//! identifiers, and names the outcome before it by its digest. The federation
//! signs the digest of the outcome. Whoever holds the federation's public key
//! can check a history of signed outcomes link by link.

use crate::crypto::{sha256_of, signature_verifies, spec_sha256, spec_signature_verifies};
use crate::encoding::{spec_varint, write_varint};
use crate::transaction::{lemma_order_total, lemma_order_transitive, TransactionId};
use vstd::prelude::*;

verus! {

/// The bytes of `ids`, one identifier after the other.
pub open spec fn spec_concat_ids(ids: Seq<TransactionId>) -> Seq<u8>
    decreases ids.len(),
{
    if ids.len() == 0 {
        Seq::empty()
    } else {
        spec_concat_ids(ids.drop_last()) + ids.last().0@
    }
}

/// A list of identifiers: their number, then the identifiers.
pub open spec fn spec_id_list(ids: Seq<TransactionId>) -> Seq<u8> {
    spec_varint(ids.len() as u64) + spec_concat_ids(ids)
}

/// An optional digest: `0`, or `1` and the digest.
pub open spec fn spec_optional_hash(hash: Option<[u8; 32]>) -> Seq<u8> {
    match hash {
        None => seq![0u8],
        Some(h) => seq![1u8] + h@,
    }
}

/// Whether each identifier comes before all that follow it.
pub open spec fn spec_strictly_increasing(ids: Seq<TransactionId>) -> bool {
    forall|i: int, j: int| 0 <= i < j < ids.len() ==> ids[i].spec_before(ids[j])
}

/// Whether the two lists have no identifier in common.
pub open spec fn spec_disjoint(a: Seq<TransactionId>, b: Seq<TransactionId>) -> bool {
    forall|i: int, j: int| 0 <= i < a.len() && 0 <= j < b.len() ==> a[i] != b[j]
}

/// What an epoch agreed on.
pub struct EpochOutcome {
    pub epoch_number: u64,
    /// Digest of the outcome of the epoch before, `None` for the first.
    pub previous_hash: Option<[u8; 32]>,
    pub accepted: Vec<TransactionId>,
    pub rejected: Vec<TransactionId>,
}

/// The mathematical value of an [`EpochOutcome`].
pub struct EpochOutcomeView {
    pub epoch_number: u64,
    pub previous_hash: Option<[u8; 32]>,
    pub accepted: Seq<TransactionId>,
    pub rejected: Seq<TransactionId>,
}

impl View for EpochOutcome {
    type V = EpochOutcomeView;

    open spec fn view(&self) -> EpochOutcomeView {
        EpochOutcomeView {
            epoch_number: self.epoch_number,
            previous_hash: self.previous_hash,
            accepted: self.accepted@,
            rejected: self.rejected@,
        }
    }
}

impl EpochOutcomeView {
    /// The bytes that are hashed: the epoch number, the digest of the
    /// outcome before, the accepted and the rejected identifiers.
    pub open spec fn spec_canonical_bytes(self) -> Seq<u8> {
        spec_varint(self.epoch_number) + spec_optional_hash(self.previous_hash) + spec_id_list(
            self.accepted,
        ) + spec_id_list(self.rejected)
    }

    /// The digest that the federation signs and that the next outcome names.
    pub open spec fn spec_digest(self) -> Seq<u8> {
        spec_sha256(self.spec_canonical_bytes())
    }

    /// Whether the lists are in the one order that all peers derive: each in
    /// the order of identifiers, without repetition, and no identifier in
    /// both.
    pub open spec fn spec_canonical(self) -> bool {
        &&& spec_strictly_increasing(self.accepted)
        &&& spec_strictly_increasing(self.rejected)
        &&& spec_disjoint(self.accepted, self.rejected)
    }

    /// Whether this outcome names `previous` as the outcome before it.
    pub open spec fn spec_follows(self, previous: EpochOutcomeView) -> bool {
        &&& self.epoch_number == previous.epoch_number + 1
        &&& self.previous_hash matches Some(h)
        &&& h@ == previous.spec_digest()
    }

    /// Whether this outcome can stand first in a history.
    pub open spec fn spec_first(self) -> bool {
        self.epoch_number == 0 && self.previous_hash is None
    }
}

fn push_bytes32(bytes: &[u8; 32], out: &mut Vec<u8>)
    ensures
        final(out)@ == old(out)@ + bytes@,
{
    let mut i: usize = 0;
    while i < 32
        invariant
            i <= 32,
            out@ == old(out)@ + bytes@.take(i as int),
        decreases 32 - i,
    {
        out.push(bytes[i]);
        assert(out@ =~= old(out)@ + bytes@.take(i + 1));
        i += 1;
    }
    assert(bytes@.take(32) =~= bytes@);
}

fn write_id_list(ids: &Vec<TransactionId>, out: &mut Vec<u8>)
    ensures
        final(out)@ == old(out)@ + spec_id_list(ids@),
{
    write_varint(ids.len() as u64, out);
    let ghost start = out@;
    let mut i: usize = 0;
    assert(out@ =~= start + spec_concat_ids(ids@.take(0)));
    while i < ids.len()
        invariant
            i <= ids@.len(),
            out@ == start + spec_concat_ids(ids@.take(i as int)),
        decreases ids@.len() - i,
    {
        push_bytes32(&ids[i].0, out);
        proof {
            let next = ids@.take(i + 1);
            assert(next.drop_last() =~= ids@.take(i as int));
            assert(next.last() == ids@[i as int]);
            assert(out@ =~= start + spec_concat_ids(next));
        }
        i += 1;
    }
    assert(ids@.take(ids@.len() as int) =~= ids@);
    assert(out@ =~= old(out)@ + spec_id_list(ids@));
}

fn same_bytes32(a: &[u8; 32], b: &[u8; 32]) -> (eq: bool)
    ensures
        eq == (a@ == b@),
{
    let mut i: usize = 0;
    while i < 32
        invariant
            i <= 32,
            forall|j: int| 0 <= j < i ==> a@[j] == b@[j],
        decreases 32 - i,
    {
        if a[i] != b[i] {
            return false;
        }
        i += 1;
    }
    assert(a@ =~= b@);
    true
}

fn contains_id(ids: &Vec<TransactionId>, id: &TransactionId) -> (found: bool)
    ensures
        found == ids@.contains(*id),
{
    let mut i: usize = 0;
    while i < ids.len()
        invariant
            i <= ids@.len(),
            forall|j: int| 0 <= j < i ==> ids@[j] != *id,
        decreases ids@.len() - i,
    {
        if ids[i].same(id) {
            return true;
        }
        i += 1;
    }
    false
}

fn strictly_increasing(ids: &Vec<TransactionId>) -> (ok: bool)
    ensures
        ok == spec_strictly_increasing(ids@),
{
    if ids.len() < 2 {
        return true;
    }
    let mut k: usize = 1;
    while k < ids.len()
        invariant
            1 <= k <= ids@.len(),
            forall|i: int, j: int| 0 <= i < j < k ==> ids@[i].spec_before(ids@[j]),
        decreases ids@.len() - k,
    {
        if !ids[k - 1].before(&ids[k]) {
            return false;
        }
        proof {
            assert forall|i: int, j: int| 0 <= i < j < k + 1 implies ids@[i].spec_before(
                ids@[j],
            ) by {
                if j == k && i < k - 1 {
                    lemma_order_transitive(ids@[i], ids@[k - 1], ids@[k as int]);
                }
            }
        }
        k += 1;
    }
    true
}

fn disjoint(a: &Vec<TransactionId>, b: &Vec<TransactionId>) -> (ok: bool)
    ensures
        ok == spec_disjoint(a@, b@),
{
    let mut i: usize = 0;
    while i < a.len()
        invariant
            i <= a@.len(),
            forall|k: int, j: int| 0 <= k < i && 0 <= j < b@.len() ==> a@[k] != b@[j],
        decreases a@.len() - i,
    {
        if contains_id(b, &a[i]) {
            proof {
                let j = choose|j: int| 0 <= j < b@.len() && b@[j] == a@[i as int];
                assert(a@[i as int] == b@[j]);
            }
            return false;
        }
        i += 1;
    }
    true
}

impl EpochOutcome {
    /// The bytes that are hashed.
    pub fn canonical_bytes(&self) -> (bytes: Vec<u8>)
        ensures
            bytes@ == self@.spec_canonical_bytes(),
    {
        let mut bytes: Vec<u8> = Vec::new();
        write_varint(self.epoch_number, &mut bytes);
        match &self.previous_hash {
            None => {
                bytes.push(0u8);
            },
            Some(h) => {
                bytes.push(1u8);
                push_bytes32(h, &mut bytes);
            },
        }
        assert(bytes@ =~= spec_varint(self.epoch_number) + spec_optional_hash(
            self.previous_hash,
        ));
        write_id_list(&self.accepted, &mut bytes);
        write_id_list(&self.rejected, &mut bytes);
        bytes
    }

    /// The digest of this outcome.
    pub fn digest(&self) -> (d: [u8; 32])
        ensures
            d@ == self@.spec_digest(),
    {
        let bytes = self.canonical_bytes();
        sha256_of(bytes.as_slice())
    }

    /// Whether the lists are in the one order that all peers derive.
    pub fn is_canonical(&self) -> (ok: bool)
        ensures
            ok == self@.spec_canonical(),
    {
        strictly_increasing(&self.accepted) && strictly_increasing(&self.rejected) && disjoint(
            &self.accepted,
            &self.rejected,
        )
    }

    /// Whether this outcome names `previous` as the outcome before it.
    pub fn follows(&self, previous: &EpochOutcome) -> (ok: bool)
        ensures
            ok == self@.spec_follows(previous@),
    {
        if previous.epoch_number == u64::MAX || self.epoch_number != previous.epoch_number + 1 {
            return false;
        }
        match &self.previous_hash {
            None => false,
            Some(h) => {
                let d = previous.digest();
                same_bytes32(h, &d)
            },
        }
    }

    /// Whether this outcome can stand first in a history.
    pub fn is_first(&self) -> (ok: bool)
        ensures
            ok == self@.spec_first(),
    {
        self.epoch_number == 0 && self.previous_hash.is_none()
    }
}

impl Clone for EpochOutcome {
    fn clone(&self) -> (c: EpochOutcome)
        ensures
            c@ == self@,
    {
        EpochOutcome {
            epoch_number: self.epoch_number,
            previous_hash: self.previous_hash,
            accepted: self.accepted.clone(),
            rejected: self.rejected.clone(),
        }
    }
}

/// The outcome of an epoch with the federation's threshold signature over
/// its digest.
pub struct SignedEpochOutcome {
    pub outcome: EpochOutcome,
    pub signature: [u8; 96],
}

/// The mathematical value of a [`SignedEpochOutcome`].
pub struct SignedEpochOutcomeView {
    pub outcome: EpochOutcomeView,
    pub signature: [u8; 96],
}

impl View for SignedEpochOutcome {
    type V = SignedEpochOutcomeView;

    open spec fn view(&self) -> SignedEpochOutcomeView {
        SignedEpochOutcomeView { outcome: self.outcome@, signature: self.signature }
    }
}

impl SignedEpochOutcomeView {
    /// The digest by which the next outcome names this one.
    pub open spec fn spec_hash(self) -> Seq<u8> {
        self.outcome.spec_digest()
    }

    /// Whether the signature is the federation's over the digest.
    pub open spec fn spec_signed_by(self, federation_key: [u8; 48]) -> bool {
        spec_signature_verifies(federation_key@, self.signature@, self.outcome.spec_digest())
    }

    /// Whether this outcome is a valid successor of `previous`: it carries
    /// the federation's signature, the next epoch number and the digest of
    /// `previous`.
    pub open spec fn spec_verify(
        self,
        previous: SignedEpochOutcomeView,
        federation_key: [u8; 48],
    ) -> bool {
        &&& self.spec_signed_by(federation_key)
        &&& self.outcome.spec_follows(previous.outcome)
    }

    /// Whether this outcome is a valid first entry of a history.
    pub open spec fn spec_verify_first(self, federation_key: [u8; 48]) -> bool {
        &&& self.spec_signed_by(federation_key)
        &&& self.outcome.spec_first()
    }
}

impl SignedEpochOutcome {
    /// The digest by which the next outcome names this one.
    pub fn hash(&self) -> (h: [u8; 32])
        ensures
            h@ == self@.spec_hash(),
    {
        self.outcome.digest()
    }

    /// Whether the signature is the federation's over the digest.
    pub fn signed_by(&self, federation_key: &[u8; 48]) -> (ok: bool)
        ensures
            ok == self@.spec_signed_by(*federation_key),
    {
        let d = self.outcome.digest();
        signature_verifies(federation_key, &self.signature, &d)
    }

    /// Checks one link of a history.
    pub fn verify(&self, previous: &SignedEpochOutcome, federation_key: &[u8; 48]) -> (ok: bool)
        ensures
            ok == self@.spec_verify(previous@, *federation_key),
    {
        self.signed_by(federation_key) && self.outcome.follows(&previous.outcome)
    }

    /// Checks the first entry of a history.
    pub fn verify_first(&self, federation_key: &[u8; 48]) -> (ok: bool)
        ensures
            ok == self@.spec_verify_first(*federation_key),
    {
        self.signed_by(federation_key) && self.outcome.is_first()
    }
}

impl Clone for SignedEpochOutcome {
    fn clone(&self) -> (c: SignedEpochOutcome)
        ensures
            c@ == self@,
    {
        SignedEpochOutcome { outcome: self.outcome.clone(), signature: self.signature }
    }
}

/// The mathematical values of the entries of a history.
pub open spec fn spec_outcome_views(history: Seq<SignedEpochOutcome>) -> Seq<
    SignedEpochOutcomeView,
> {
    history.map_values(|s: SignedEpochOutcome| s@)
}

/// Whether entry `n` of `history` verifies: against the entry before it, or
/// as a first entry where `n` is 0.
pub open spec fn spec_link_holds(
    history: Seq<SignedEpochOutcomeView>,
    n: int,
    federation_key: [u8; 48],
) -> bool {
    if n == 0 {
        history[0].spec_verify_first(federation_key)
    } else {
        history[n].spec_verify(history[n - 1], federation_key)
    }
}

/// Whether every entry of `history` verifies.
pub open spec fn spec_history_verifies(
    history: Seq<SignedEpochOutcomeView>,
    federation_key: [u8; 48],
) -> bool {
    forall|n: int| 0 <= n < history.len() ==> spec_link_holds(history, n, federation_key)
}

/// Checks a history from its first entry on. Returns the position of the
/// first entry that does not verify, or `None` where every entry does.
pub fn verify_history(history: &Vec<SignedEpochOutcome>, federation_key: &[u8; 48]) -> (bad:
    Option<usize>)
    ensures
        match bad {
            None => spec_history_verifies(spec_outcome_views(history@), *federation_key),
            Some(k) => k < history@.len() && !spec_link_holds(
                spec_outcome_views(history@),
                k as int,
                *federation_key,
            ) && forall|n: int|
                0 <= n < k ==> spec_link_holds(spec_outcome_views(history@), n, *federation_key),
        },
{
    let ghost views = spec_outcome_views(history@);
    let mut k: usize = 0;
    while k < history.len()
        invariant
            k <= history@.len(),
            views == spec_outcome_views(history@),
            forall|n: int| 0 <= n < k ==> spec_link_holds(views, n, *federation_key),
        decreases history@.len() - k,
    {
        let ok = if k == 0 {
            history[0].verify_first(federation_key)
        } else {
            history[k].verify(&history[k - 1], federation_key)
        };
        if !ok {
            return Some(k);
        }
        k += 1;
    }
    None
}

/// In a history that verifies, entry `n` has epoch number `n`.
pub proof fn lemma_verified_history_is_numbered(
    history: Seq<SignedEpochOutcomeView>,
    federation_key: [u8; 48],
    n: int,
)
    requires
        0 <= n < history.len(),
        spec_history_verifies(history, federation_key),
    ensures
        history[n].outcome.epoch_number == n,
    decreases n,
{
    assert(spec_link_holds(history, n, federation_key));
    if n > 0 {
        lemma_verified_history_is_numbered(history, federation_key, n - 1);
    }
}

/// A list in the order of identifiers holds no identifier twice.
pub proof fn lemma_increasing_has_no_duplicates(ids: Seq<TransactionId>)
    requires
        spec_strictly_increasing(ids),
    ensures
        ids.no_duplicates(),
{
    assert forall|i: int, j: int| 0 <= i < ids.len() && 0 <= j < ids.len() && i != j implies ids[i]
        != ids[j] by {
        lemma_order_total(ids[i], ids[j]);
        if i < j {
            assert(ids[i].spec_before(ids[j]));
        } else {
            assert(ids[j].spec_before(ids[i]));
        }
    }
}

} // verus!
