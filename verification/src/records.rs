//! The values of the records, as bytes.
//!
//! A signed epoch outcome is stored as the bytes that are hashed, followed
//! by the signature; the record of an accepted transaction as its epoch, its
//! place and its payload; the pointer to the last epoch as one number; the
//! reason of a rejection as its text in UTF-8 with its length; the client
//! configuration signature as its 96 bytes. Reading accepts exactly
//! the bytes that writing produces. Everything else is a corrupt record and
//! is reported as such.

use crate::db::DecodingError;
use crate::encoding::{
    lemma_read_of_written, lemma_written_of_read, read_varint, spec_rest, spec_varint,
    write_varint,
};
use crate::epoch::{
    spec_concat_ids, spec_id_list, spec_optional_hash, EpochOutcome, SignedEpochOutcome,
    SignedEpochOutcomeView,
};
use crate::ledger::AcceptedTransaction;
use crate::transaction::{Transaction, TransactionId};
use vstd::prelude::*;
use vstd::utf8::{
    decode_utf8, decode_utf8_encode_utf8, encode_utf8, encode_utf8_valid_utf8, valid_utf8,
};

verus! {

/// The bytes of a signed epoch outcome.
pub open spec fn spec_signed_outcome_bytes(signed: SignedEpochOutcomeView) -> Seq<u8> {
    signed.outcome.spec_canonical_bytes() + signed.signature@
}

/// The bytes of the record of an accepted transaction: the epoch, the place
/// and the payload with its length.
pub open spec fn spec_accepted_bytes(epoch: u64, position: u64, payload: Seq<u8>) -> Seq<u8> {
    spec_varint(epoch) + spec_varint(position) + spec_varint(payload.len() as u64) + payload
}

/// The identifiers of a list take 32 bytes each, one after the other.
pub proof fn lemma_concat_ids_chunks(ids: Seq<TransactionId>)
    ensures
        spec_concat_ids(ids).len() == 32 * ids.len(),
        forall|i: int|
            0 <= i < ids.len() ==> spec_concat_ids(ids).subrange(32 * i, 32 * i + 32)
                == (#[trigger] ids[i]).0@,
    decreases ids.len(),
{
    if ids.len() > 0 {
        let front = ids.drop_last();
        lemma_concat_ids_chunks(front);
        let all = spec_concat_ids(ids);
        assert(all == spec_concat_ids(front) + ids.last().0@);
        assert forall|i: int| 0 <= i < ids.len() implies all.subrange(32 * i, 32 * i + 32) == (
        #[trigger] ids[i]).0@ by {
            if i < front.len() {
                assert(front[i] == ids[i]);
                assert(all.subrange(32 * i, 32 * i + 32) =~= spec_concat_ids(front).subrange(
                    32 * i,
                    32 * i + 32,
                ));
            } else {
                assert(all.subrange(32 * i, 32 * i + 32) =~= ids.last().0@);
            }
        }
    }
}

/// Reads a number at `pos`. It is read exactly where the bytes from `pos`
/// on begin with its encoding.
pub(crate) fn take_varint(data: &[u8], pos: usize) -> (r: Option<(u64, usize)>)
    requires
        pos <= data@.len(),
    ensures
        r matches Some((v, next)) ==> pos <= next <= data@.len() && data@.subrange(
            pos as int,
            next as int,
        ) == spec_varint(v),
        forall|v: u64, rest: Seq<u8>|
            data@.skip(pos as int) == #[trigger] (spec_varint(v) + rest) ==> r == Some(
                (v, (pos + spec_varint(v).len()) as usize),
            ),
{
    let r = read_varint(data, pos);
    proof {
        let tail = data@.skip(pos as int);
        assert(tail == spec_rest(data@, pos as nat));
        lemma_written_of_read(tail);
        if let Some((v, next)) = r {
            assert(data@.subrange(pos as int, next as int) =~= tail.subrange(0, next - pos));
        }
        assert forall|v: u64, rest: Seq<u8>| tail == #[trigger] (spec_varint(v) + rest) implies r
            == Some((v, (pos + spec_varint(v).len()) as usize)) by {
            lemma_read_of_written(v, rest);
        }
    }
    r
}

fn take_bytes32(data: &[u8], pos: usize) -> (r: Option<[u8; 32]>)
    requires
        pos <= data@.len(),
    ensures
        match r {
            Some(a) => pos + 32 <= data@.len() && a@ == data@.subrange(pos as int, pos + 32),
            None => pos + 32 > data@.len(),
        },
{
    if data.len() - pos < 32 {
        return None;
    }
    let len: usize = data.len();
    let mut a: [u8; 32] = [0u8; 32];
    let mut i: usize = 0;
    while i < 32
        invariant
            i <= 32,
            len == data@.len(),
            pos + 32 <= data@.len(),
            forall|j: int| 0 <= j < i ==> a@[j] == data@[pos + j],
        decreases 32 - i,
    {
        a[i] = data[pos + i];
        i += 1;
    }
    assert(a@ =~= data@.subrange(pos as int, pos + 32));
    Some(a)
}

fn take_bytes96(data: &[u8], pos: usize) -> (r: Option<[u8; 96]>)
    requires
        pos <= data@.len(),
    ensures
        match r {
            Some(a) => pos + 96 <= data@.len() && a@ == data@.subrange(pos as int, pos + 96),
            None => pos + 96 > data@.len(),
        },
{
    if data.len() - pos < 96 {
        return None;
    }
    let len: usize = data.len();
    let mut a: [u8; 96] = [0u8; 96];
    let mut i: usize = 0;
    while i < 96
        invariant
            i <= 96,
            len == data@.len(),
            pos + 96 <= data@.len(),
            forall|j: int| 0 <= j < i ==> a@[j] == data@[pos + j],
        decreases 96 - i,
    {
        a[i] = data[pos + i];
        i += 1;
    }
    assert(a@ =~= data@.subrange(pos as int, pos + 96));
    Some(a)
}

fn take_optional_hash(data: &[u8], pos: usize) -> (r: Option<(Option<[u8; 32]>, usize)>)
    requires
        pos <= data@.len(),
    ensures
        r matches Some((h, next)) ==> pos <= next <= data@.len() && data@.subrange(
            pos as int,
            next as int,
        ) == spec_optional_hash(h),
        forall|h: Option<[u8; 32]>, rest: Seq<u8>|
            data@.skip(pos as int) == #[trigger] (spec_optional_hash(h) + rest) ==> r == Some(
                (h, (pos + spec_optional_hash(h).len()) as usize),
            ),
{
    let ghost tail = data@.skip(pos as int);
    if pos >= data.len() {
        assert forall|h: Option<[u8; 32]>, rest: Seq<u8>|
            tail == #[trigger] (spec_optional_hash(h) + rest) implies false by {
            assert((spec_optional_hash(h) + rest).len() >= 1);
        }
        return None;
    }
    let flag = data[pos];
    assert(tail[0] == flag);
    if flag == 0 {
        proof {
            assert(data@.subrange(pos as int, pos + 1) =~= seq![0u8]);
            assert forall|h: Option<[u8; 32]>, rest: Seq<u8>|
                tail == #[trigger] (spec_optional_hash(h) + rest) implies h is None by {
                assert((spec_optional_hash(h) + rest)[0] == spec_optional_hash(h)[0]);
            }
        }
        return Some((None, pos + 1));
    }
    if flag != 1 {
        assert forall|h: Option<[u8; 32]>, rest: Seq<u8>|
            tail == #[trigger] (spec_optional_hash(h) + rest) implies false by {
            assert((spec_optional_hash(h) + rest)[0] == spec_optional_hash(h)[0]);
        }
        return None;
    }
    match take_bytes32(data, pos + 1) {
        Some(a) => {
            proof {
                assert(data@.subrange(pos as int, pos + 33) =~= seq![1u8] + a@);
                assert forall|h: Option<[u8; 32]>, rest: Seq<u8>|
                    tail == #[trigger] (spec_optional_hash(h) + rest) implies h == Some(a) by {
                    let e = spec_optional_hash(h);
                    assert((e + rest)[0] == e[0]);
                    let b = h->0;
                    assert(b@ =~= a@) by {
                        assert forall|j: int| 0 <= j < 32 implies b@[j] == a@[j] by {
                            assert((e + rest)[j + 1] == e[j + 1]);
                            assert(tail[j + 1] == data@[pos + 1 + j]);
                        }
                    }
                    assert(b =~= a);
                }
            }
            Some((Some(a), pos + 33))
        },
        None => {
            assert forall|h: Option<[u8; 32]>, rest: Seq<u8>|
                tail == #[trigger] (spec_optional_hash(h) + rest) implies false by {
                let e = spec_optional_hash(h);
                assert((e + rest)[0] == e[0]);
                assert((e + rest).len() >= 33);
            }
            None
        },
    }
}

fn take_id_list(data: &[u8], pos: usize) -> (r: Option<(Vec<TransactionId>, usize)>)
    requires
        pos <= data@.len(),
    ensures
        r matches Some((ids, next)) ==> pos <= next <= data@.len() && data@.subrange(
            pos as int,
            next as int,
        ) == spec_id_list(ids@),
        forall|ids: Seq<TransactionId>, rest: Seq<u8>|
            ids.len() <= u64::MAX && data@.skip(pos as int) == #[trigger] (spec_id_list(ids)
                + rest) ==> (r matches Some((found, next)) && found@ == ids && next == pos
                + spec_id_list(ids).len()),
{
    let ghost tail = data@.skip(pos as int);
    proof {
        assert forall|ids: Seq<TransactionId>, rest: Seq<u8>|
            tail == #[trigger] (spec_id_list(ids) + rest) implies tail == spec_varint(
            ids.len() as u64,
        ) + (spec_concat_ids(ids) + rest) by {
            assert(spec_id_list(ids) + rest =~= spec_varint(ids.len() as u64) + (spec_concat_ids(
                ids,
            ) + rest));
        }
    }
    let (count, start) = match take_varint(data, pos) {
        Some(read) => read,
        None => {
            return None;
        },
    };
    let ghost head = spec_varint(count);
    proof {
        assert forall|ids: Seq<TransactionId>, rest: Seq<u8>|
            ids.len() <= u64::MAX && tail == #[trigger] (spec_id_list(ids) + rest) implies ids.len()
            == count && start == pos + head.len() && data@.skip(start as int)
            == spec_concat_ids(ids) + rest by {
            let body = spec_concat_ids(ids) + rest;
            assert(tail == spec_varint(ids.len() as u64) + body);
            assert(data@.skip(start as int) =~= tail.skip(head.len() as int));
            assert(tail.skip(head.len() as int) =~= body);
        }
    }
    if (data.len() - start) / 32 < count as usize || count > usize::MAX as u64 / 32 {
        proof {
            assert forall|ids: Seq<TransactionId>, rest: Seq<u8>|
                ids.len() <= u64::MAX && tail == #[trigger] (spec_id_list(ids) + rest)
                implies false by {
                lemma_concat_ids_chunks(ids);
                assert((spec_concat_ids(ids) + rest).len() >= 32 * count);
            }
        }
        return None;
    }
    let n: usize = count as usize;
    let len: usize = data.len();
    let mut ids: Vec<TransactionId> = Vec::new();
    let mut i: usize = 0;
    while i < n
        invariant
            i <= n,
            len == data@.len(),
            start + 32 * n <= data@.len(),
            ids@.len() == i,
            forall|k: int|
                0 <= k < i ==> (#[trigger] ids@[k]).0@ == data@.subrange(
                    start + 32 * k,
                    start + 32 * k + 32,
                ),
        decreases n - i,
    {
        let a = take_bytes32(data, start + 32 * i).unwrap();
        ids.push(TransactionId(a));
        i += 1;
    }
    let next = start + 32 * n;
    proof {
        lemma_concat_ids_chunks(ids@);
        let body = data@.subrange(start as int, next as int);
        let c = spec_concat_ids(ids@);
        assert(body =~= c) by {
            assert forall|j: int| 0 <= j < body.len() implies body[j] == c[j] by {
                let k = j / 32;
                assert(0 <= k < n);
                let chunk = ids@[k].0@;
                assert(chunk == data@.subrange(start + 32 * k, start + 32 * k + 32));
                assert(chunk == c.subrange(32 * k, 32 * k + 32));
                assert(chunk[j - 32 * k] == c[j]);
                assert(chunk[j - 32 * k] == data@[start + j]);
            }
        }
        assert(data@.subrange(pos as int, next as int) =~= head + body);
        assert forall|other: Seq<TransactionId>, rest: Seq<u8>|
            other.len() <= u64::MAX && tail == #[trigger] (spec_id_list(other) + rest)
            implies ids@ == other && next == pos + spec_id_list(other).len() by {
            lemma_concat_ids_chunks(other);
            let after = data@.skip(start as int);
            assert(after == spec_concat_ids(other) + rest);
            assert forall|k: int| 0 <= k < n implies ids@[k] == other[k] by {
                let oc = spec_concat_ids(other);
                assert(oc.subrange(32 * k, 32 * k + 32) =~= after.subrange(32 * k, 32 * k + 32));
                assert(after.subrange(32 * k, 32 * k + 32) =~= data@.subrange(
                    start + 32 * k,
                    start + 32 * k + 32,
                ));
                assert(ids@[k].0@ == other[k].0@);
                assert(ids@[k].0 =~= other[k].0);
            }
            assert(ids@ =~= other);
        }
    }
    Some((ids, next))
}

fn push_all(bytes: &[u8], out: &mut Vec<u8>)
    ensures
        final(out)@ == old(out)@ + bytes@,
{
    let mut i: usize = 0;
    while i < bytes.len()
        invariant
            i <= bytes@.len(),
            out@ == old(out)@ + bytes@.take(i as int),
        decreases bytes@.len() - i,
    {
        out.push(bytes[i]);
        assert(out@ =~= old(out)@ + bytes@.take(i + 1));
        i += 1;
    }
    assert(bytes@.take(bytes@.len() as int) =~= bytes@);
}

/// Reads the epoch number and the optional digest that open an outcome.
fn take_head(data: &[u8], pos: usize) -> (r: Option<(u64, Option<[u8; 32]>, usize)>)
    requires
        pos <= data@.len(),
    ensures
        r matches Some((n, h, next)) ==> pos <= next <= data@.len() && data@.subrange(
            pos as int,
            next as int,
        ) == spec_varint(n) + spec_optional_hash(h),
        forall|n: u64, h: Option<[u8; 32]>, rest: Seq<u8>|
            data@.skip(pos as int) == #[trigger] (spec_varint(n) + spec_optional_hash(h) + rest)
                ==> r == Some(
                (n, h, (pos + spec_varint(n).len() + spec_optional_hash(h).len()) as usize),
            ),
{
    let ghost tail = data@.skip(pos as int);
    proof {
        assert forall|n: u64, h: Option<[u8; 32]>, rest: Seq<u8>|
            tail == #[trigger] (spec_varint(n) + spec_optional_hash(h) + rest) implies tail
            == spec_varint(n) + (spec_optional_hash(h) + rest) by {
            assert(spec_varint(n) + spec_optional_hash(h) + rest =~= spec_varint(n) + (
            spec_optional_hash(h) + rest));
        }
    }
    let (number, mark_a) = match take_varint(data, pos) {
        Some(read) => read,
        None => {
            return None;
        },
    };
    proof {
        assert forall|n: u64, h: Option<[u8; 32]>, rest: Seq<u8>|
            tail == #[trigger] (spec_varint(n) + spec_optional_hash(h) + rest) implies n == number
            && mark_a == pos + spec_varint(n).len() && data@.skip(mark_a as int) == spec_optional_hash(h)
            + rest by {
            let head = spec_varint(n);
            let body = spec_optional_hash(h) + rest;
            assert(tail == head + body);
            assert(data@.skip(mark_a as int) =~= tail.skip(head.len() as int));
            assert(tail.skip(head.len() as int) =~= body);
        }
    }
    let (hash, mark_b) = match take_optional_hash(data, mark_a) {
        Some(read) => read,
        None => {
            return None;
        },
    };
    assert(data@.subrange(pos as int, mark_b as int) =~= data@.subrange(pos as int, mark_a as int)
        + data@.subrange(mark_a as int, mark_b as int));
    Some((number, hash, mark_b))
}

/// Reads the two lists of identifiers that close an outcome.
fn take_lists(data: &[u8], pos: usize) -> (r: Option<
    (Vec<TransactionId>, Vec<TransactionId>, usize),
>)
    requires
        pos <= data@.len(),
    ensures
        r matches Some((a, b, next)) ==> pos <= next <= data@.len() && data@.subrange(
            pos as int,
            next as int,
        ) == spec_id_list(a@) + spec_id_list(b@),
        forall|a: Seq<TransactionId>, b: Seq<TransactionId>, rest: Seq<u8>|
            a.len() <= u64::MAX && b.len() <= u64::MAX && data@.skip(pos as int) == #[trigger] (
            spec_id_list(a) + spec_id_list(b) + rest) ==> (r matches Some((fa, fb, next)) && fa@
                == a && fb@ == b && next == pos + spec_id_list(a).len() + spec_id_list(b).len()),
{
    let ghost tail = data@.skip(pos as int);
    proof {
        assert forall|a: Seq<TransactionId>, b: Seq<TransactionId>, rest: Seq<u8>|
            tail == #[trigger] (spec_id_list(a) + spec_id_list(b) + rest) implies tail
            == spec_id_list(a) + (spec_id_list(b) + rest) by {
            assert(spec_id_list(a) + spec_id_list(b) + rest =~= spec_id_list(a) + (spec_id_list(b)
                + rest));
        }
    }
    let (first, mark_a) = match take_id_list(data, pos) {
        Some(read) => read,
        None => {
            return None;
        },
    };
    proof {
        assert forall|a: Seq<TransactionId>, b: Seq<TransactionId>, rest: Seq<u8>|
            a.len() <= u64::MAX && tail == #[trigger] (spec_id_list(a) + spec_id_list(b) + rest)
            implies a == first@ && mark_a == pos + spec_id_list(a).len() && data@.skip(mark_a as int)
            == spec_id_list(b) + rest by {
            let head = spec_id_list(a);
            let body = spec_id_list(b) + rest;
            assert(tail == head + body);
            assert(data@.skip(mark_a as int) =~= tail.skip(head.len() as int));
            assert(tail.skip(head.len() as int) =~= body);
        }
    }
    let (second, mark_b) = match take_id_list(data, mark_a) {
        Some(read) => read,
        None => {
            return None;
        },
    };
    assert(data@.subrange(pos as int, mark_b as int) =~= data@.subrange(pos as int, mark_a as int)
        + data@.subrange(mark_a as int, mark_b as int));
    Some((first, second, mark_b))
}

/// The bytes of a signed epoch outcome.
pub fn signed_outcome_to_bytes(signed: &SignedEpochOutcome) -> (bytes: Vec<u8>)
    ensures
        bytes@ == spec_signed_outcome_bytes(signed@),
{
    let mut bytes = signed.outcome.canonical_bytes();
    push_all(signed.signature.as_slice(), &mut bytes);
    bytes
}

/// Reads a signed epoch outcome. Succeeds on exactly the bytes that
/// [`signed_outcome_to_bytes`] gives; anything else is malformed.
pub fn signed_outcome_from_bytes(data: &[u8]) -> (r: Result<SignedEpochOutcome, DecodingError>)
    ensures
        match r {
            Ok(signed) => data@ == spec_signed_outcome_bytes(signed@),
            Err(e) => e == DecodingError::Malformed && forall|signed: SignedEpochOutcomeView|
                signed.outcome.accepted.len() <= u64::MAX && signed.outcome.rejected.len()
                    <= u64::MAX ==> data@ != #[trigger] spec_signed_outcome_bytes(signed),
        },
{
    proof {
        assert forall|s: SignedEpochOutcomeView|
            data@ == #[trigger] spec_signed_outcome_bytes(s) implies data@.skip(0) == spec_varint(
            s.outcome.epoch_number,
        ) + spec_optional_hash(s.outcome.previous_hash) + (spec_id_list(s.outcome.accepted)
            + spec_id_list(s.outcome.rejected) + s.signature@) by {
            assert(data@.skip(0) =~= data@);
            assert(spec_signed_outcome_bytes(s) =~= spec_varint(s.outcome.epoch_number)
                + spec_optional_hash(s.outcome.previous_hash) + (spec_id_list(s.outcome.accepted)
                + spec_id_list(s.outcome.rejected) + s.signature@));
        }
    }
    let (epoch_number, previous_hash, mark_a) = match take_head(data, 0) {
        Some(read) => read,
        None => {
            return Err(DecodingError::Malformed);
        },
    };
    proof {
        assert forall|s: SignedEpochOutcomeView|
            data@ == #[trigger] spec_signed_outcome_bytes(s) implies s.outcome.epoch_number
            == epoch_number && s.outcome.previous_hash == previous_hash && data@.skip(mark_a as int)
            == spec_id_list(s.outcome.accepted) + spec_id_list(s.outcome.rejected)
            + s.signature@ by {
            let head = spec_varint(s.outcome.epoch_number) + spec_optional_hash(
                s.outcome.previous_hash,
            );
            let body = spec_id_list(s.outcome.accepted) + spec_id_list(s.outcome.rejected)
                + s.signature@;
            assert(data@.skip(0) == head + body);
            assert(data@.skip(mark_a as int) =~= (head + body).skip(head.len() as int));
            assert((head + body).skip(head.len() as int) =~= body);
        }
    }
    let (accepted, rejected, mark_b) = match take_lists(data, mark_a) {
        Some(read) => read,
        None => {
            return Err(DecodingError::Malformed);
        },
    };
    proof {
        assert forall|s: SignedEpochOutcomeView|
            s.outcome.accepted.len() <= u64::MAX && s.outcome.rejected.len() <= u64::MAX && data@
                == #[trigger] spec_signed_outcome_bytes(s) implies data@.len() - mark_b == 96 by {
            let head = spec_id_list(s.outcome.accepted) + spec_id_list(s.outcome.rejected);
            assert(data@.skip(mark_a as int) == head + s.signature@);
            assert(data@.skip(mark_a as int).len() == head.len() + 96);
        }
    }
    if data.len() - mark_b != 96 {
        return Err(DecodingError::Malformed);
    }
    let signature = take_bytes96(data, mark_b).unwrap();
    let signed = SignedEpochOutcome {
        outcome: EpochOutcome { epoch_number, previous_hash, accepted, rejected },
        signature,
    };
    proof {
        let a = data@.subrange(0, mark_a as int);
        let b = data@.subrange(mark_a as int, mark_b as int);
        let c = data@.subrange(mark_b as int, mark_b + 96);
        assert(data@ =~= a + b + c);
        assert(signed@.outcome.spec_canonical_bytes() =~= a + b);
    }
    Ok(signed)
}

/// The bytes of the record of an accepted transaction.
pub fn accepted_to_bytes(record: &AcceptedTransaction) -> (bytes: Vec<u8>)
    ensures
        bytes@ == spec_accepted_bytes(record@.epoch, record@.position, record@.payload),
{
    let mut bytes: Vec<u8> = Vec::new();
    write_varint(record.epoch, &mut bytes);
    write_varint(record.position, &mut bytes);
    let payload = record.transaction.payload();
    write_varint(payload.len() as u64, &mut bytes);
    push_all(payload.as_slice(), &mut bytes);
    assert(bytes@ =~= spec_accepted_bytes(record@.epoch, record@.position, record@.payload));
    bytes
}

/// Reads the record of an accepted transaction. Succeeds on exactly the
/// bytes that [`accepted_to_bytes`] gives; anything else is malformed. The
/// identifier of the record is the content hash of the payload that was
/// read.
pub fn accepted_from_bytes(data: &[u8]) -> (r: Result<AcceptedTransaction, DecodingError>)
    ensures
        match r {
            Ok(record) => data@ == spec_accepted_bytes(
                record@.epoch,
                record@.position,
                record@.payload,
            ) && record@.id.0@ == Transaction::spec_id_of(record@.payload),
            Err(e) => e == DecodingError::Malformed && forall|
                epoch: u64,
                position: u64,
                payload: Seq<u8>,
            |
                payload.len() <= u64::MAX ==> data@ != #[trigger] spec_accepted_bytes(
                    epoch,
                    position,
                    payload,
                ),
        },
{
    proof {
        assert forall|epoch: u64, position: u64, payload: Seq<u8>|
            data@ == #[trigger] spec_accepted_bytes(epoch, position, payload) implies data@.skip(0)
            == spec_varint(epoch) + (spec_varint(position) + (spec_varint(payload.len() as u64)
            + payload)) by {
            assert(data@.skip(0) =~= data@);
            assert(spec_accepted_bytes(epoch, position, payload) =~= spec_varint(epoch) + (
            spec_varint(position) + (spec_varint(payload.len() as u64) + payload)));
        }
    }
    let (epoch, mark_a) = match take_varint(data, 0) {
        Some(read) => read,
        None => {
            return Err(DecodingError::Malformed);
        },
    };
    proof {
        assert forall|e: u64, position: u64, payload: Seq<u8>|
            data@ == #[trigger] spec_accepted_bytes(e, position, payload) implies e == epoch
            && data@.skip(mark_a as int) == spec_varint(position) + (spec_varint(
            payload.len() as u64,
        ) + payload) by {
            let head = spec_varint(e);
            let rest = spec_varint(position) + (spec_varint(payload.len() as u64) + payload);
            assert(data@.skip(0) == head + rest);
            assert(data@.skip(mark_a as int) =~= (head + rest).skip(head.len() as int));
            assert((head + rest).skip(head.len() as int) =~= rest);
        }
    }
    let (position, mark_b) = match take_varint(data, mark_a) {
        Some(read) => read,
        None => {
            return Err(DecodingError::Malformed);
        },
    };
    proof {
        assert forall|e: u64, p: u64, payload: Seq<u8>|
            data@ == #[trigger] spec_accepted_bytes(e, p, payload) implies p == position
            && data@.skip(mark_b as int) == spec_varint(payload.len() as u64) + payload by {
            let head = spec_varint(p);
            let rest = spec_varint(payload.len() as u64) + payload;
            assert(data@.skip(mark_a as int) == head + rest);
            assert(data@.skip(mark_b as int) =~= (head + rest).skip(head.len() as int));
            assert((head + rest).skip(head.len() as int) =~= rest);
        }
    }
    let (length, mark_c) = match take_varint(data, mark_b) {
        Some(read) => read,
        None => {
            return Err(DecodingError::Malformed);
        },
    };
    proof {
        assert forall|e: u64, p: u64, payload: Seq<u8>|
            payload.len() <= u64::MAX && data@ == #[trigger] spec_accepted_bytes(e, p, payload)
            implies payload.len() == length && data@.skip(mark_c as int) == payload by {
            let head = spec_varint(payload.len() as u64);
            assert(data@.skip(mark_b as int) == head + payload);
            assert(data@.skip(mark_c as int) =~= (head + payload).skip(head.len() as int));
            assert((head + payload).skip(head.len() as int) =~= payload);
        }
    }
    if (data.len() - mark_c) as u64 != length {
        return Err(DecodingError::Malformed);
    }
    let mut payload: Vec<u8> = Vec::new();
    let mut i: usize = mark_c;
    while i < data.len()
        invariant
            mark_c <= i <= data@.len(),
            payload@ == data@.subrange(mark_c as int, i as int),
        decreases data@.len() - i,
    {
        payload.push(data[i]);
        assert(payload@ =~= data@.subrange(mark_c as int, i + 1));
        i += 1;
    }
    let transaction = Transaction::new(payload);
    let record = AcceptedTransaction { transaction, epoch, position };
    proof {
        let a = data@.subrange(0, mark_a as int);
        let b = data@.subrange(mark_a as int, mark_b as int);
        let c = data@.subrange(mark_b as int, mark_c as int);
        let d = data@.subrange(mark_c as int, data@.len() as int);
        assert(data@ =~= a + b + c + d);
    }
    Ok(record)
}

/// The bytes of the pointer to the last committed epoch.
pub fn last_epoch_to_bytes(epoch: u64) -> (bytes: Vec<u8>)
    ensures
        bytes@ == spec_varint(epoch),
{
    let mut bytes: Vec<u8> = Vec::new();
    write_varint(epoch, &mut bytes);
    assert(bytes@ =~= spec_varint(epoch));
    bytes
}

/// Reads the pointer to the last committed epoch. Succeeds on exactly the
/// encoding of one number; anything else is malformed.
pub fn last_epoch_from_bytes(data: &[u8]) -> (r: Result<u64, DecodingError>)
    ensures
        match r {
            Ok(epoch) => data@ == spec_varint(epoch),
            Err(e) => e == DecodingError::Malformed && forall|epoch: u64|
                data@ != #[trigger] spec_varint(epoch),
        },
{
    proof {
        assert forall|epoch: u64| data@ == #[trigger] spec_varint(epoch) implies data@.skip(0)
            == spec_varint(epoch) + Seq::<u8>::empty() by {
            assert(data@.skip(0) =~= spec_varint(epoch) + Seq::<u8>::empty());
        }
    }
    match take_varint(data, 0) {
        Some((epoch, next)) => {
            if next == data.len() {
                assert(data@.subrange(0, next as int) =~= data@);
                Ok(epoch)
            } else {
                Err(DecodingError::Malformed)
            }
        },
        None => Err(DecodingError::Malformed),
    }
}

/// Reads the federation's signature over its client configuration: the 96
/// bytes of the record, and nothing else.
pub fn client_config_signature_from_bytes(data: &[u8]) -> (r: Result<[u8; 96], DecodingError>)
    ensures
        match r {
            Ok(signature) => data@ == signature@,
            Err(e) => data@.len() != 96 && e == (DecodingError::WrongLength {
                expected: 96,
                found: data@.len() as usize,
            }),
        },
{
    if data.len() != 96 {
        return Err(DecodingError::WrongLength { expected: 96, found: data.len() });
    }
    let signature = take_bytes96(data, 0).unwrap();
    assert(data@ =~= data@.subrange(0, 96));
    Ok(signature)
}

/// The bytes of the federation's signature over its client configuration.
pub fn client_config_signature_to_bytes(signature: &[u8; 96]) -> (bytes: Vec<u8>)
    ensures
        bytes@ == signature@,
{
    let mut bytes: Vec<u8> = Vec::new();
    push_all(signature.as_slice(), &mut bytes);
    assert(bytes@ =~= signature@);
    bytes
}

/// The bytes of the reason of a rejection: the length of its UTF-8 form,
/// then that form.
pub open spec fn spec_reason_bytes(reason: Seq<char>) -> Seq<u8> {
    spec_varint(encode_utf8(reason).len() as u64) + encode_utf8(reason)
}

/// Calls `String::from_utf8` of the standard library, which gives the text
/// of bytes that are UTF-8 and refuses all other bytes. The contract says
/// so in the terms in which `vstd` defines UTF-8.
#[verifier::external_body]
fn string_from_utf8(bytes: Vec<u8>) -> (r: Option<String>)
    ensures
        match r {
            Some(text) => valid_utf8(bytes@) && text@ == decode_utf8(bytes@),
            None => !valid_utf8(bytes@),
        },
{
    String::from_utf8(bytes).ok()
}

/// The bytes of the reason of a rejection.
pub fn reason_to_bytes(reason: &String) -> (bytes: Vec<u8>)
    ensures
        bytes@ == spec_reason_bytes(reason@),
{
    let text = reason.as_str().as_bytes();
    let mut bytes: Vec<u8> = Vec::new();
    write_varint(text.len() as u64, &mut bytes);
    push_all(text, &mut bytes);
    assert(bytes@ =~= spec_reason_bytes(reason@));
    bytes
}

/// Reads the reason of a rejection. Succeeds on exactly the bytes that
/// [`reason_to_bytes`] gives; anything else, bytes that are no UTF-8
/// among it, is malformed.
pub fn reason_from_bytes(data: &[u8]) -> (r: Result<String, DecodingError>)
    ensures
        match r {
            Ok(reason) => data@ == spec_reason_bytes(reason@),
            Err(e) => e == DecodingError::Malformed && forall|reason: Seq<char>|
                encode_utf8(reason).len() <= u64::MAX ==> data@ != #[trigger] spec_reason_bytes(
                    reason,
                ),
        },
{
    proof {
        assert forall|reason: Seq<char>|
            data@ == #[trigger] spec_reason_bytes(reason) implies data@.skip(0) == spec_varint(
            encode_utf8(reason).len() as u64,
        ) + encode_utf8(reason) by {
            assert(data@.skip(0) =~= data@);
        }
    }
    let (length, start) = match take_varint(data, 0) {
        Some(read) => read,
        None => {
            return Err(DecodingError::Malformed);
        },
    };
    proof {
        assert forall|reason: Seq<char>|
            encode_utf8(reason).len() <= u64::MAX && data@ == #[trigger] spec_reason_bytes(reason)
            implies encode_utf8(reason).len() == length && data@.skip(start as int)
            == encode_utf8(reason) by {
            let head = spec_varint(encode_utf8(reason).len() as u64);
            let body = encode_utf8(reason);
            assert(data@.skip(0) == head + body);
            assert(data@.skip(start as int) =~= (head + body).skip(head.len() as int));
            assert((head + body).skip(head.len() as int) =~= body);
        }
    }
    if (data.len() - start) as u64 != length {
        return Err(DecodingError::Malformed);
    }
    let mut text: Vec<u8> = Vec::new();
    let mut i: usize = start;
    while i < data.len()
        invariant
            start <= i <= data@.len(),
            text@ == data@.subrange(start as int, i as int),
        decreases data@.len() - i,
    {
        text.push(data[i]);
        assert(text@ =~= data@.subrange(start as int, i + 1));
        i += 1;
    }
    assert(text@ =~= data@.skip(start as int));
    proof {
        assert forall|reason: Seq<char>| data@.skip(start as int) == encode_utf8(reason)
            implies valid_utf8(text@) by {
            encode_utf8_valid_utf8(reason);
        }
    }
    match string_from_utf8(text) {
        Some(reason) => {
            proof {
                decode_utf8_encode_utf8(data@.skip(start as int));
                assert(data@ =~= data@.subrange(0, start as int) + data@.skip(start as int));
            }
            Ok(reason)
        },
        None => Err(DecodingError::Malformed),
    }
}

} // verus!
