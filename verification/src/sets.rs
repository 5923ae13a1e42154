//! Sets of peers as bytes.
//!
//! The voters against a peer and the peers that are ready for an upgrade
//! are stored as the number of members followed by the members in the order
//! of their ordinals, each number in its variable-length encoding. Reading
//! accepts exactly the bytes that writing produces: a list out of order or
//! with a member twice is corrupt.

use crate::db::DecodingError;
use crate::encoding::{spec_varint, write_varint};
use crate::peers::{lemma_increasing_unique, spec_increasing, PeerId, PeerSet};
use crate::records::take_varint;
use vstd::prelude::*;

verus! {

/// The encodings of `values`, one after the other.
pub open spec fn spec_concat_numbers(values: Seq<u64>) -> Seq<u8>
    decreases values.len(),
{
    if values.len() == 0 {
        Seq::empty()
    } else {
        spec_concat_numbers(values.drop_last()) + spec_varint(values.last())
    }
}

/// A list of numbers: how many there are, then the numbers.
pub open spec fn spec_number_list(values: Seq<u64>) -> Seq<u8> {
    spec_varint(values.len() as u64) + spec_concat_numbers(values)
}

/// The ordinals of `peers`.
pub open spec fn spec_ordinals(peers: Seq<PeerId>) -> Seq<u64> {
    peers.map_values(|p: PeerId| p.0 as u64)
}

/// The bytes of the set whose members are `peers` in the order of their
/// ordinals.
pub open spec fn spec_peer_set_bytes(peers: Seq<PeerId>) -> Seq<u8> {
    spec_number_list(spec_ordinals(peers))
}

/// The encodings of a list are those of a front part followed by those of
/// the rest.
pub proof fn lemma_concat_numbers_split(values: Seq<u64>, i: int)
    requires
        0 <= i <= values.len(),
    ensures
        spec_concat_numbers(values) == spec_concat_numbers(values.take(i)) + spec_concat_numbers(
            values.skip(i),
        ),
    decreases values.len(),
{
    if i == values.len() {
        assert(values.take(i) =~= values);
        assert(values.skip(i) =~= Seq::<u64>::empty());
        assert(spec_concat_numbers(values) + Seq::<u8>::empty() =~= spec_concat_numbers(values));
    } else {
        let front = values.drop_last();
        lemma_concat_numbers_split(front, i);
        assert(front.take(i) =~= values.take(i));
        assert(values.skip(i).drop_last() =~= front.skip(i));
        assert(values.skip(i).last() == values.last());
        assert(spec_concat_numbers(values) =~= spec_concat_numbers(values.take(i)) + (
        spec_concat_numbers(front.skip(i)) + spec_varint(values.last())));
    }
}

/// The encodings of a list begin with the encoding of its first number.
pub proof fn lemma_concat_numbers_first(values: Seq<u64>)
    requires
        values.len() > 0,
    ensures
        spec_concat_numbers(values) == spec_varint(values[0]) + spec_concat_numbers(
            values.drop_first(),
        ),
{
    lemma_concat_numbers_split(values, 1);
    let one = values.take(1);
    assert(one.drop_last() =~= Seq::<u64>::empty());
    assert(spec_concat_numbers(one.drop_last()) =~= Seq::<u8>::empty());
    assert(one.last() == values[0]);
    assert(spec_concat_numbers(one) =~= spec_varint(values[0]));
    assert(values.skip(1) =~= values.drop_first());
}

fn write_number_list(values: &Vec<u64>, out: &mut Vec<u8>)
    ensures
        final(out)@ == old(out)@ + spec_number_list(values@),
{
    write_varint(values.len() as u64, out);
    let ghost start = out@;
    let mut i: usize = 0;
    assert(out@ =~= start + spec_concat_numbers(values@.take(0)));
    while i < values.len()
        invariant
            i <= values@.len(),
            out@ == start + spec_concat_numbers(values@.take(i as int)),
        decreases values@.len() - i,
    {
        write_varint(values[i], out);
        proof {
            let next = values@.take(i + 1);
            assert(next.drop_last() =~= values@.take(i as int));
            assert(next.last() == values@[i as int]);
            assert(out@ =~= start + spec_concat_numbers(next));
        }
        i += 1;
    }
    assert(values@.take(values@.len() as int) =~= values@);
    assert(out@ =~= old(out)@ + spec_number_list(values@));
}

/// Reads a list of numbers that fills `data` from its start to its end.
fn read_number_list(data: &[u8]) -> (r: Option<Vec<u64>>)
    ensures
        r matches Some(values) ==> data@ == spec_number_list(values@),
        forall|values: Seq<u64>|
            values.len() <= u64::MAX && data@ == #[trigger] spec_number_list(values) ==> (
            r matches Some(found) && found@ == values),
{
    proof {
        assert forall|values: Seq<u64>| data@ == #[trigger] spec_number_list(values)
            implies data@.skip(0) == spec_varint(values.len() as u64) + spec_concat_numbers(
            values,
        ) by {
            assert(data@.skip(0) =~= data@);
        }
    }
    let (count, start) = match take_varint(data, 0) {
        Some(read) => read,
        None => {
            return None;
        },
    };
    proof {
        assert forall|values: Seq<u64>|
            values.len() <= u64::MAX && data@ == #[trigger] spec_number_list(values)
            implies values.len() == count && data@.skip(start as int) == spec_concat_numbers(
            values,
        ) by {
            let head = spec_varint(values.len() as u64);
            let body = spec_concat_numbers(values);
            assert(data@.skip(0) == head + body);
            assert(data@.skip(start as int) =~= (head + body).skip(head.len() as int));
            assert((head + body).skip(head.len() as int) =~= body);
        }
    }
    let mut found: Vec<u64> = Vec::new();
    let mut pos: usize = start;
    let mut i: u64 = 0;
    assert(data@.subrange(start as int, start as int) =~= spec_concat_numbers(found@));
    while i < count
        invariant
            i <= count,
            start <= pos <= data@.len(),
            found@.len() == i,
            data@.subrange(start as int, pos as int) == spec_concat_numbers(found@),
            forall|values: Seq<u64>|
                values.len() <= u64::MAX && data@ == #[trigger] spec_number_list(values)
                    ==> values.len() == count && data@.skip(start as int) == spec_concat_numbers(
                    values,
                ),
            forall|values: Seq<u64>|
                values.len() == count && data@.skip(start as int) == #[trigger] spec_concat_numbers(
                    values,
                ) ==> found@ == values.take(i as int),
        decreases count - i,
    {
        let ghost before = found@;
        let ghost old_pos = pos;
        proof {
            assert forall|values: Seq<u64>|
                values.len() == count && data@.skip(start as int) == #[trigger] spec_concat_numbers(
                    values,
                ) implies data@.skip(pos as int) == spec_varint(values[i as int]) + spec_concat_numbers(
                values.skip(i + 1),
            ) by {
                lemma_concat_numbers_split(values, i as int);
                let front = spec_concat_numbers(values.take(i as int));
                let back = spec_concat_numbers(values.skip(i as int));
                assert(front == data@.subrange(start as int, pos as int));
                assert(data@.skip(pos as int) =~= (front + back).skip(front.len() as int));
                assert((front + back).skip(front.len() as int) =~= back);
                lemma_concat_numbers_first(values.skip(i as int));
                assert(values.skip(i as int).drop_first() =~= values.skip(i + 1));
            }
        }
        let (value, next) = match take_varint(data, pos) {
            Some(read) => read,
            None => {
                return None;
            },
        };
        found.push(value);
        pos = next;
        proof {
            assert(found@.drop_last() =~= before);
            assert(data@.subrange(start as int, pos as int) =~= data@.subrange(
                start as int,
                old_pos as int,
            ) + data@.subrange(old_pos as int, pos as int));
            assert forall|values: Seq<u64>|
                values.len() == count && data@.skip(start as int) == #[trigger] spec_concat_numbers(
                    values,
                ) implies found@ == values.take(i + 1) by {
                assert(data@.skip(old_pos as int) == spec_varint(values[i as int])
                    + spec_concat_numbers(values.skip(i + 1)));
                assert(value == values[i as int]);
                assert(values.take(i + 1) =~= values.take(i as int).push(values[i as int]));
                assert(found@ =~= before.push(value));
            }
        }
        i += 1;
    }
    if pos != data.len() {
        proof {
            assert forall|values: Seq<u64>|
                values.len() <= u64::MAX && data@ == #[trigger] spec_number_list(values)
                implies false by {
                assert(values.take(count as int) =~= values);
                assert(data@.skip(start as int) =~= data@.subrange(
                    start as int,
                    data@.len() as int,
                ));
            }
        }
        return None;
    }
    proof {
        assert(data@ =~= data@.subrange(0, start as int) + data@.subrange(
            start as int,
            pos as int,
        ));
        assert forall|values: Seq<u64>|
            values.len() <= u64::MAX && data@ == #[trigger] spec_number_list(values)
            implies found@ == values by {
            assert(values.take(count as int) =~= values);
        }
    }
    Some(found)
}

/// The bytes of a set of peers.
pub fn peers_to_bytes(set: &PeerSet) -> (bytes: Vec<u8>)
    requires
        set.wf(),
    ensures
        forall|peers: Seq<PeerId>|
            spec_increasing(peers) && peers.to_set() == set@ ==> bytes@ == spec_peer_set_bytes(
                peers,
            ),
{
    let members = set.to_vec();
    let mut ordinals: Vec<u64> = Vec::new();
    let mut i: usize = 0;
    while i < members.len()
        invariant
            i <= members@.len(),
            ordinals@ == spec_ordinals(members@.take(i as int)),
        decreases members@.len() - i,
    {
        ordinals.push(members[i].0 as u64);
        assert(ordinals@ =~= spec_ordinals(members@.take(i + 1)));
        i += 1;
    }
    assert(members@.take(members@.len() as int) =~= members@);
    let mut bytes: Vec<u8> = Vec::new();
    write_number_list(&ordinals, &mut bytes);
    proof {
        assert(bytes@ =~= spec_peer_set_bytes(members@));
        assert forall|peers: Seq<PeerId>|
            spec_increasing(peers) && peers.to_set() == set@ implies bytes@ == spec_peer_set_bytes(
            peers,
        ) by {
            lemma_increasing_unique(peers, members@);
        }
    }
    bytes
}

/// Reads a set of peers. Succeeds on exactly the bytes that
/// [`peers_to_bytes`] gives for some set; anything else is malformed.
pub fn peers_from_bytes(data: &[u8]) -> (r: Result<PeerSet, DecodingError>)
    ensures
        match r {
            Ok(set) => set.wf() && exists|peers: Seq<PeerId>|
                spec_increasing(peers) && peers.to_set() == set@ && data@
                    == #[trigger] spec_peer_set_bytes(peers),
            Err(e) => e == DecodingError::Malformed && forall|peers: Seq<PeerId>|
                spec_increasing(peers) ==> data@ != #[trigger] spec_peer_set_bytes(peers),
        },
{
    let ordinals = match read_number_list(data) {
        Some(values) => values,
        None => {
            proof {
                assert forall|peers: Seq<PeerId>| spec_increasing(peers) implies data@
                    != #[trigger] spec_peer_set_bytes(peers) by {
                    lemma_increasing_is_short(peers);
                }
            }
            return Err(DecodingError::Malformed);
        },
    };
    let mut peers: Vec<PeerId> = Vec::new();
    let mut i: usize = 0;
    while i < ordinals.len()
        invariant
            i <= ordinals@.len(),
            peers@.len() == i,
            spec_increasing(peers@),
            spec_ordinals(peers@) == ordinals@.take(i as int),
            data@ == spec_number_list(ordinals@),
            forall|values: Seq<u64>|
                values.len() <= u64::MAX && data@ == #[trigger] spec_number_list(values)
                    ==> ordinals@ == values,
        decreases ordinals@.len() - i,
    {
        let value = ordinals[i];
        let in_order = value <= 0xffff && (i == 0 || (peers[i - 1].0 as u64) < value);
        if !in_order {
            proof {
                assert forall|other: Seq<PeerId>| spec_increasing(other) implies data@
                    != #[trigger] spec_peer_set_bytes(other) by {
                    lemma_increasing_is_short(other);
                    if data@ == spec_peer_set_bytes(other) {
                        let o = spec_ordinals(other);
                        assert(o == ordinals@);
                        assert(o[i as int] == other[i as int].0);
                        if i > 0 {
                            assert(o[i - 1] == other[i - 1].0);
                            assert(spec_ordinals(peers@)[i - 1] == ordinals@.take(i as int)[i - 1]);
                            assert(other[i - 1].0 < other[i as int].0);
                        }
                    }
                }
            }
            return Err(DecodingError::Malformed);
        }
        let ghost before = peers@;
        peers.push(PeerId(value as u16));
        proof {
            assert forall|m: int, n: int| 0 <= m < n < peers@.len() implies peers@[m].0
                < peers@[n].0 by {
                if n == i {
                    if m < i - 1 {
                        assert(before[m].0 < before[i - 1].0);
                    }
                }
            }
            assert(spec_ordinals(peers@) =~= ordinals@.take(i + 1)) by {
                assert forall|k: int| 0 <= k < i + 1 implies spec_ordinals(peers@)[k]
                    == ordinals@[k] by {
                    if k < i {
                        assert(spec_ordinals(before)[k] == ordinals@.take(i as int)[k]);
                    }
                }
            }
        }
        i += 1;
    }
    assert(ordinals@.take(ordinals@.len() as int) =~= ordinals@);
    let ghost list = peers@;
    let set = PeerSet::from_increasing(peers);
    assert(spec_increasing(list) && list.to_set() == set@ && data@ == spec_peer_set_bytes(list));
    Ok(set)
}

/// A list of peers in the order of their ordinals has at most as many
/// members as there are ordinals.
pub proof fn lemma_increasing_is_short(peers: Seq<PeerId>)
    requires
        spec_increasing(peers),
    ensures
        peers.len() <= 0x1_0000,
        spec_ordinals(peers).len() == peers.len(),
{
    assert forall|i: int| 0 <= i < peers.len() implies (#[trigger] peers[i]).0 >= i by {
        lemma_increasing_at_least_index(peers, i);
    }
    if peers.len() > 0x1_0000 {
        assert(peers[0x1_0000].0 >= 0x1_0000);
    }
}

proof fn lemma_increasing_at_least_index(peers: Seq<PeerId>, i: int)
    requires
        spec_increasing(peers),
        0 <= i < peers.len(),
    ensures
        peers[i].0 >= i,
    decreases i,
{
    if i > 0 {
        lemma_increasing_at_least_index(peers, i - 1);
        assert(peers[i - 1].0 < peers[i].0);
    }
}

} // verus!
