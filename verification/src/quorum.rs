//! Fault-tolerance arithmetic of a federation of `n` peers.
//!
//! A federation of `n` peers tolerates `f = (n - 1) / 3` faulty members. A
//! threshold signature needs `2f + 1` valid partial signatures, a peer is
//! excluded once `f + 1` distinct peers voted against it, and agreement can
//! continue only while `n >= 3f + 1`.

use vstd::prelude::*;

verus! {

/// Largest number of faulty members that a federation of `n` peers tolerates.
pub open spec fn spec_max_faulty(n: nat) -> nat {
    if n == 0 {
        0
    } else {
        ((n - 1) / 3) as nat
    }
}

/// Number of valid partial signatures that combine into a threshold signature.
pub open spec fn spec_signing_threshold(n: nat) -> nat {
    2 * spec_max_faulty(n) + 1
}

/// Number of distinct voters that excludes a peer.
pub open spec fn spec_exclusion_threshold(n: nat) -> nat {
    spec_max_faulty(n) + 1
}

/// Smallest federation that tolerates `f` faulty members.
pub open spec fn spec_min_peers(f: nat) -> nat {
    3 * f + 1
}

/// Whether `n` peers are enough to continue agreement under the fault
/// tolerance that `n` peers have.
pub open spec fn spec_can_continue(n: nat) -> bool {
    n >= spec_min_peers(spec_max_faulty(n))
}

/// Largest number of faulty members that a federation of `n` peers
/// tolerates.
pub fn max_faulty(n: usize) -> (f: usize)
    ensures
        f == spec_max_faulty(n as nat),
{
    if n == 0 {
        0
    } else {
        (n - 1) / 3
    }
}

/// Number of valid partial signatures that combine into a threshold
/// signature in a federation of `n` peers.
pub fn signing_threshold(n: usize) -> (t: usize)
    ensures
        t == spec_signing_threshold(n as nat),
{
    let f: usize = max_faulty(n);
    2 * f + 1
}

/// Number of distinct voters that excludes a peer from a federation of `n`
/// peers.
pub fn exclusion_threshold(n: usize) -> (t: usize)
    ensures
        t == spec_exclusion_threshold(n as nat),
{
    let f: usize = max_faulty(n);
    f + 1
}

/// Whether `n` peers are enough to continue agreement.
pub fn can_continue(n: usize) -> (ok: bool)
    ensures
        ok == spec_can_continue(n as nat),
{
    let f: usize = max_faulty(n);
    n >= 3 * f + 1
}

/// Both thresholds are positive, the exclusion threshold never exceeds the
/// signing threshold, and a non-empty federation can always reach both.
pub proof fn lemma_thresholds_ordered(n: nat)
    ensures
        1 <= spec_exclusion_threshold(n) <= spec_signing_threshold(n),
        n >= 1 ==> spec_signing_threshold(n) <= n,
{
}

/// A federation can continue exactly when it has at least one member: the
/// fault tolerance is derived from the member count, so only the empty
/// federation falls below its own minimum.
pub proof fn lemma_can_continue_iff_nonempty(n: nat)
    ensures
        spec_can_continue(n) <==> n >= 1,
{
}

/// Two signing quorums of a federation of `3f + 1` peers share more than `f`
/// members, hence at least one that is not faulty.
pub proof fn lemma_signing_quorums_intersect(n: nat, a: Set<int>, b: Set<int>, all: Set<int>)
    requires
        all.finite(),
        all.len() == n,
        n == spec_min_peers(spec_max_faulty(n)),
        a.subset_of(all),
        b.subset_of(all),
        a.len() >= spec_signing_threshold(n),
        b.len() >= spec_signing_threshold(n),
    ensures
        a.intersect(b).len() >= spec_max_faulty(n) + 1,
{
    vstd::set_lib::lemma_len_subset(a, all);
    vstd::set_lib::lemma_len_subset(b, all);
    vstd::set_lib::lemma_len_subset(a.union(b), all);
    vstd::set_lib::lemma_set_intersect_union_lens(a, b);
}

} // verus!
