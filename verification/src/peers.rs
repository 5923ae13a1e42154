//! Federation members and sets of them.

use vstd::prelude::*;

verus! {

/// Ordinal identity of a federation member.
#[derive(Clone, Copy, Debug, PartialEq, Eq, Structural)]
pub struct PeerId(pub u16);

impl PeerId {
    pub fn new(id: u16) -> (p: PeerId)
        ensures
            p == PeerId(id),
    {
        PeerId(id)
    }

    pub fn to_usize(self) -> (i: usize)
        ensures
            i == self.0,
    {
        self.0 as usize
    }
}

/// Whether the peers of `s` stand in the order of their ordinals, each once.
pub open spec fn spec_increasing(s: Seq<PeerId>) -> bool {
    forall|i: int, j: int| 0 <= i < j < s.len() ==> s[i].0 < s[j].0
}

/// Two lists in the order of ordinals with the same members are the same
/// list.
pub proof fn lemma_increasing_unique(a: Seq<PeerId>, b: Seq<PeerId>)
    requires
        spec_increasing(a),
        spec_increasing(b),
        a.to_set() == b.to_set(),
    ensures
        a == b,
    decreases a.len(),
{
    assert(a.no_duplicates());
    assert(b.no_duplicates());
    a.unique_seq_to_set();
    b.unique_seq_to_set();
    if a.len() > 0 {
        let x = a.last();
        let y = b.last();
        assert(a.contains(x)) by {
            assert(a[a.len() - 1] == x);
        }
        assert(b.contains(y)) by {
            assert(b[b.len() - 1] == y);
        }
        assert(b.to_set().contains(x));
        assert(a.to_set().contains(y));
        let k = choose|k: int| 0 <= k < b.len() && b[k] == x;
        let m = choose|m: int| 0 <= m < a.len() && a[m] == y;
        assert(x == y) by {
            if k < b.len() - 1 {
                assert(b[k].0 < b[b.len() - 1].0);
            }
            if m < a.len() - 1 {
                assert(a[m].0 < a[a.len() - 1].0);
            }
        }
        let a0 = a.drop_last();
        let b0 = b.drop_last();
        assert forall|p: PeerId| a0.to_set().contains(p) <==> b0.to_set().contains(p) by {
            if a0.contains(p) {
                let i = choose|i: int| 0 <= i < a0.len() && a0[i] == p;
                assert(a[i] == p && a[i].0 < a[a.len() - 1].0);
                assert(a.contains(p));
                assert(b.to_set().contains(p));
                let j = choose|j: int| 0 <= j < b.len() && b[j] == p;
                assert(b0[j] == p);
            }
            if b0.contains(p) {
                let i = choose|i: int| 0 <= i < b0.len() && b0[i] == p;
                assert(b[i] == p && b[i].0 < b[b.len() - 1].0);
                assert(b.contains(p));
                assert(a.to_set().contains(p));
                let j = choose|j: int| 0 <= j < a.len() && a[j] == p;
                assert(a0[j] == p);
            }
        }
        assert(a0.to_set() =~= b0.to_set());
        lemma_increasing_unique(a0, b0);
        assert(a =~= a0.push(x));
        assert(b =~= b0.push(y));
    } else {
        assert(a =~= b);
    }
}

/// A finite set of peers, held in the order of their ordinals.
pub struct PeerSet {
    members: Vec<PeerId>,
}

impl View for PeerSet {
    type V = Set<PeerId>;

    closed spec fn view(&self) -> Set<PeerId> {
        self.members@.to_set()
    }
}

impl PeerSet {
    /// The representation invariant: every constructor establishes it and
    /// every method keeps it.
    pub closed spec fn wf(&self) -> bool {
        spec_increasing(self.members@)
    }

    /// A well-formed set is finite.
    pub proof fn lemma_finite(&self)
        ensures
            self@.finite(),
    {
        vstd::seq_lib::seq_to_set_is_finite(self.members@);
    }

    /// The empty set.
    pub fn new() -> (s: PeerSet)
        ensures
            s.wf(),
            s@ == Set::<PeerId>::empty(),
    {
        let s = PeerSet { members: Vec::new() };
        assert(s.members@.to_set() =~= Set::<PeerId>::empty());
        s
    }

    /// The peers `0, 1, .., n - 1` of a federation of `n` members.
    pub fn first(n: u16) -> (s: PeerSet)
        ensures
            s.wf(),
            forall|p: PeerId| s@.contains(p) <==> p.0 < n,
            s@.len() == n,
    {
        let mut members: Vec<PeerId> = Vec::new();
        let mut i: u16 = 0;
        while i < n
            invariant
                i <= n,
                members@.len() == i,
                forall|j: int| 0 <= j < i ==> (#[trigger] members@[j]).0 == j,
            decreases n - i,
        {
            members.push(PeerId(i));
            i += 1;
        }
        let s = PeerSet { members };
        proof {
            assert forall|p: PeerId| s@.contains(p) <==> p.0 < n by {
                if p.0 < n {
                    assert(s.members@[p.0 as int] == p);
                }
            }
            s.members@.unique_seq_to_set();
        }
        s
    }

    /// The number of members.
    pub fn len(&self) -> (n: usize)
        requires
            self.wf(),
        ensures
            n == self@.len(),
    {
        proof {
            self.members@.unique_seq_to_set();
        }
        self.members.len()
    }

    /// Whether the set has no member.
    pub fn is_empty(&self) -> (e: bool)
        requires
            self.wf(),
        ensures
            e == (self@ == Set::<PeerId>::empty()),
    {
        proof {
            self.members@.unique_seq_to_set();
            self.lemma_finite();
            if self.members@.len() == 0 {
                assert(self@ =~= Set::<PeerId>::empty());
            }
        }
        self.members.len() == 0
    }

    /// Whether `peer` is a member.
    pub fn contains(&self, peer: PeerId) -> (found: bool)
        ensures
            found == self@.contains(peer),
    {
        let mut i: usize = 0;
        while i < self.members.len()
            invariant
                i <= self.members@.len(),
                forall|j: int| 0 <= j < i ==> self.members@[j] != peer,
            decreases self.members@.len() - i,
        {
            if self.members[i] == peer {
                return true;
            }
            i += 1;
        }
        false
    }

    /// Adds `peer`. Returns whether it was new; adding a member again changes
    /// nothing.
    pub fn insert(&mut self, peer: PeerId) -> (added: bool)
        requires
            old(self).wf(),
        ensures
            final(self).wf(),
            final(self)@ == old(self)@.insert(peer),
            added == !old(self)@.contains(peer),
    {
        let ghost before = self.members@;
        let mut k: usize = 0;
        while k < self.members.len() && self.members[k].0 < peer.0
            invariant
                k <= self.members@.len(),
                self.members@ == before,
                forall|j: int| 0 <= j < k ==> (#[trigger] before[j]).0 < peer.0,
            decreases self.members@.len() - k,
        {
            k += 1;
        }
        if k < self.members.len() && self.members[k].0 == peer.0 {
            assert(before[k as int] == peer);
            assert(self@ =~= self@.insert(peer));
            return false;
        }
        proof {
            assert(!before.contains(peer)) by {
                if before.contains(peer) {
                    let j = choose|j: int| 0 <= j < before.len() && before[j] == peer;
                    if j >= k {
                        assert(before[k as int].0 <= before[j].0);
                    }
                }
            }
        }
        self.members.insert(k, peer);
        proof {
            let after = self.members@;
            assert(after == before.insert(k as int, peer));
            assert forall|i: int, j: int| 0 <= i < j < after.len() implies after[i].0
                < after[j].0 by {
                let i0 = if i < k { i } else { i - 1 };
                let j0 = if j < k { j } else { j - 1 };
                if i != k {
                    assert(after[i] == before[i0]);
                }
                if j != k {
                    assert(after[j] == before[j0]);
                }
                if i != k && j != k {
                    assert(before[i0].0 < before[j0].0);
                } else if i == k {
                    assert(before[k as int].0 <= before[j0].0);
                }
            }
            assert forall|a: PeerId| #[trigger]
                after.contains(a) == (before.contains(a) || a == peer) by {
                if after.contains(a) && a != peer {
                    let m = choose|m: int| 0 <= m < after.len() && after[m] == a;
                    let m0 = if m < k { m } else { m - 1 };
                    assert(before[m0] == a);
                }
                if before.contains(a) {
                    let m = choose|m: int| 0 <= m < before.len() && before[m] == a;
                    let m1 = if m < k { m } else { m + 1 };
                    assert(after[m1] == a);
                }
                if a == peer {
                    assert(after[k as int] == a);
                }
            }
            assert(after.to_set() =~= before.to_set().insert(peer));
        }
        true
    }

    /// Removes `peer`. Returns whether it was a member.
    pub fn remove(&mut self, peer: PeerId) -> (removed: bool)
        requires
            old(self).wf(),
        ensures
            final(self).wf(),
            final(self)@ == old(self)@.remove(peer),
            removed == old(self)@.contains(peer),
    {
        let mut i: usize = 0;
        while i < self.members.len()
            invariant
                i <= self.members@.len(),
                self.members@ == old(self).members@,
                spec_increasing(self.members@),
                forall|j: int| 0 <= j < i ==> self.members@[j] != peer,
            decreases self.members@.len() - i,
        {
            if self.members[i] == peer {
                let ghost before = self.members@;
                self.members.remove(i);
                proof {
                    let after = self.members@;
                    assert(after == before.remove(i as int));
                    assert(before[i as int] == peer);
                    assert forall|k: int| 0 <= k < after.len() implies #[trigger] after[k]
                        == before[if k < i { k } else { k + 1 }] by {}
                    assert forall|a: PeerId| #[trigger]
                        after.contains(a) == (before.contains(a) && a != peer) by {
                        if after.contains(a) {
                            let k = choose|k: int| 0 <= k < after.len() && after[k] == a;
                            let k0 = if k < i { k } else { k + 1 };
                            assert(before[k0] == a);
                            assert(before[k0].0 != before[i as int].0);
                        }
                        if before.contains(a) && a != peer {
                            let k = choose|k: int| 0 <= k < before.len() && before[k] == a;
                            let k1 = if k < i { k } else { k - 1 };
                            assert(after[k1] == a);
                        }
                    }
                    assert(after.to_set() =~= before.to_set().remove(peer));
                    assert forall|m: int, n: int| 0 <= m < n < after.len() implies after[m].0
                        < after[n].0 by {
                        let m0 = if m < i { m } else { m + 1 };
                        let n0 = if n < i { n } else { n + 1 };
                        assert(after[m] == before[m0] && after[n] == before[n0]);
                    }
                }
                return true;
            }
            i += 1;
        }
        assert(self@ =~= self@.remove(peer));
        false
    }

    /// Whether every member of `self` is a member of `other`.
    pub fn is_subset_of(&self, other: &PeerSet) -> (sub: bool)
        ensures
            sub == self@.subset_of(other@),
    {
        let mut i: usize = 0;
        while i < self.members.len()
            invariant
                i <= self.members@.len(),
                forall|j: int| 0 <= j < i ==> other@.contains(#[trigger] self.members@[j]),
            decreases self.members@.len() - i,
        {
            if !other.contains(self.members[i]) {
                assert(self@.contains(self.members@[i as int]));
                return false;
            }
            i += 1;
        }
        true
    }

    /// Whether both sets have the same members.
    pub fn same_members(&self, other: &PeerSet) -> (same: bool)
        requires
            self.wf(),
            other.wf(),
        ensures
            same == (self@ == other@),
    {
        let sub = self.is_subset_of(other);
        let eq_len = self.len() == other.len();
        proof {
            self.lemma_finite();
            other.lemma_finite();
            if sub && eq_len {
                vstd::set_lib::lemma_subset_equality(self@, other@);
            }
        }
        sub && eq_len
    }

    /// The set of the peers of `list`, which stand in the order of their
    /// ordinals.
    pub fn from_increasing(list: Vec<PeerId>) -> (s: PeerSet)
        requires
            spec_increasing(list@),
        ensures
            s.wf(),
            s@ == list@.to_set(),
    {
        PeerSet { members: list }
    }

    /// The members in the order of their ordinals.
    pub fn to_vec(&self) -> (v: Vec<PeerId>)
        requires
            self.wf(),
        ensures
            spec_increasing(v@),
            v@.to_set() == self@,
    {
        self.copy_members()
    }

    fn copy_members(&self) -> (v: Vec<PeerId>)
        ensures
            v@ == self.members@,
    {
        let mut v: Vec<PeerId> = Vec::new();
        let mut i: usize = 0;
        while i < self.members.len()
            invariant
                i <= self.members@.len(),
                v@ == self.members@.take(i as int),
            decreases self.members@.len() - i,
        {
            v.push(self.members[i]);
            assert(self.members@.take(i + 1) =~= self.members@.take(i as int).push(
                self.members@[i as int],
            ));
            i += 1;
        }
        assert(v@ =~= self.members@);
        v
    }

    /// A set with the same members.
    pub fn duplicate(&self) -> (s: PeerSet)
        requires
            self.wf(),
        ensures
            s.wf(),
            s@ == self@,
    {
        PeerSet { members: self.copy_members() }
    }
}

} // verus!
