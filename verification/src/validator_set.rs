//! The committee: validators in identifier order, each with a weight.

use vstd::prelude::*;

use crate::bytes::{bytes_less, bytes_less_asymmetric, bytes_less_transitive, relate, same, Bytes32, Relation};

verus! {

/// The public identity of a node on the wire.
pub type NodeId = Bytes32;

/// The stable identity of a validator. It keeps the bytes of the key that
/// the validator joined with, whatever key it signs with later.
#[derive(Clone, Copy, Debug, PartialEq, Eq, Hash)]
pub struct ValidatorId {
    pub id: NodeId,
}

impl ValidatorId {
    /// The identity of a validator that joined with `key`.
    pub fn from_genesis_pubkey(key: NodeId) -> (r: ValidatorId)
        ensures
            r.id == key,
    {
        ValidatorId { id: key }
    }

    /// The identity as it goes on the wire.
    pub fn into_node_id(self) -> (r: NodeId)
        ensures
            r == self.id,
    {
        self.id
    }
}

/// A validator and its voting weight.
#[derive(Clone, Copy, Debug)]
pub struct Member {
    pub id: ValidatorId,
    pub weight: u64,
}

/// Why a weighted committee was refused.
#[derive(Clone, Copy, Debug)]
pub enum CommitteeError {
    /// A validator carries weight zero.
    ZeroWeight(ValidatorId),
    /// A validator is listed twice.
    Duplicate(ValidatorId),
}

/// An upper limit on the length of a vector of members: such a vector
/// would fill the address space.
pub const MEMBER_LIMIT: u64 = 0x0400_0000_0000_0000;

/// The members stand in strictly increasing identifier order.
pub open spec fn sorted_members(m: Seq<Member>) -> bool {
    forall|i: int, j: int| 0 <= i < j < m.len() ==> bytes_less(#[trigger] m[i].id.id@, #[trigger] m[j].id.id@)
}

/// The identifier `id` is among the members.
pub open spec fn has_member(m: Seq<Member>, id: NodeId) -> bool {
    exists|i: int| 0 <= i < m.len() && #[trigger] m[i].id.id == id
}

/// The sum of the weights.
pub open spec fn weight_sum(m: Seq<Member>) -> nat
    decreases m.len(),
{
    if m.len() == 0 {
        0
    } else {
        weight_sum(m.drop_last()) + m.last().weight as nat
    }
}

/// The weights in committee order.
pub open spec fn weights_of(m: Seq<Member>) -> Seq<u64> {
    Seq::new(m.len(), |i: int| m[i].weight)
}

pub proof fn lemma_weight_sum_bound(m: Seq<Member>)
    ensures
        weight_sum(m) <= m.len() * 0xffff_ffff_ffff_ffff,
    decreases m.len(),
{
    if m.len() > 0 {
        lemma_weight_sum_bound(m.drop_last());
        assert(m.len() * 0xffff_ffff_ffff_ffff == (m.len() - 1) * 0xffff_ffff_ffff_ffff + 0xffff_ffff_ffff_ffff)
            by (nonlinear_arith);
    }
}

proof fn lemma_weight_sum_push(m: Seq<Member>, x: Member)
    ensures
        weight_sum(m.push(x)) == weight_sum(m) + x.weight,
{
    assert(m.push(x).drop_last() =~= m);
}

/// Puts `x` where it belongs among the sorted members `m`. Says whether it
/// did: a validator that is there already stays as it is.
fn insert_member(m: &mut Vec<Member>, x: Member) -> (fresh: bool)
    requires
        sorted_members(old(m)@),
    ensures
        sorted_members(final(m)@),
        fresh == !has_member(old(m)@, x.id.id),
        !fresh ==> final(m)@ == old(m)@,
        fresh ==> exists|k: int|
            0 <= k <= old(m)@.len() && final(m)@ == #[trigger] old(m)@.insert(k, x),
{
    let ghost before: Seq<Member> = m@;
    let mut k: usize = 0;
    while k < m.len()
        invariant
            m@ == before,
            before == old(m)@,
            k <= m.len(),
            sorted_members(before),
            forall|j: int| 0 <= j < k ==> bytes_less(#[trigger] before[j].id.id@, x.id.id@),
        decreases m.len() - k,
    {
        match relate(&m[k].id.id, &x.id.id) {
            Relation::Below => {
                k = k + 1;
            },
            Relation::Same => {
                assert(before[k as int].id.id == x.id.id);
                return false;
            },
            Relation::Above => {
                proof {
                    lemma_gap(before, k as int, x);
                }
                m.insert(k, x);
                return true;
            },
        }
    }
    proof {
        lemma_gap(before, k as int, x);
    }
    m.insert(k, x);
    true
}

proof fn lemma_gap(m: Seq<Member>, k: int, x: Member)
    requires
        sorted_members(m),
        0 <= k <= m.len(),
        forall|j: int| 0 <= j < k ==> bytes_less(#[trigger] m[j].id.id@, x.id.id@),
        k < m.len() ==> bytes_less(x.id.id@, m[k].id.id@),
    ensures
        sorted_members(m.insert(k, x)),
        !has_member(m, x.id.id),
{
    assert forall|j: int| k <= j < m.len() implies bytes_less(x.id.id@, #[trigger] m[j].id.id@) by {
        if k < j {
            bytes_less_transitive(x.id.id@, m[k].id.id@, m[j].id.id@);
        }
    }
    let r = m.insert(k, x);
    assert forall|i: int, j: int| 0 <= i < j < r.len() implies bytes_less(
        #[trigger] r[i].id.id@,
        #[trigger] r[j].id.id@,
    ) by {
        if i < k && j == k {
            assert(r[i] == m[i]);
        } else if i < k && j < k {
            assert(r[i] == m[i] && r[j] == m[j]);
        } else if i < k {
            assert(r[i] == m[i] && r[j] == m[j - 1]);
        } else if i == k {
            assert(r[j] == m[j - 1]);
        } else {
            assert(r[i] == m[i - 1] && r[j] == m[j - 1]);
        }
    }
    assert forall|i: int| 0 <= i < m.len() implies #[trigger] m[i].id.id != x.id.id by {
        if i < k {
            bytes_less_asymmetric(m[i].id.id@, x.id.id@);
        } else {
            bytes_less_asymmetric(x.id.id@, m[i].id.id@);
        }
    }
}

/// The validators that vote at some view, in identifier order. Positions in
/// this order are what leader rotation and certificates refer to.
#[derive(Debug)]
pub struct ValidatorSet {
    members: Vec<Member>,
}

impl View for ValidatorSet {
    type V = Seq<Member>;

    closed spec fn view(&self) -> Seq<Member> {
        self.members@
    }
}

/// What holds of every committee: sorted, no weight zero.
pub open spec fn committee(m: Seq<Member>) -> bool {
    &&& sorted_members(m)
    &&& m.len() < MEMBER_LIMIT
    &&& forall|i: int| 0 <= i < m.len() ==> (#[trigger] m[i]).weight > 0
}

impl ValidatorSet {
    pub open spec fn wf(&self) -> bool {
        committee(self@)
    }

    /// A committee in which every validator has weight one. A validator that
    /// is listed twice counts once.
    pub fn new(ids: Vec<ValidatorId>) -> (r: ValidatorSet)
        requires
            ids.len() < MEMBER_LIMIT,
        ensures
            r.wf(),
            forall|id: NodeId| #[trigger]
                has_member(r@, id) <==> exists|i: int| 0 <= i < ids.len() && (#[trigger] ids@[i]).id == id,
            forall|i: int| 0 <= i < r@.len() ==> (#[trigger] r@[i]).weight == 1,
    {
        let mut members: Vec<Member> = Vec::new();
        let mut i: usize = 0;
        while i < ids.len()
            invariant
                i <= ids.len(),
                ids.len() < MEMBER_LIMIT,
                members.len() <= i,
                sorted_members(members@),
                forall|id: NodeId| #[trigger]
                    has_member(members@, id) <==> exists|k: int| 0 <= k < i && (#[trigger] ids@[k]).id == id,
                forall|k: int| 0 <= k < members@.len() ==> (#[trigger] members@[k]).weight == 1,
            decreases ids.len() - i,
        {
            let ghost before: Seq<Member> = members@;
            let x = Member { id: ids[i], weight: 1 };
            let fresh = insert_member(&mut members, x);
            proof {
                lemma_inserted(before, members@, x, fresh);
                assert forall|id: NodeId| #[trigger] has_member(members@, id) implies exists|k: int|
                    0 <= k < i + 1 && (#[trigger] ids@[k]).id == id by {
                    if id == ids@[i as int].id {
                    } else {
                        assert(has_member(before, id));
                    }
                }
                assert forall|id: NodeId|
                    (exists|k: int| 0 <= k < i + 1 && (#[trigger] ids@[k]).id == id) implies #[trigger] has_member(
                    members@,
                    id,
                ) by {
                    let k = choose|k: int| 0 <= k < i + 1 && (#[trigger] ids@[k]).id == id;
                    if k < i {
                        assert(has_member(before, id));
                    }
                }
            }
            i = i + 1;
        }
        ValidatorSet { members }
    }

    /// A committee with the given weights. Every weight must be positive and
    /// every validator listed once; the first entry to break either rule is
    /// named.
    pub fn with_weights(entries: Vec<(ValidatorId, u64)>) -> (r: Result<ValidatorSet, CommitteeError>)
        requires
            entries.len() < MEMBER_LIMIT,
        ensures
            match r {
                Ok(s) => {
                    &&& s.wf()
                    &&& sound_prefix(entries@, entries.len() as int)
                    &&& listed_as(s@, entries@)
                    &&& s@ == committee_of(entries@)
                },
                Err(CommitteeError::ZeroWeight(v)) => exists|i: int|
                    #![trigger entries@[i]]
                    0 <= i < entries.len() && entries@[i].0 == v && entries@[i].1 == 0
                        && sound_prefix(entries@, i),
                Err(CommitteeError::Duplicate(v)) => exists|i: int, j: int|
                    #![trigger entries@[i], entries@[j]]
                    0 <= i < j < entries.len() && entries@[i].0.id == v.id && entries@[j].0 == v
                        && entries@[j].1 > 0 && sound_prefix(entries@, j),
            },
    {
        let mut members: Vec<Member> = Vec::new();
        let mut i: usize = 0;
        while i < entries.len()
            invariant
                i <= entries.len(),
                entries.len() < MEMBER_LIMIT,
                members.len() == i,
                sound_prefix(entries@, i as int),
                sorted_members(members@),
                forall|k: int| 0 <= k < members@.len() ==> (#[trigger] members@[k]).weight > 0,
                forall|k: int| 0 <= k < i ==> members@.contains(
                    (Member { id: (#[trigger] entries@[k]).0, weight: entries@[k].1 }),
                ),
                forall|j: int| 0 <= j < members@.len() ==> exists|k: int|
                    0 <= k < i && entries@[k] == ((#[trigger] members@[j]).id, members@[j].weight),
            decreases entries.len() - i,
        {
            let ghost before: Seq<Member> = members@;
            let id = entries[i].0;
            let weight: u64 = entries[i].1;
            if weight == 0 {
                assert(entries@[i as int].1 == 0);
                return Err(CommitteeError::ZeroWeight(id));
            }
            let x = Member { id, weight };
            let fresh = insert_member(&mut members, x);
            proof {
                lemma_inserted(before, members@, x, fresh);
            }
            if !fresh {
                proof {
                    let j = choose|j: int| 0 <= j < before.len() && #[trigger] before[j].id.id == id.id;
                    let k = choose|k: int| 0 <= k < i && entries@[k] == (before[j].id, before[j].weight);
                    assert(entries@[k].0.id == id.id);
                    assert(entries@[i as int].0 == id);
                }
                return Err(CommitteeError::Duplicate(id));
            }
            proof {
                let p = choose|p: int| 0 <= p <= before.len() && members@ == #[trigger] before.insert(p, x);
                assert forall|k: int| 0 <= k < i + 1 implies members@.contains(
                    (Member { id: (#[trigger] entries@[k]).0, weight: entries@[k].1 }),
                ) by {
                    if k < i {
                        let y = Member { id: entries@[k].0, weight: entries@[k].1 };
                        let q = choose|q: int| 0 <= q < before.len() && before[q] == y;
                        assert(before[q] == y);
                        assert(members@[if q < p { q } else { q + 1 }] == y);
                    } else {
                        assert(members@[p] == x);
                    }
                }
                assert forall|j: int| 0 <= j < members@.len() implies exists|k: int|
                    0 <= k < i + 1 && entries@[k] == ((#[trigger] members@[j]).id, members@[j].weight) by {
                    if j == p {
                        assert(entries@[i as int] == (members@[j].id, members@[j].weight));
                    } else {
                        let q = if j < p { j } else { j - 1 };
                        assert(members@[j] == before[q]);
                        let k = choose|k: int| 0 <= k < i && entries@[k] == (before[q].id, before[q].weight);
                        assert(entries@[k] == (members@[j].id, members@[j].weight));
                    }
                }
                assert forall|a: int, b: int| 0 <= a < b < i + 1 implies (#[trigger] entries@[a]).0.id
                    != (#[trigger] entries@[b]).0.id by {
                    if b == i {
                        let y = Member { id: entries@[a].0, weight: entries@[a].1 };
                        assert(before.contains(y));
                        let q = choose|q: int| 0 <= q < before.len() && before[q] == y;
                        assert(before[q].id.id == entries@[a].0.id);
                    }
                }
            }
            i = i + 1;
        }
        proof {
            assert forall|j: int| 0 <= j < members@.len() implies entries@.contains(
                ((#[trigger] members@[j]).id, members@[j].weight),
            ) by {
                let k = choose|k: int| 0 <= k < i && entries@[k] == (members@[j].id, members@[j].weight);
                assert(entries@[k] == (members@[j].id, members@[j].weight));
            }
            lemma_committee_of(members@, entries@);
        }
        Ok(ValidatorSet { members })
    }

    /// A committee of the given members as they stand, if they make one.
    pub fn from_members(members: Vec<Member>) -> (r: Option<ValidatorSet>)
        ensures
            r is Some <==> committee(members@),
            r matches Some(s) ==> s@ == members@,
    {
        if members.len() as u64 >= MEMBER_LIMIT {
            return None;
        }
        let mut i: usize = 0;
        while i < members.len()
            invariant
                i <= members.len(),
                members.len() < MEMBER_LIMIT,
                sorted_members(members@.take(i as int)),
                forall|k: int| 0 <= k < i ==> (#[trigger] members@[k]).weight > 0,
            decreases members.len() - i,
        {
            if members[i].weight == 0 {
                return None;
            }
            if i > 0 {
                match relate(&members[i - 1].id.id, &members[i].id.id) {
                    Relation::Below => {},
                    Relation::Same => {
                        proof {
                            if sorted_members(members@) {
                                bytes_less_asymmetric(members@[i - 1].id.id@, members@[i as int].id.id@);
                            }
                        }
                        return None;
                    },
                    Relation::Above => {
                        proof {
                            if sorted_members(members@) {
                                bytes_less_asymmetric(members@[i - 1].id.id@, members@[i as int].id.id@);
                            }
                        }
                        return None;
                    },
                }
            }
            proof {
                let t = members@.take(i as int);
                let u = members@.take(i + 1);
                assert forall|a: int, b: int| 0 <= a < b < u.len() implies bytes_less(
                    #[trigger] u[a].id.id@,
                    #[trigger] u[b].id.id@,
                ) by {
                    if b < i {
                        assert(u[a] == t[a] && u[b] == t[b]);
                    } else if a < i - 1 {
                        assert(u[a] == t[a] && u[i - 1] == t[i - 1]);
                        bytes_less_transitive(u[a].id.id@, u[i - 1].id.id@, u[b].id.id@);
                    }
                }
            }
            i = i + 1;
        }
        assert(members@.take(i as int) =~= members@);
        Some(ValidatorSet { members })
    }

    /// The number of validators.
    pub fn len(&self) -> (r: usize)
        ensures
            r == self@.len(),
    {
        self.members.len()
    }

    pub fn is_empty(&self) -> (r: bool)
        ensures
            r == (self@.len() == 0),
    {
        self.members.len() == 0
    }

    /// The validator at position `i`.
    pub fn get(&self, i: usize) -> (r: Option<ValidatorId>)
        ensures
            r == (if i < self@.len() { Some(self@[i as int].id) } else { None::<ValidatorId> }),
    {
        if i < self.members.len() {
            Some(self.members[i].id)
        } else {
            None
        }
    }

    /// The member at position `i`.
    pub fn member(&self, i: usize) -> (r: Member)
        requires
            i < self@.len(),
        ensures
            r == self@[i as int],
    {
        self.members[i]
    }

    /// The position of `id`, if it belongs to the committee.
    pub fn position(&self, id: &NodeId) -> (r: Option<usize>)
        ensures
            match r {
                Some(i) => i < self@.len() && self@[i as int].id.id == *id,
                None => !has_member(self@, *id),
            },
    {
        let mut i: usize = 0;
        while i < self.members.len()
            invariant
                i <= self.members.len(),
                forall|j: int| 0 <= j < i ==> (#[trigger] self@[j]).id.id != *id,
            decreases self.members.len() - i,
        {
            if same(&self.members[i].id.id, id) {
                return Some(i);
            }
            i = i + 1;
        }
        None
    }

    pub fn contains(&self, id: &ValidatorId) -> (r: bool)
        ensures
            r == has_member(self@, id.id),
    {
        match self.position(&id.id) {
            Some(i) => {
                assert(self@[i as int].id.id == id.id);
                true
            },
            None => false,
        }
    }

    /// The weight of a validator, if it belongs to the committee.
    pub fn weight_for(&self, id: &ValidatorId) -> (r: Option<u64>)
        requires
            self.wf(),
        ensures
            r == weight_at(self@, id.id),
    {
        match self.position(&id.id) {
            Some(i) => {
                assert(self@[i as int].id.id == id.id);
                proof {
                    let k = choose|k: int| 0 <= k < self@.len() && #[trigger] self@[k].id.id == id.id;
                    lemma_one_position(self@, i as int, k);
                }
                Some(self.members[i].weight)
            },
            None => None,
        }
    }

    /// The weights in committee order.
    pub fn weights(&self) -> (r: Vec<u64>)
        ensures
            r@ == weights_of(self@),
    {
        let mut out: Vec<u64> = Vec::new();
        let mut i: usize = 0;
        while i < self.members.len()
            invariant
                i <= self.members.len(),
                out.len() == i,
                forall|j: int| 0 <= j < i ==> out@[j] == (#[trigger] self@[j]).weight,
            decreases self.members.len() - i,
        {
            out.push(self.members[i].weight);
            i = i + 1;
        }
        assert(out@ =~= weights_of(self@));
        out
    }

    /// The sum of all weights.
    pub fn total_weight(&self) -> (r: u128)
        requires
            self.wf(),
        ensures
            r == weight_sum(self@),
            r < 0x0400_0000_0000_0000_0000_0000_0000_0000,
    {
        let mut sum: u128 = 0;
        let mut i: usize = 0;
        while i < self.members.len()
            invariant
                i <= self.members.len(),
                self@.len() < MEMBER_LIMIT,
                sum == weight_sum(self@.take(i as int)),
                sum <= i * 0xffff_ffff_ffff_ffff,
            decreases self.members.len() - i,
        {
            proof {
                assert(self@.take(i + 1) =~= self@.take(i as int).push(self@[i as int]));
                lemma_weight_sum_push(self@.take(i as int), self@[i as int]);
                assert((i + 1) * 0xffff_ffff_ffff_ffff == i * 0xffff_ffff_ffff_ffff + 0xffff_ffff_ffff_ffff)
                    by (nonlinear_arith);
                assert(i * 0xffff_ffff_ffff_ffff <= 0x0400_0000_0000_0000 * 0xffff_ffff_ffff_ffff)
                    by (nonlinear_arith)
                    requires
                        i < 0x0400_0000_0000_0000,
                ;
            }
            sum = sum + self.members[i].weight as u128;
            i = i + 1;
        }
        assert(self@.take(i as int) =~= self@);
        assert(i * 0xffff_ffff_ffff_ffff < 0x0400_0000_0000_0000_0000_0000_0000_0000) by (nonlinear_arith)
            requires
                i < 0x0400_0000_0000_0000,
        ;
        sum
    }

    /// Whether two committees have the same members with the same weights.
    pub fn same_as(&self, other: &ValidatorSet) -> (r: bool)
        ensures
            r == (self@ == other@),
    {
        if self.members.len() != other.members.len() {
            return false;
        }
        let mut i: usize = 0;
        while i < self.members.len()
            invariant
                i <= self.members.len(),
                self.members.len() == other.members.len(),
                forall|a: int| 0 <= a < i ==> #[trigger] self@[a] == other@[a],
            decreases self.members.len() - i,
        {
            if self.members[i].weight != other.members[i].weight || !same(
                &self.members[i].id.id,
                &other.members[i].id.id,
            ) {
                assert(self@[i as int] != other@[i as int]);
                return false;
            }
            i = i + 1;
        }
        assert(self@ =~= other@);
        true
    }

    /// A committee with the same members.
    pub fn copy(&self) -> (r: ValidatorSet)
        ensures
            r@ == self@,
    {
        let mut members: Vec<Member> = Vec::new();
        let mut i: usize = 0;
        while i < self.members.len()
            invariant
                i <= self.members.len(),
                members@ =~= self@.take(i as int),
            decreases self.members.len() - i,
        {
            members.push(self.members[i]);
            i = i + 1;
        }
        assert(self@.take(self@.len() as int) =~= self@);
        ValidatorSet { members }
    }
}

impl Clone for ValidatorSet {
    fn clone(&self) -> (r: Self)
        ensures
            r@ == self@,
    {
        self.copy()
    }
}

/// The first `n` entries carry positive weights and distinct validators.
pub open spec fn sound_prefix(entries: Seq<(ValidatorId, u64)>, n: int) -> bool {
    &&& forall|k: int| 0 <= k < n ==> (#[trigger] entries[k]).1 > 0
    &&& forall|a: int, b: int| 0 <= a < b < n ==> (#[trigger] entries[a]).0.id != (#[trigger] entries[b]).0.id
}

/// `m` is the committee with the validators and weights of the entries.
pub open spec fn listed_as(m: Seq<Member>, entries: Seq<(ValidatorId, u64)>) -> bool {
    &&& committee(m)
    &&& m.len() == entries.len()
    &&& forall|i: int| 0 <= i < entries.len() ==> m.contains(
        (Member { id: (#[trigger] entries[i]).0, weight: entries[i].1 }),
    )
    &&& forall|j: int| 0 <= j < m.len() ==> entries.contains(((#[trigger] m[j]).id, m[j].weight))
}

/// The committee with the validators and weights of the entries.
pub open spec fn committee_of(entries: Seq<(ValidatorId, u64)>) -> Seq<Member> {
    choose|m: Seq<Member>| listed_as(m, entries)
}

/// Entries make one committee at most: its members are sorted.
pub proof fn lemma_committee_of(m: Seq<Member>, entries: Seq<(ValidatorId, u64)>)
    requires
        listed_as(m, entries),
    ensures
        committee_of(entries) == m,
{
    let c = committee_of(entries);
    assert(listed_as(c, entries));
    assert forall|i: int| 0 <= i < c.len() implies m.contains(#[trigger] c[i]) by {
        let k = choose|k: int| 0 <= k < entries.len() && entries[k] == (c[i].id, c[i].weight);
        assert(m.contains((Member { id: entries[k].0, weight: entries[k].1 })));
    }
    assert forall|i: int| 0 <= i < m.len() implies c.contains(#[trigger] m[i]) by {
        let k = choose|k: int| 0 <= k < entries.len() && entries[k] == (m[i].id, m[i].weight);
        assert(c.contains((Member { id: entries[k].0, weight: entries[k].1 })));
    }
    lemma_same_members(c, m);
}

/// Sorted committees with the same members are the same.
proof fn lemma_same_members(a: Seq<Member>, b: Seq<Member>)
    requires
        sorted_members(a),
        sorted_members(b),
        forall|i: int| 0 <= i < a.len() ==> b.contains(#[trigger] a[i]),
        forall|i: int| 0 <= i < b.len() ==> a.contains(#[trigger] b[i]),
    ensures
        a == b,
    decreases a.len(),
{
    if a.len() == 0 {
        if b.len() > 0 {
            assert(a.contains(b[0]));
        }
        assert(a =~= b);
    } else {
        assert(b.contains(a[0]));
        let x = a.len() - 1;
        let y = b.len() - 1;
        let j = choose|j: int| 0 <= j < b.len() && b[j] == a[x];
        let i = choose|i: int| 0 <= i < a.len() && a[i] == b[y];
        assert(b.contains(a[x]) && a.contains(b[y]));
        if j < y && i < x {
            bytes_less_asymmetric(b[j].id.id@, b[y].id.id@);
        } else if j < y {
            lemma_one_position(b, j, y);
        } else if i < x {
            lemma_one_position(a, i, x);
        }
        assert(a[x] == b[y]);
        let c = a.drop_last();
        let d = b.drop_last();
        assert forall|k: int| 0 <= k < c.len() implies d.contains(#[trigger] c[k]) by {
            assert(b.contains(a[k]));
            let q = choose|q: int| 0 <= q < b.len() && b[q] == a[k];
            if q == y {
                lemma_one_position(a, k, x);
            }
            assert(d[q] == c[k]);
        }
        assert forall|k: int| 0 <= k < d.len() implies c.contains(#[trigger] d[k]) by {
            assert(a.contains(b[k]));
            let q = choose|q: int| 0 <= q < a.len() && a[q] == b[k];
            if q == x {
                lemma_one_position(b, k, y);
            }
            assert(c[q] == d[k]);
        }
        lemma_same_members(c, d);
        assert(a =~= c.push(a[x]));
        assert(b =~= d.push(b[y]));
    }
}

/// The weight of the member `id`.
pub open spec fn weight_at(m: Seq<Member>, id: NodeId) -> Option<u64> {
    if has_member(m, id) {
        Some(m[choose|i: int| 0 <= i < m.len() && #[trigger] m[i].id.id == id].weight)
    } else {
        None
    }
}

/// A validator has one position in a sorted committee.
pub proof fn lemma_one_position(m: Seq<Member>, i: int, j: int)
    requires
        sorted_members(m),
        0 <= i < m.len(),
        0 <= j < m.len(),
        m[i].id.id == m[j].id.id,
    ensures
        i == j,
{
    if i < j {
        bytes_less_asymmetric(m[i].id.id@, m[j].id.id@);
    } else if j < i {
        bytes_less_asymmetric(m[j].id.id@, m[i].id.id@);
    }
}

proof fn lemma_inserted(before: Seq<Member>, after: Seq<Member>, x: Member, fresh: bool)
    requires
        fresh == !has_member(before, x.id.id),
        !fresh ==> after == before,
        fresh ==> exists|k: int| 0 <= k <= before.len() && after == #[trigger] before.insert(k, x),
    ensures
        after.len() == before.len() + (if fresh { 1int } else { 0 }),
        has_member(after, x.id.id),
        forall|id: NodeId| #[trigger] has_member(before, id) ==> has_member(after, id),
        forall|id: NodeId| id != x.id.id && #[trigger] has_member(after, id) ==> has_member(before, id),
        forall|i: int| 0 <= i < after.len() ==> (#[trigger] after[i]) == x || before.contains(after[i]),
{
    if fresh {
        let k = choose|k: int| 0 <= k <= before.len() && after == #[trigger] before.insert(k, x);
        assert(after[k] == x);
        assert forall|id: NodeId| #[trigger] has_member(before, id) implies has_member(after, id) by {
            let i = choose|i: int| 0 <= i < before.len() && #[trigger] before[i].id.id == id;
            assert(after[if i < k { i } else { i + 1 }] == before[i]);
        }
        assert forall|id: NodeId| id != x.id.id && #[trigger] has_member(after, id) implies has_member(
            before,
            id,
        ) by {
            let i = choose|i: int| 0 <= i < after.len() && #[trigger] after[i].id.id == id;
            assert(after[i] == before[if i < k { i } else { i - 1 }]);
        }
        assert forall|i: int| 0 <= i < after.len() implies (#[trigger] after[i]) == x || before.contains(
            after[i],
        ) by {
            if i != k {
                assert(after[i] == before[if i < k { i } else { i - 1 }]);
            }
        }
    }
}

} // verus!
