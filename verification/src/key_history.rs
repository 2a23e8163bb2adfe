//! The keys that validators sign with, over time.

use vstd::prelude::*;

use crate::bytes::same;
use crate::validator_history::{HistoryView, ValidatorSetHistory};
use crate::validator_set::{Member, NodeId, ValidatorId, ValidatorSet};

verus! {

/// A key and the first view at which it is in force.
#[derive(Clone, Copy, Debug)]
pub struct KeyEntry<const N: usize> {
    pub v_eff: u64,
    pub key: [u8; N],
}

/// The keys of one validator, oldest first.
#[derive(Debug)]
pub struct KeyTimeline<const N: usize> {
    pub stable_id: ValidatorId,
    pub entries: Vec<KeyEntry<N>>,
}

/// The keys of all validators, in the order in which they joined.
#[derive(Debug)]
pub struct KeyHistory<const N: usize> {
    timelines: Vec<KeyTimeline<N>>,
}

/// The signing keys. A validator joins with the key that its identity keeps.
pub type ValidatorKeyHistory = KeyHistory<32>;

/// The BLS keys, on chains that aggregate BLS signatures.
pub type BlsKeyHistory = KeyHistory<48>;

/// A key history as a value.
pub type Timelines<const N: usize> = Seq<(NodeId, Seq<KeyEntry<N>>)>;

pub open spec fn timelines_view<const N: usize>(t: Seq<KeyTimeline<N>>) -> Timelines<N> {
    Seq::new(t.len(), |i: int| (t[i].stable_id.id, t[i].entries@))
}

impl<const N: usize> View for KeyHistory<N> {
    type V = Timelines<N>;

    closed spec fn view(&self) -> Timelines<N> {
        timelines_view(self.timelines@)
    }
}

/// `key` stands at position `j` of the timeline at position `i`.
pub open spec fn key_sits_at<const N: usize>(h: Timelines<N>, key: [u8; N], i: int, j: int) -> bool {
    &&& 0 <= i < h.len()
    &&& 0 <= j < h[i].1.len()
    &&& h[i].1[j].key == key
}

/// The validator at position `i` has or had the key.
pub open spec fn owns<const N: usize>(h: Timelines<N>, key: [u8; N], i: int) -> bool {
    exists|j: int| key_sits_at(h, key, i, j)
}

/// Views rise along a timeline.
pub open spec fn rising<const N: usize>(e: Seq<KeyEntry<N>>) -> bool {
    forall|a: int, b: int| 0 <= a < b < e.len() ==> (#[trigger] e[a]).v_eff < (#[trigger] e[b]).v_eff
}

/// What holds of every key history: every validator has one timeline and at
/// least one key, views rise along it, and no key belongs to two validators.
pub open spec fn keys_ok<const N: usize>(h: Timelines<N>) -> bool {
    &&& forall|i: int, j: int| 0 <= i < j < h.len() ==> (#[trigger] h[i]).0 != (#[trigger] h[j]).0
    &&& forall|i: int| 0 <= i < h.len() ==> (#[trigger] h[i]).1.len() > 0 && rising(h[i].1)
    &&& forall|k: [u8; N], a: int, b: int| #[trigger] owns(h, k, a) && #[trigger] owns(h, k, b) ==> a == b
}

/// The position of the validator that has or had `key`.
pub open spec fn owner<const N: usize>(h: Timelines<N>, key: [u8; N]) -> Option<int> {
    if exists|i: int| owns(h, key, i) {
        Some(choose|i: int| owns(h, key, i))
    } else {
        None
    }
}

/// The position of the validator with identity `id`.
pub open spec fn timeline_of<const N: usize>(h: Timelines<N>, id: NodeId) -> Option<int> {
    if exists|i: int| 0 <= i < h.len() && (#[trigger] h[i]).0 == id {
        Some(choose|i: int| 0 <= i < h.len() && (#[trigger] h[i]).0 == id)
    } else {
        None
    }
}

/// The history after the validator at position `i` takes up a new key.
pub open spec fn with_key<const N: usize>(h: Timelines<N>, i: int, e: KeyEntry<N>) -> Timelines<N> {
    h.update(i, (h[i].0, h[i].1.push(e)))
}

/// The key in force at `view`: that of the last entry at or before it.
pub open spec fn key_in_force<const N: usize>(e: Seq<KeyEntry<N>>, view: u64) -> Option<[u8; N]>
    decreases e.len(),
{
    if e.len() == 0 {
        None
    } else if e.last().v_eff <= view {
        Some(e.last().key)
    } else {
        key_in_force(e.drop_last(), view)
    }
}

/// Why a rotation was refused.
#[derive(Clone, Copy, Debug, PartialEq, Eq, Structural)]
pub enum RotationError {
    /// No validator has the key that the rotation names.
    UnknownValidator,
    /// The new key would be in force no later than the view that decides it.
    NotAfterBlock,
    /// The new key would be in force no later than the validator's last one.
    NotAfterLast,
    /// The new key belongs to another validator.
    KeyOfAnother,
}

/// Whether two keys are the same.
pub fn same_key<const N: usize>(a: &[u8; N], b: &[u8; N]) -> (r: bool)
    ensures
        r == (*a == *b),
{
    let mut i: usize = 0;
    while i < N
        invariant
            i <= N,
            forall|j: int| 0 <= j < i ==> a@[j] == b@[j],
        decreases N - i,
    {
        if a[i] != b[i] {
            return false;
        }
        i = i + 1;
    }
    assert(a@ =~= b@);
    assert(*a =~= *b);
    true
}

impl<const N: usize> KeyHistory<N> {
    pub open spec fn wf(&self) -> bool {
        keys_ok(self@)
    }

    /// A history without validators.
    pub fn empty() -> (r: KeyHistory<N>)
        ensures
            r.wf(),
            r@ == Seq::<(NodeId, Seq<KeyEntry<N>>)>::empty(),
    {
        let r = KeyHistory { timelines: Vec::new() };
        assert(r@ =~= Seq::<(NodeId, Seq<KeyEntry<N>>)>::empty());
        r
    }

    /// A history of the given timelines as they stand, if they make one.
    pub fn from_timelines(timelines: Vec<KeyTimeline<N>>) -> (r: Option<KeyHistory<N>>)
        ensures
            r is Some <==> keys_ok(timelines_view(timelines@)),
            r matches Some(h) ==> h@ == timelines_view(timelines@),
    {
        let ghost v = timelines_view(timelines@);
        let mut r = KeyHistory::<N>::empty();
        let mut i: usize = 0;
        assert(v.take(0) =~= seq![]);
        while i < timelines.len()
            invariant
                i <= timelines.len(),
                v == timelines_view(timelines@),
                r.wf(),
                r@ == v.take(i as int),
            decreases timelines.len() - i,
        {
            let t = &timelines[i];
            assert(v[i as int] == (t.stable_id.id, t.entries@));
            if t.entries.len() == 0 {
                assert(!keys_ok(v));
                return None;
            }
            let first = t.entries[0];
            let ghost prefix = r@;
            if !r.enroll(t.stable_id, first) {
                proof {
                    lemma_refused_first(v, i as int);
                }
                return None;
            }
            assert(t.entries@.take(1) =~= seq![first]);
            let mut j: usize = 1;
            while j < t.entries.len()
                invariant
                    1 <= j <= t.entries.len(),
                    i < timelines.len(),
                    v == timelines_view(timelines@),
                    v[i as int] == (t.stable_id.id, t.entries@),
                    r.wf(),
                    r@.len() == i + 1,
                    r@ == v.take(i as int).push((t.stable_id.id, t.entries@.take(j as int))),
                decreases t.entries.len() - j,
            {
                let e = t.entries[j];
                let ghost h = r@;
                assert(h[i as int].1.last() == t.entries@[j - 1]);
                if t.entries[j - 1].v_eff >= e.v_eff {
                    assert(!rising(v[i as int].1));
                    return None;
                }
                match r.find_owner(&e.key) {
                    Some(k) => {
                        if k != i {
                            proof {
                                lemma_refused_later(v, i as int, j as int, k as int);
                            }
                            return None;
                        }
                    },
                    None => {},
                }
                r.append(i, e);
                j = j + 1;
                proof {
                    assert(t.entries@.take(j as int) =~= t.entries@.take(j - 1).push(e));
                    assert(r@ =~= v.take(i as int).push((t.stable_id.id, t.entries@.take(j as int))));
                }
            }
            proof {
                assert(t.entries@.take(j as int) =~= t.entries@);
                assert(v.take(i + 1) =~= v.take(i as int).push(v[i as int]));
            }
            i = i + 1;
        }
        assert(v.take(i as int) =~= v);
        Some(r)
    }

    /// The position of the validator that has or had `key`.
    fn find_owner(&self, key: &[u8; N]) -> (r: Option<usize>)
        requires
            self.wf(),
        ensures
            match r {
                Some(i) => owner(self@, *key) == Some(i as int) && owns(self@, *key, i as int),
                None => owner(self@, *key) is None,
            },
    {
        let mut i: usize = 0;
        while i < self.timelines.len()
            invariant
                i <= self.timelines.len(),
                self.wf(),
                forall|a: int| 0 <= a < i ==> !#[trigger] owns(self@, *key, a),
            decreases self.timelines.len() - i,
        {
            let entries = &self.timelines[i].entries;
            let mut j: usize = 0;
            while j < entries.len()
                invariant
                    i < self.timelines.len(),
                    entries@ == self@[i as int].1,
                    j <= entries.len(),
                    self.wf(),
                    forall|b: int| 0 <= b < j ==> (#[trigger] entries@[b]).key != *key,
                decreases entries.len() - j,
            {
                if same_key(&entries[j].key, key) {
                    assert(key_sits_at(self@, *key, i as int, j as int));
                    assert(owns(self@, *key, i as int));
                    return Some(i);
                }
                j = j + 1;
            }
            assert(!owns(self@, *key, i as int)) by {
                if owns(self@, *key, i as int) {
                    let b = choose|b: int| key_sits_at(self@, *key, i as int, b);
                    assert(entries@[b].key == *key);
                }
            }
            i = i + 1;
        }
        proof {
            if exists|a: int| owns(self@, *key, a) {
                let a = choose|a: int| owns(self@, *key, a);
                let b = choose|b: int| key_sits_at(self@, *key, a, b);
                assert(0 <= a < self@.len());
            }
        }
        None
    }

    /// The position of the validator with identity `id`.
    fn find(&self, id: &NodeId) -> (r: Option<usize>)
        requires
            self.wf(),
        ensures
            match r {
                Some(i) => timeline_of(self@, *id) == Some(i as int) && i < self@.len() && self@[i as int].0 == *id,
                None => timeline_of(self@, *id) is None,
            },
    {
        let mut i: usize = 0;
        while i < self.timelines.len()
            invariant
                i <= self.timelines.len(),
                self.wf(),
                forall|a: int| 0 <= a < i ==> (#[trigger] self@[a]).0 != *id,
            decreases self.timelines.len() - i,
        {
            if same(&self.timelines[i].stable_id.id, id) {
                assert(self@[i as int].0 == *id);
                proof {
                    let k = choose|k: int| 0 <= k < self@.len() && (#[trigger] self@[k]).0 == *id;
                    if k < i {
                    } else if i < k {
                        assert(self@[i as int].0 != self@[k].0);
                    }
                }
                return Some(i);
            }
            i = i + 1;
        }
        None
    }

    /// The validator that has or had `key`.
    pub fn validator_for(&self, key: &[u8; N]) -> (r: Option<ValidatorId>)
        requires
            self.wf(),
        ensures
            r == (match owner(self@, *key) {
                Some(i) => Some(ValidatorId { id: self@[i].0 }),
                None => None,
            }),
    {
        match self.find_owner(key) {
            Some(i) => Some(self.timelines[i].stable_id),
            None => None,
        }
    }

    /// The newest key of the validator that has or had `key`.
    pub fn current_key(&self, key: &[u8; N]) -> (r: Option<[u8; N]>)
        requires
            self.wf(),
        ensures
            r == (match owner(self@, *key) {
                Some(i) => Some(self@[i].1.last().key),
                None => None,
            }),
    {
        match self.find_owner(key) {
            Some(i) => {
                assert(self@[i as int].1.len() > 0);
                let n = self.timelines[i].entries.len();
                Some(self.timelines[i].entries[n - 1].key)
            },
            None => None,
        }
    }

    /// The key of validator `id` that is in force at `view`.
    pub fn key_at(&self, id: &ValidatorId, view: u64) -> (r: Option<[u8; N]>)
        requires
            self.wf(),
        ensures
            r == (match timeline_of(self@, id.id) {
                Some(i) => key_in_force(self@[i].1, view),
                None => None,
            }),
    {
        match self.find(&id.id) {
            Some(i) => {
                let entries = &self.timelines[i].entries;
                let mut j: usize = entries.len();
                assert(entries@.take(j as int) =~= entries@);
                while j > 0
                    invariant
                        j <= entries.len(),
                        entries@ == self@[i as int].1,
                        timeline_of(self@, id.id) == Some(i as int),
                        key_in_force(entries@, view) == key_in_force(entries@.take(j as int), view),
                    decreases j,
                {
                    assert(entries@.take(j as int).drop_last() =~= entries@.take(j - 1));
                    assert(entries@.take(j as int).last() == entries@[j - 1]);
                    if entries[j - 1].v_eff <= view {
                        return Some(entries[j - 1].key);
                    }
                    j = j - 1;
                }
                None
            },
            None => None,
        }
    }

    /// The number of validators.
    pub fn len(&self) -> (r: usize)
        ensures
            r == self@.len(),
    {
        self.timelines.len()
    }

    /// The identity and the keys of the validator at position `i`.
    pub fn timeline(&self, i: usize) -> (r: &KeyTimeline<N>)
        requires
            i < self@.len(),
        ensures
            r.stable_id.id == self@[i as int].0,
            r.entries@ == self@[i as int].1,
    {
        &self.timelines[i]
    }

    /// Takes in a validator with its first key, unless the identity or the
    /// key is known already. Says whether it did.
    pub fn enroll(&mut self, id: ValidatorId, entry: KeyEntry<N>) -> (fresh: bool)
        requires
            old(self).wf(),
        ensures
            final(self).wf(),
            fresh == (timeline_of(old(self)@, id.id) is None && owner(old(self)@, entry.key) is None),
            fresh ==> final(self)@ == old(self)@.push((id.id, seq![entry])),
            !fresh ==> final(self)@ == old(self)@,
    {
        if self.find(&id.id).is_some() || self.find_owner(&entry.key).is_some() {
            return false;
        }
        let ghost h = self@;
        let mut entries: Vec<KeyEntry<N>> = Vec::new();
        entries.push(entry);
        self.timelines.push(KeyTimeline { stable_id: id, entries });
        proof {
            assert(entries@ =~= seq![entry]);
            assert(self@ =~= h.push((id.id, seq![entry])));
            lemma_enrolled(h, id.id, entry);
        }
        true
    }

    /// Gives the validator at position `i` a new key.
    fn append(&mut self, i: usize, entry: KeyEntry<N>)
        requires
            old(self).wf(),
            i < old(self)@.len(),
            old(self)@[i as int].1.last().v_eff < entry.v_eff,
            owner(old(self)@, entry.key) matches Some(k) ==> k == i,
        ensures
            final(self).wf(),
            final(self)@ == with_key(old(self)@, i as int, entry),
    {
        let ghost h = self@;
        self.timelines[i].entries.push(entry);
        proof {
            assert(self@ =~= with_key(h, i as int, entry));
            lemma_appended_key(h, i as int, entry);
        }
    }

    /// A validator takes up a new key. The old key names the validator; the
    /// new one must come after its last one and after the view that decides
    /// the rotation, and must not belong to anybody else.
    pub fn apply_rotation(&mut self, validator: &[u8; N], new_key: [u8; N], v_eff: u64, block_view: u64) -> (r: Result<
        (),
        RotationError,
    >)
        requires
            old(self).wf(),
        ensures
            final(self).wf(),
            r == rotation_verdict(old(self)@, *validator, new_key, v_eff, block_view),
            match r {
                Ok(_) => final(self)@ == with_key(
                    old(self)@,
                    owner(old(self)@, *validator)->0,
                    (KeyEntry { v_eff, key: new_key }),
                ),
                Err(_) => final(self)@ == old(self)@,
            },
    {
        let i = match self.find_owner(validator) {
            Some(i) => i,
            None => {
                return Err(RotationError::UnknownValidator);
            },
        };
        proof {
            let j = choose|j: int| key_sits_at(self@, *validator, i as int, j);
            assert(0 <= i < self@.len());
        }
        if v_eff <= block_view {
            return Err(RotationError::NotAfterBlock);
        }
        let n = self.timelines[i].entries.len();
        assert(self@[i as int].1.len() > 0);
        if v_eff <= self.timelines[i].entries[n - 1].v_eff {
            return Err(RotationError::NotAfterLast);
        }
        match self.find_owner(&new_key) {
            Some(k) => {
                if k != i {
                    return Err(RotationError::KeyOfAnother);
                }
            },
            None => {},
        }
        self.append(i, KeyEntry { v_eff, key: new_key });
        Ok(())
    }

    /// The validator with identity `id` takes up a new key, which must come
    /// after its last one and must not belong to anybody else.
    pub fn rotate(&mut self, id: &NodeId, new_key: [u8; N], v_eff: u64) -> (r: Result<(), RotationError>)
        requires
            old(self).wf(),
        ensures
            final(self).wf(),
            r == rotate_verdict(old(self)@, *id, new_key, v_eff),
            match r {
                Ok(_) => final(self)@ == with_key(
                    old(self)@,
                    timeline_of(old(self)@, *id)->0,
                    (KeyEntry { v_eff, key: new_key }),
                ),
                Err(_) => final(self)@ == old(self)@,
            },
    {
        let i = match self.find(id) {
            Some(i) => i,
            None => {
                return Err(RotationError::UnknownValidator);
            },
        };
        let n = self.timelines[i].entries.len();
        assert(self@[i as int].1.len() > 0);
        if v_eff <= self.timelines[i].entries[n - 1].v_eff {
            return Err(RotationError::NotAfterLast);
        }
        match self.find_owner(&new_key) {
            Some(k) => {
                if k != i {
                    return Err(RotationError::KeyOfAnother);
                }
            },
            None => {},
        }
        self.append(i, KeyEntry { v_eff, key: new_key });
        Ok(())
    }

    /// A history with the same timelines.
    pub fn copy(&self) -> (r: KeyHistory<N>)
        ensures
            r@ == self@,
    {
        let mut timelines: Vec<KeyTimeline<N>> = Vec::new();
        let mut i: usize = 0;
        while i < self.timelines.len()
            invariant
                i <= self.timelines.len(),
                timelines.len() == i,
                forall|a: int| 0 <= a < i ==> (#[trigger] timelines@[a]).stable_id == self.timelines@[a].stable_id
                    && timelines@[a].entries@ == self.timelines@[a].entries@,
            decreases self.timelines.len() - i,
        {
            timelines.push(
                KeyTimeline {
                    stable_id: self.timelines[i].stable_id,
                    entries: copy_entries(&self.timelines[i].entries),
                },
            );
            i = i + 1;
        }
        let r = KeyHistory { timelines };
        assert(r@ =~= self@);
        r
    }

    /// Whether two histories hold the same timelines in the same order.
    pub fn same_as(&self, other: &KeyHistory<N>) -> (r: bool)
        ensures
            r == (self@ == other@),
    {
        if self.timelines.len() != other.timelines.len() {
            assert(self@.len() != other@.len());
            return false;
        }
        let mut i: usize = 0;
        while i < self.timelines.len()
            invariant
                i <= self.timelines.len(),
                self.timelines.len() == other.timelines.len(),
                forall|a: int| 0 <= a < i ==> #[trigger] self@[a] == other@[a],
            decreases self.timelines.len() - i,
        {
            if !same(&self.timelines[i].stable_id.id, &other.timelines[i].stable_id.id) || !same_entries(
                &self.timelines[i].entries,
                &other.timelines[i].entries,
            ) {
                assert(self@[i as int] != other@[i as int]);
                return false;
            }
            i = i + 1;
        }
        assert(self@ =~= other@);
        true
    }
}

impl<const N: usize> Clone for KeyHistory<N> {
    fn clone(&self) -> (r: Self)
        ensures
            r@ == self@,
    {
        self.copy()
    }
}

fn copy_entries<const N: usize>(v: &Vec<KeyEntry<N>>) -> (r: Vec<KeyEntry<N>>)
    ensures
        r@ == v@,
{
    let mut out: Vec<KeyEntry<N>> = Vec::new();
    let mut i: usize = 0;
    while i < v.len()
        invariant
            i <= v.len(),
            out@ =~= v@.take(i as int),
        decreases v.len() - i,
    {
        out.push(v[i]);
        i = i + 1;
    }
    assert(v@.take(v@.len() as int) =~= v@);
    out
}

fn same_entries<const N: usize>(a: &Vec<KeyEntry<N>>, b: &Vec<KeyEntry<N>>) -> (r: bool)
    ensures
        r == (a@ == b@),
{
    if a.len() != b.len() {
        return false;
    }
    let mut i: usize = 0;
    while i < a.len()
        invariant
            i <= a.len(),
            a.len() == b.len(),
            forall|j: int| 0 <= j < i ==> #[trigger] a@[j] == b@[j],
        decreases a.len() - i,
    {
        if a[i].v_eff != b[i].v_eff || !same_key(&a[i].key, &b[i].key) {
            assert(a@[i as int] != b@[i as int]);
            return false;
        }
        i = i + 1;
    }
    assert(a@ =~= b@);
    true
}

/// What becomes of a rotation that is named by a key.
pub open spec fn rotation_verdict<const N: usize>(
    h: Timelines<N>,
    validator: [u8; N],
    new_key: [u8; N],
    v_eff: u64,
    block_view: u64,
) -> Result<(), RotationError> {
    match owner(h, validator) {
        None => Err(RotationError::UnknownValidator),
        Some(i) => if v_eff <= block_view {
            Err(RotationError::NotAfterBlock)
        } else if v_eff <= h[i].1.last().v_eff {
            Err(RotationError::NotAfterLast)
        } else if owner(h, new_key) matches Some(k) && k != i {
            Err(RotationError::KeyOfAnother)
        } else {
            Ok(())
        },
    }
}

/// What becomes of a rotation that is named by an identity.
pub open spec fn rotate_verdict<const N: usize>(h: Timelines<N>, id: NodeId, new_key: [u8; N], v_eff: u64) -> Result<
    (),
    RotationError,
> {
    match timeline_of(h, id) {
        None => Err(RotationError::UnknownValidator),
        Some(i) => if v_eff <= h[i].1.last().v_eff {
            Err(RotationError::NotAfterLast)
        } else if owner(h, new_key) matches Some(k) && k != i {
            Err(RotationError::KeyOfAnother)
        } else {
            Ok(())
        },
    }
}

proof fn lemma_owner_position<const N: usize>(h: Timelines<N>, key: [u8; N], i: int)
    requires
        keys_ok(h),
        owns(h, key, i),
    ensures
        owner(h, key) == Some(i),
{
    let k = choose|k: int| owns(h, key, k);
    assert(owns(h, key, k));
}

proof fn lemma_enrolled<const N: usize>(h: Timelines<N>, id: NodeId, e: KeyEntry<N>)
    requires
        keys_ok(h),
        timeline_of(h, id) is None,
        owner(h, e.key) is None,
    ensures
        keys_ok(h.push((id, seq![e]))),
{
    let g = h.push((id, seq![e]));
    let n = h.len() as int;
    assert forall|i: int, j: int| 0 <= i < j < g.len() implies (#[trigger] g[i]).0 != (#[trigger] g[j]).0 by {
        assert(g[i] == h[i]);
        if j < n {
            assert(g[j] == h[j]);
        }
    }
    assert forall|i: int| 0 <= i < g.len() implies (#[trigger] g[i]).1.len() > 0 && rising(g[i].1) by {
        if i < n {
            assert(g[i] == h[i]);
        }
    }
    assert forall|k: [u8; N], a: int, b: int| #[trigger] owns(g, k, a) && #[trigger] owns(g, k, b) implies a == b by {
        let x = choose|x: int| key_sits_at(g, k, a, x);
        let y = choose|y: int| key_sits_at(g, k, b, y);
        if a < n {
            assert(key_sits_at(h, k, a, x));
            assert(owns(h, k, a));
        }
        if b < n {
            assert(key_sits_at(h, k, b, y));
            assert(owns(h, k, b));
        }
    }
}

proof fn lemma_appended_key<const N: usize>(h: Timelines<N>, i: int, e: KeyEntry<N>)
    requires
        keys_ok(h),
        0 <= i < h.len(),
        h[i].1.last().v_eff < e.v_eff,
        owner(h, e.key) matches Some(k) ==> k == i,
    ensures
        keys_ok(with_key(h, i, e)),
{
    let g = with_key(h, i, e);
    let old_entries = h[i].1;
    assert forall|a: int, b: int| 0 <= a < b < g.len() implies (#[trigger] g[a]).0 != (#[trigger] g[b]).0 by {
        assert(h[a].0 != h[b].0);
    }
    assert forall|a: int| 0 <= a < g.len() implies (#[trigger] g[a]).1.len() > 0 && rising(g[a].1) by {
        if a == i {
            let t = old_entries.push(e);
            assert(h[i].1.len() > 0);
            assert forall|x: int, y: int| 0 <= x < y < t.len() implies (#[trigger] t[x]).v_eff < (#[trigger] t[y]).v_eff by {
                assert(t[x] == old_entries[x]);
                if y < old_entries.len() {
                    assert(t[y] == old_entries[y]);
                } else if x < old_entries.len() - 1 {
                    assert(old_entries[x].v_eff < old_entries[old_entries.len() - 1].v_eff);
                }
            }
        } else {
            assert(g[a] == h[a]);
        }
    }
    assert forall|k: [u8; N], a: int, b: int| #[trigger] owns(g, k, a) && #[trigger] owns(g, k, b) implies a == b by {
        let x = choose|x: int| key_sits_at(g, k, a, x);
        let y = choose|y: int| key_sits_at(g, k, b, y);
        lemma_where_owned(h, i, e, k, a, x);
        lemma_where_owned(h, i, e, k, b, y);
    }
}

/// Whoever owns a key after an append owned it before, or it is the new key
/// and its owner is the one who took it up.
proof fn lemma_where_owned<const N: usize>(h: Timelines<N>, i: int, e: KeyEntry<N>, k: [u8; N], a: int, x: int)
    requires
        keys_ok(h),
        0 <= i < h.len(),
        owner(h, e.key) matches Some(p) ==> p == i,
        key_sits_at(with_key(h, i, e), k, a, x),
    ensures
        owns(h, k, a) || (k == e.key && a == i),
        k == e.key ==> a == i,
{
    let g = with_key(h, i, e);
    if a != i {
        assert(key_sits_at(h, k, a, x));
        assert(owns(h, k, a));
        lemma_owner_position(h, k, a);
    } else if x < h[i].1.len() {
        assert(key_sits_at(h, k, a, x));
        assert(owns(h, k, a));
    }
}

proof fn lemma_refused_first<const N: usize>(v: Timelines<N>, i: int)
    requires
        0 <= i < v.len(),
        v[i].1.len() > 0,
        timeline_of(v.take(i), v[i].0) is Some || owner(v.take(i), v[i].1[0].key) is Some,
    ensures
        !keys_ok(v),
{
    let p = v.take(i);
    if timeline_of(p, v[i].0) is Some {
        let k = choose|k: int| 0 <= k < p.len() && (#[trigger] p[k]).0 == v[i].0;
        assert(v[k].0 == v[i].0);
    } else {
        let key = v[i].1[0].key;
        let k = choose|k: int| owns(p, key, k);
        let x = choose|x: int| key_sits_at(p, key, k, x);
        assert(key_sits_at(v, key, k, x));
        assert(owns(v, key, k));
        assert(key_sits_at(v, key, i, 0));
        assert(owns(v, key, i));
    }
}

proof fn lemma_refused_later<const N: usize>(v: Timelines<N>, i: int, j: int, k: int)
    requires
        0 <= i < v.len(),
        0 <= j < v[i].1.len(),
        k != i,
        owns(v.take(i).push((v[i].0, v[i].1.take(j))), v[i].1[j].key, k),
    ensures
        !keys_ok(v),
{
    let p = v.take(i).push((v[i].0, v[i].1.take(j)));
    let key = v[i].1[j].key;
    let x = choose|x: int| key_sits_at(p, key, k, x);
    assert(p[k] == v[k]);
    assert(key_sits_at(v, key, k, x));
    assert(owns(v, key, k));
    assert(key_sits_at(v, key, i, j));
    assert(owns(v, key, i));
}

/// Any key a validator ever had still leads to that validator after others,
/// or the validator itself, take up new keys.
pub proof fn old_keys_keep_their_owner<const N: usize>(h: Timelines<N>, i: int, e: KeyEntry<N>, key: [u8; N], k: int)
    requires
        keys_ok(h),
        0 <= i < h.len(),
        h[i].1.last().v_eff < e.v_eff,
        owner(h, e.key) matches Some(p) ==> p == i,
        owner(h, key) == Some(k),
    ensures
        owner(with_key(h, i, e), key) == Some(k),
{
    let g = with_key(h, i, e);
    lemma_appended_key(h, i, e);
    assert(owns(h, key, k));
    let x = choose|x: int| key_sits_at(h, key, k, x);
    assert(key_sits_at(g, key, k, x));
    lemma_owner_position(g, key, k);
}

/// A rotation changes no key that was in force before the new one is.
pub proof fn rotation_keeps_earlier_keys<const N: usize>(e: Seq<KeyEntry<N>>, x: KeyEntry<N>, view: u64)
    ensures
        view < x.v_eff ==> key_in_force(e.push(x), view) == key_in_force(e, view),
        view >= x.v_eff ==> key_in_force(e.push(x), view) == Some(x.key),
{
    assert(e.push(x).drop_last() =~= e);
}

impl KeyHistory<32> {
    /// The history at genesis: every validator signs with the key that its
    /// identity keeps.
    pub fn new(set: &ValidatorSet) -> (r: ValidatorKeyHistory)
        requires
            set.wf(),
        ensures
            r.wf(),
            r@ == joined(seq![], set@, 0),
    {
        let mut r = KeyHistory::<32>::empty();
        r.mirror(set, 0);
        r
    }

    /// Takes in the members of a committee that takes effect at `v_eff`, as
    /// far as they are new, each with the key that its identity keeps.
    pub fn mirror(&mut self, set: &ValidatorSet, v_eff: u64)
        requires
            old(self).wf(),
        ensures
            final(self).wf(),
            final(self)@ == joined(old(self)@, set@, v_eff),
    {
        let ghost h = self@;
        let mut i: usize = 0;
        assert(set@.take(0) =~= seq![]);
        while i < set.len()
            invariant
                i <= set@.len(),
                self.wf(),
                self@ == joined(h, set@.take(i as int), v_eff),
            decreases set@.len() - i,
        {
            let id = set.member(i).id;
            self.enroll(id, KeyEntry { v_eff, key: id.id });
            proof {
                let t = set@.take(i + 1);
                assert(t.drop_last() =~= set@.take(i as int));
                assert(t.last() == set@[i as int]);
            }
            i = i + 1;
        }
        assert(set@.take(i as int) =~= set@);
    }

    /// The history that goes with the committees alone, with no rotation.
    pub fn from_set_history(history: &ValidatorSetHistory) -> (r: ValidatorKeyHistory)
        requires
            history.wf(),
        ensures
            r.wf(),
            r@ == joined_over(history@),
    {
        let mut r = KeyHistory::<32>::empty();
        let n = history.boundary_count();
        let mut i: usize = 0;
        assert(history@.take(0) =~= seq![]);
        while i < n
            invariant
                i <= n,
                n == history@.len(),
                r.wf(),
                r@ == joined_over(history@.take(i as int)),
            decreases n - i,
        {
            r.mirror(history.set_of(i), history.v_eff_of(i));
            proof {
                let t = history@.take(i + 1);
                assert(t.drop_last() =~= history@.take(i as int));
                assert(t.last() == history@[i as int]);
            }
            i = i + 1;
        }
        assert(history@.take(i as int) =~= history@);
        r
    }
}

/// The history once the members `m` have joined at `v_eff`, as far as they
/// were not known.
pub open spec fn joined(h: Timelines<32>, m: Seq<Member>, v_eff: u64) -> Timelines<32>
    decreases m.len(),
{
    if m.len() == 0 {
        h
    } else {
        let g = joined(h, m.drop_last(), v_eff);
        let id = m.last().id.id;
        if timeline_of(g, id) is None && owner(g, id) is None {
            g.push((id, seq![KeyEntry { v_eff, key: id }]))
        } else {
            g
        }
    }
}

/// The history once the members of all committees have joined.
pub open spec fn joined_over(h: HistoryView) -> Timelines<32>
    decreases h.len(),
{
    if h.len() == 0 {
        seq![]
    } else {
        joined(joined_over(h.drop_last()), h.last().1, h.last().0)
    }
}

impl KeyHistory<48> {
    /// The timelines as they were at genesis: of each validator the entry at
    /// view zero, if it has one, and nothing else.
    pub fn genesis_only(&self) -> (r: BlsKeyHistory)
        requires
            self.wf(),
        ensures
            r.wf(),
            r@ == genesis_timelines(self@),
    {
        let mut timelines: Vec<KeyTimeline<48>> = Vec::new();
        let mut i: usize = 0;
        assert(self@.take(0) =~= seq![]);
        assert(timelines_view(timelines@) =~= seq![]);
        while i < self.timelines.len()
            invariant
                i <= self.timelines.len(),
                self.wf(),
                timelines_view(timelines@) == genesis_timelines(self@.take(i as int)),
            decreases self.timelines.len() - i,
        {
            let ghost before = timelines_view(timelines@);
            assert(self@[i as int].1.len() > 0);
            let first = self.timelines[i].entries[0];
            proof {
                let t = self@.take(i + 1);
                assert(t.drop_last() =~= self@.take(i as int));
                assert(t.last() == self@[i as int]);
            }
            if first.v_eff == 0 {
                let mut entries: Vec<KeyEntry<48>> = Vec::new();
                entries.push(first);
                assert(entries@ =~= seq![first]);
                timelines.push(KeyTimeline { stable_id: self.timelines[i].stable_id, entries });
                assert(timelines_view(timelines@) =~= before.push((self@[i as int].0, seq![first])));
            }
            i = i + 1;
        }
        assert(self@.take(i as int) =~= self@);
        proof {
            lemma_genesis_ok(self@);
        }
        KeyHistory { timelines }
    }
}

/// Of each timeline the entry at view zero. Views rise along a timeline, so
/// that entry is the first or there is none.
pub open spec fn genesis_timelines(h: Timelines<48>) -> Timelines<48>
    decreases h.len(),
{
    if h.len() == 0 {
        seq![]
    } else {
        let g = genesis_timelines(h.drop_last());
        let last = h.last();
        if last.1[0].v_eff == 0 {
            g.push((last.0, seq![last.1[0]]))
        } else {
            g
        }
    }
}

proof fn lemma_genesis_from(h: Timelines<48>, i: int) -> (k: int)
    requires
        0 <= i < genesis_timelines(h).len(),
    ensures
        0 <= k < h.len(),
        i <= k,
        genesis_timelines(h)[i] == (h[k].0, seq![h[k].1[0]]),
        h[k].1[0].v_eff == 0,
    decreases h.len(),
{
    let d = h.drop_last();
    let g = genesis_timelines(d);
    if i < g.len() {
        let k = lemma_genesis_from(d, i);
        assert(d[k] == h[k]);
        k
    } else {
        lemma_genesis_len(d);
        h.len() - 1
    }
}

proof fn lemma_genesis_len(h: Timelines<48>)
    ensures
        genesis_timelines(h).len() <= h.len(),
    decreases h.len(),
{
    if h.len() > 0 {
        lemma_genesis_len(h.drop_last());
    }
}

proof fn lemma_genesis_ok(h: Timelines<48>)
    requires
        keys_ok(h),
    ensures
        keys_ok(genesis_timelines(h)),
    decreases h.len(),
{
    if h.len() > 0 {
        let d = h.drop_last();
        let n = h.len() - 1;
        lemma_prefix_ok(h);
        lemma_genesis_ok(d);
        let g = genesis_timelines(d);
        let last = h.last();
        if last.1[0].v_eff == 0 {
            let e = last.1[0];
            if timeline_of(g, last.0) is Some {
                let i = choose|i: int| 0 <= i < g.len() && (#[trigger] g[i]).0 == last.0;
                let k = lemma_genesis_from(d, i);
                assert(d[k] == h[k]);
                assert(h[k].0 != h[n].0);
            }
            if owner(g, e.key) is Some {
                let i = choose|i: int| owns(g, e.key, i);
                let j = choose|j: int| key_sits_at(g, e.key, i, j);
                let k = lemma_genesis_from(d, i);
                assert(d[k] == h[k]);
                assert(g[i].1 == seq![h[k].1[0]]);
                assert(j == 0);
                assert(h[k].1.len() > 0);
                assert(key_sits_at(h, e.key, k, 0));
                assert(owns(h, e.key, k));
                assert(h[n].1.len() > 0);
                assert(key_sits_at(h, e.key, n, 0));
                assert(owns(h, e.key, n));
            }
            lemma_enrolled(g, last.0, e);
        }
    }
}

proof fn lemma_prefix_ok<const N: usize>(h: Timelines<N>)
    requires
        keys_ok(h),
        h.len() > 0,
    ensures
        keys_ok(h.drop_last()),
{
    let d = h.drop_last();
    assert forall|i: int, j: int| 0 <= i < j < d.len() implies (#[trigger] d[i]).0 != (#[trigger] d[j]).0 by {
        assert(d[i] == h[i] && d[j] == h[j]);
    }
    assert forall|i: int| 0 <= i < d.len() implies (#[trigger] d[i]).1.len() > 0 && rising(d[i].1) by {
        assert(d[i] == h[i]);
    }
    assert forall|k: [u8; N], a: int, b: int| #[trigger] owns(d, k, a) && #[trigger] owns(d, k, b) implies a == b by {
        let x = choose|x: int| key_sits_at(d, k, a, x);
        let y = choose|y: int| key_sits_at(d, k, b, y);
        assert(key_sits_at(h, k, a, x));
        assert(key_sits_at(h, k, b, y));
        assert(owns(h, k, a));
        assert(owns(h, k, b));
    }
}

/// The BLS history to rebuild from: later entries are what a rebuild is meant
/// to confirm, so only those at view zero are taken over.
pub fn genesis_only_bls_seed(loaded: &BlsKeyHistory) -> (r: BlsKeyHistory)
    requires
        loaded.wf(),
    ensures
        r.wf(),
        r@ == genesis_timelines(loaded@),
{
    loaded.genesis_only()
}

} // verus!
