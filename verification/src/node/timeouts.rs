//! Counting timeout votes, view by view.

use vstd::prelude::*;

use crate::bytes::same;
use crate::pacemaker::state_machine::HonestyThresholdEvidence;
use crate::quorum::{a_third_is_harmless, honesty_of, quorum_of};
use crate::types::{copy_opt_qc, opt_qc, QcView, QuorumCertificate};
use crate::validator_set::NodeId;

verus! {

/// The timeout votes for one view: who sent one, the weight behind them, and
/// the freshest trusted certificate that came with one.
#[derive(Debug)]
pub struct TimeoutBucket {
    pub view: u64,
    pub signers: Vec<NodeId>,
    pub signer_weight: u128,
    pub best_high_qc: Option<QuorumCertificate>,
}

#[verifier::ext_equal]
pub struct BucketView {
    pub signers: Seq<NodeId>,
    pub signer_weight: u128,
    pub best_high_qc: Option<QcView>,
}

impl View for TimeoutBucket {
    type V = BucketView;

    open spec fn view(&self) -> BucketView {
        BucketView {
            signers: self.signers@,
            signer_weight: self.signer_weight,
            best_high_qc: opt_qc(self.best_high_qc),
        }
    }
}

/// The buckets, in view order.
#[derive(Debug)]
pub struct TimeoutBuckets {
    buckets: Vec<TimeoutBucket>,
}

/// Buckets by view.
pub type Buckets = Map<u64, BucketView>;

pub open spec fn bucket_list(b: Seq<TimeoutBucket>) -> Seq<(u64, BucketView)> {
    Seq::new(b.len(), |i: int| (b[i].view, b[i]@))
}

pub open spec fn views_rise(s: Seq<(u64, BucketView)>) -> bool {
    forall|i: int, j: int| 0 <= i < j < s.len() ==> (#[trigger] s[i]).0 < (#[trigger] s[j]).0
}

pub open spec fn has_view(s: Seq<(u64, BucketView)>, v: u64) -> bool {
    exists|i: int| 0 <= i < s.len() && (#[trigger] s[i]).0 == v
}

pub open spec fn by_view(s: Seq<(u64, BucketView)>) -> Buckets {
    Map::new(|v: u64| has_view(s, v), |v: u64| s[choose|i: int| 0 <= i < s.len() && (#[trigger] s[i]).0 == v].1)
}

impl View for TimeoutBuckets {
    type V = Buckets;

    closed spec fn view(&self) -> Buckets {
        by_view(bucket_list(self.buckets@))
    }
}

/// The bucket of a view that nobody has timed out at.
pub open spec fn empty_bucket() -> BucketView {
    BucketView { signers: seq![], signer_weight: 0, best_high_qc: None }
}

/// The bucket for `view`.
pub open spec fn bucket_at(m: Buckets, view: u64) -> BucketView {
    if m.contains_key(view) {
        m[view]
    } else {
        empty_bucket()
    }
}

/// `v` is the lowest view that has a bucket.
pub open spec fn is_lowest(m: Buckets, v: u64) -> bool {
    &&& m.contains_key(v)
    &&& forall|w: u64| #[trigger] m.contains_key(w) ==> v <= w
}

/// The buckets once there is room for one more: at capacity, the lowest view
/// has left.
pub open spec fn with_room(m: Buckets, capacity: nat) -> Buckets {
    if m.len() < capacity || m.len() == 0 {
        m
    } else {
        m.remove(choose|v: u64| is_lowest(m, v))
    }
}

/// The fresher of two certificates; of two as fresh the first.
pub open spec fn fresher(a: Option<QcView>, b: Option<QcView>) -> Option<QcView> {
    match (a, b) {
        (Some(x), Some(y)) => if y.view > x.view {
            b
        } else {
            a
        },
        (None, Some(_)) => b,
        _ => a,
    }
}

/// The sum of two weights, or the largest weight there is.
pub open spec fn weight_plus(a: u128, b: u128) -> u128 {
    if a + b > u128::MAX {
        u128::MAX
    } else {
        (a + b) as u128
    }
}

/// The bucket with one more signer.
pub open spec fn tally(b: BucketView, signer: NodeId, weight: u128, qc: Option<QcView>) -> BucketView {
    BucketView {
        signers: b.signers.push(signer),
        signer_weight: weight_plus(b.signer_weight, weight),
        best_high_qc: fresher(b.best_high_qc, qc),
    }
}

/// The buckets for views after `view`.
pub open spec fn later_than(m: Buckets, view: u64) -> Buckets {
    m.restrict(Set::new(|v: u64| v > view))
}

/// What counting a vote led to.
#[derive(Debug)]
pub enum Counted {
    /// The signer had voted for this view before.
    Duplicate,
    /// The vote counts. The evidence is there when this vote lifted the
    /// weight over the honesty threshold.
    Pending { round_sync: Option<HonestyThresholdEvidence> },
    /// The vote completed a quorum; its buckets are gone. `adopt` is the
    /// freshest trusted certificate that the quorum reported.
    Certificate { round_sync: Option<HonestyThresholdEvidence>, adopt: Option<QuorumCertificate> },
}

/// The thresholds and the capacity that votes are counted against.
#[derive(Clone, Copy, Debug)]
pub struct Thresholds {
    pub honesty: u128,
    pub quorum: u128,
    pub capacity: usize,
}

/// This vote lifts the weight over the honesty threshold.
pub open spec fn crosses(b: BucketView, weight: u128, honesty: u128) -> bool {
    b.signer_weight < honesty && weight_plus(b.signer_weight, weight) >= honesty
}

/// The buckets after a vote.
pub open spec fn after_vote(
    m: Buckets,
    view: u64,
    signer: NodeId,
    weight: u128,
    qc: Option<QcView>,
    t: Thresholds,
) -> Buckets {
    let b = bucket_at(m, view);
    let room = if m.contains_key(view) {
        m
    } else {
        with_room(m, t.capacity as nat)
    };
    if b.signers.contains(signer) {
        m
    } else if weight_plus(b.signer_weight, weight) < t.quorum {
        room.insert(view, tally(b, signer, weight, qc))
    } else {
        later_than(room, view)
    }
}

/// A vote that opens a bucket at capacity makes the lowest one leave.
pub open spec fn vote_evicts(m: Buckets, view: u64, capacity: usize) -> bool {
    !m.contains_key(view) && m.len() >= capacity && m.len() > 0
}

pub open spec fn evidence_matches(e: Option<HonestyThresholdEvidence>, crossed: bool, weight: u128) -> bool {
    &&& e is Some <==> crossed
    &&& e matches Some(x) ==> x.weight() == weight
}

proof fn lemma_by_view(s: Seq<(u64, BucketView)>, i: int)
    requires
        views_rise(s),
        0 <= i < s.len(),
    ensures
        by_view(s).contains_key(s[i].0),
        by_view(s)[s[i].0] == s[i].1,
{
    let v = s[i].0;
    assert(has_view(s, v));
    let k = choose|k: int| 0 <= k < s.len() && (#[trigger] s[k]).0 == v;
    if k < i {
        assert(s[k].0 < s[i].0);
    } else if i < k {
        assert(s[i].0 < s[k].0);
    }
}

proof fn lemma_count(s: Seq<(u64, BucketView)>)
    requires
        views_rise(s),
    ensures
        by_view(s).dom().finite(),
        by_view(s).len() == s.len(),
    decreases s.len(),
{
    if s.len() == 0 {
        assert(by_view(s) =~= Map::<u64, BucketView>::empty());
    } else {
        let d = s.drop_last();
        let n = s.len() - 1;
        assert forall|i: int, j: int| 0 <= i < j < d.len() implies (#[trigger] d[i]).0 < (#[trigger] d[j]).0 by {
            assert(d[i] == s[i] && d[j] == s[j]);
        }
        lemma_count(d);
        lemma_insert_at(d, n, s.last().0, s.last().1);
        assert(d.insert(n, (s.last().0, s.last().1)) =~= s);
    }
}

/// Putting a new view where it belongs adds it to the map.
proof fn lemma_insert_at(s: Seq<(u64, BucketView)>, k: int, v: u64, b: BucketView)
    requires
        views_rise(s),
        0 <= k <= s.len(),
        forall|i: int| 0 <= i < k ==> (#[trigger] s[i]).0 < v,
        forall|i: int| k <= i < s.len() ==> (#[trigger] s[i]).0 > v,
    ensures
        views_rise(s.insert(k, (v, b))),
        by_view(s.insert(k, (v, b))) == by_view(s).insert(v, b),
        !by_view(s).contains_key(v),
{
    let t = s.insert(k, (v, b));
    assert forall|i: int, j: int| 0 <= i < j < t.len() implies (#[trigger] t[i]).0 < (#[trigger] t[j]).0 by {
        let si = if i < k {
            i
        } else {
            i - 1
        };
        let sj = if j < k {
            j
        } else {
            j - 1
        };
        if i != k {
            assert(t[i] == s[si]);
        }
        if j != k {
            assert(t[j] == s[sj]);
        }
    }
    if has_view(s, v) {
        let i = choose|i: int| 0 <= i < s.len() && (#[trigger] s[i]).0 == v;
        assert(false);
    }
    let m = by_view(s).insert(v, b);
    assert forall|w: u64| by_view(t).contains_key(w) == m.contains_key(w) by {
        if has_view(t, w) {
            let i = choose|i: int| 0 <= i < t.len() && (#[trigger] t[i]).0 == w;
            if i != k {
                assert(s[if i < k {
                    i
                } else {
                    i - 1
                }].0 == w);
            }
        }
        if has_view(s, w) {
            let i = choose|i: int| 0 <= i < s.len() && (#[trigger] s[i]).0 == w;
            assert(t[if i < k {
                i
            } else {
                i + 1
            }].0 == w);
        }
        assert(t[k].0 == v);
    }
    assert forall|w: u64| #[trigger] by_view(t).contains_key(w) implies by_view(t)[w] == m[w] by {
        let i = choose|i: int| 0 <= i < t.len() && (#[trigger] t[i]).0 == w;
        lemma_by_view(t, i);
        if i != k {
            let x = if i < k {
                i
            } else {
                i - 1
            };
            assert(t[i] == s[x]);
            lemma_by_view(s, x);
        }
    }
    assert(by_view(t) =~= m);
}

proof fn lemma_replace_at(s: Seq<(u64, BucketView)>, k: int, b: BucketView)
    requires
        views_rise(s),
        0 <= k < s.len(),
    ensures
        views_rise(s.update(k, (s[k].0, b))),
        by_view(s.update(k, (s[k].0, b))) == by_view(s).insert(s[k].0, b),
{
    let v = s[k].0;
    let t = s.update(k, (v, b));
    assert forall|i: int, j: int| 0 <= i < j < t.len() implies (#[trigger] t[i]).0 < (#[trigger] t[j]).0 by {
        assert(s[i].0 < s[j].0);
    }
    let m = by_view(s).insert(v, b);
    assert forall|w: u64| by_view(t).contains_key(w) == m.contains_key(w) by {
        if has_view(t, w) {
            let i = choose|i: int| 0 <= i < t.len() && (#[trigger] t[i]).0 == w;
            assert(s[i].0 == w);
        }
        if has_view(s, w) {
            let i = choose|i: int| 0 <= i < s.len() && (#[trigger] s[i]).0 == w;
            assert(t[i].0 == w);
        }
        assert(t[k].0 == v);
    }
    assert forall|w: u64| #[trigger] by_view(t).contains_key(w) implies by_view(t)[w] == m[w] by {
        let i = choose|i: int| 0 <= i < t.len() && (#[trigger] t[i]).0 == w;
        lemma_by_view(t, i);
        lemma_by_view(s, i);
        if i < k {
            assert(s[i].0 < s[k].0);
        } else if k < i {
            assert(s[k].0 < s[i].0);
        }
    }
    assert(by_view(t) =~= m);
}

/// Dropping the first entries drops the lowest views.
proof fn lemma_skip(s: Seq<(u64, BucketView)>, k: int)
    requires
        views_rise(s),
        0 <= k <= s.len(),
    ensures
        views_rise(s.skip(k)),
        forall|w: u64| #[trigger]
            by_view(s.skip(k)).contains_key(w) <==> (by_view(s).contains_key(w) && exists|i: int|
                k <= i < s.len() && (#[trigger] s[i]).0 == w),
        forall|w: u64| #[trigger] by_view(s.skip(k)).contains_key(w) ==> by_view(s.skip(k))[w] == by_view(s)[w],
{
    let t = s.skip(k);
    assert forall|i: int, j: int| 0 <= i < j < t.len() implies (#[trigger] t[i]).0 < (#[trigger] t[j]).0 by {
        assert(t[i] == s[i + k] && t[j] == s[j + k]);
    }
    assert forall|w: u64| #[trigger] by_view(t).contains_key(w) implies by_view(s).contains_key(w) && (exists|i: int|
        k <= i < s.len() && (#[trigger] s[i]).0 == w) && by_view(t)[w] == by_view(s)[w] by {
        let i = choose|i: int| 0 <= i < t.len() && (#[trigger] t[i]).0 == w;
        assert(t[i] == s[i + k]);
        lemma_by_view(t, i);
        lemma_by_view(s, i + k);
    }
    assert forall|w: u64| (exists|i: int| k <= i < s.len() && (#[trigger] s[i]).0 == w) implies #[trigger] by_view(
        t,
    ).contains_key(w) by {
        let i = choose|i: int| k <= i < s.len() && (#[trigger] s[i]).0 == w;
        assert(t[i - k] == s[i]);
    }
}

proof fn lemma_first_is_lowest(s: Seq<(u64, BucketView)>)
    requires
        views_rise(s),
        s.len() > 0,
    ensures
        is_lowest(by_view(s), s[0].0),
        (choose|v: u64| is_lowest(by_view(s), v)) == s[0].0,
        by_view(s.skip(1)) == by_view(s).remove(s[0].0),
{
    let m = by_view(s);
    lemma_by_view(s, 0);
    assert forall|w: u64| #[trigger] m.contains_key(w) implies s[0].0 <= w by {
        let i = choose|i: int| 0 <= i < s.len() && (#[trigger] s[i]).0 == w;
        if i > 0 {
            assert(s[0].0 < s[i].0);
        }
    }
    assert(is_lowest(m, s[0].0));
    let c = choose|v: u64| is_lowest(m, v);
    assert(is_lowest(m, c));
    assert(c <= s[0].0 && s[0].0 <= c);
    lemma_skip(s, 1);
    let t = by_view(s.skip(1));
    let r = m.remove(s[0].0);
    assert forall|w: u64| t.contains_key(w) == r.contains_key(w) by {
        if t.contains_key(w) {
            let i = choose|i: int| 1 <= i < s.len() && (#[trigger] s[i]).0 == w;
            assert(s[0].0 < s[i].0);
        }
        if r.contains_key(w) {
            let i = choose|i: int| 0 <= i < s.len() && (#[trigger] s[i]).0 == w;
            assert(i != 0);
        }
    }
    assert(t =~= r);
}

/// Dropping everything at or below `view`.
proof fn lemma_later(s: Seq<(u64, BucketView)>, k: int, view: u64)
    requires
        views_rise(s),
        0 <= k <= s.len(),
        forall|i: int| 0 <= i < k ==> (#[trigger] s[i]).0 <= view,
        forall|i: int| k <= i < s.len() ==> (#[trigger] s[i]).0 > view,
    ensures
        by_view(s.skip(k)) == later_than(by_view(s), view),
{
    lemma_skip(s, k);
    let t = by_view(s.skip(k));
    let r = later_than(by_view(s), view);
    assert forall|w: u64| t.contains_key(w) == r.contains_key(w) by {
        if t.contains_key(w) {
            let i = choose|i: int| k <= i < s.len() && (#[trigger] s[i]).0 == w;
        }
        if r.contains_key(w) {
            let i = choose|i: int| 0 <= i < s.len() && (#[trigger] s[i]).0 == w;
            assert(i >= k);
        }
    }
    assert(t =~= r);
}

impl TimeoutBuckets {
    pub closed spec fn wf(&self) -> bool {
        views_rise(bucket_list(self.buckets@))
    }

    pub fn new() -> (r: TimeoutBuckets)
        ensures
            r.wf(),
            r@ == Map::<u64, BucketView>::empty(),
    {
        let r = TimeoutBuckets { buckets: Vec::new() };
        assert(r@ =~= Map::<u64, BucketView>::empty());
        r
    }

    /// The number of views that have a bucket.
    pub fn len(&self) -> (r: usize)
        requires
            self.wf(),
        ensures
            r == self@.len(),
            self@.dom().finite(),
    {
        proof {
            lemma_count(bucket_list(self.buckets@));
        }
        self.buckets.len()
    }

    /// The first position whose view is at least `view`.
    fn place_of(&self, view: u64) -> (r: usize)
        requires
            self.wf(),
        ensures
            r <= self.buckets@.len(),
            forall|i: int| 0 <= i < r ==> (#[trigger] bucket_list(self.buckets@)[i]).0 < view,
            forall|i: int| r <= i < self.buckets@.len() ==> (#[trigger] bucket_list(self.buckets@)[i]).0 >= view,
    {
        let ghost s = bucket_list(self.buckets@);
        let mut k: usize = 0;
        while k < self.buckets.len() && self.buckets[k].view < view
            invariant
                k <= self.buckets.len(),
                s == bucket_list(self.buckets@),
                forall|i: int| 0 <= i < k ==> (#[trigger] s[i]).0 < view,
            decreases self.buckets.len() - k,
        {
            assert(s[k as int].0 < view);
            k = k + 1;
        }
        proof {
            assert forall|i: int| k <= i < s.len() implies (#[trigger] s[i]).0 >= view by {
                assert(s[k as int].0 >= view);
                if k < i {
                    assert(s[k as int].0 < s[i].0);
                }
            }
        }
        k
    }

    /// Whether a view has a bucket.
    pub fn contains_key(&self, view: u64) -> (r: bool)
        requires
            self.wf(),
        ensures
            r == self@.contains_key(view),
    {
        match self.get(view) {
            Some(_) => true,
            None => false,
        }
    }

    /// The bucket of a view.
    pub fn get(&self, view: u64) -> (r: Option<&TimeoutBucket>)
        requires
            self.wf(),
        ensures
            match r {
                Some(b) => self@.contains_key(view) && b@ == self@[view] && b.view == view,
                None => !self@.contains_key(view),
            },
    {
        let k = self.place_of(view);
        let ghost s = bucket_list(self.buckets@);
        if k < self.buckets.len() && self.buckets[k].view == view {
            proof {
                assert(s[k as int].0 == view);
                lemma_by_view(s, k as int);
            }
            Some(&self.buckets[k])
        } else {
            proof {
                if has_view(s, view) {
                    let i = choose|i: int| 0 <= i < s.len() && (#[trigger] s[i]).0 == view;
                    assert(k <= i);
                    assert(s[k as int].0 >= view);
                    if k < i {
                        assert(s[k as int].0 < s[i].0);
                    }
                }
            }
            None
        }
    }

    /// The bucket at a position, in view order.
    pub fn nth(&self, i: usize) -> (r: &TimeoutBucket)
        requires
            self.wf(),
            i < self@.len(),
        ensures
            self@.contains_key(r.view),
            self@[r.view] == r@,
            (r.view, r@) == self.listed()[i as int],
    {
        proof {
            lemma_count(bucket_list(self.buckets@));
            lemma_by_view(bucket_list(self.buckets@), i as int);
        }
        &self.buckets[i]
    }

    /// The buckets in view order.
    pub closed spec fn listed(&self) -> Seq<(u64, BucketView)> {
        bucket_list(self.buckets@)
    }

    pub proof fn lemma_listed(&self)
        requires
            self.wf(),
        ensures
            views_rise(self.listed()),
            by_view(self.listed()) == self@,
            self.listed().len() == self@.len(),
            self@.dom().finite(),
    {
        lemma_count(bucket_list(self.buckets@));
    }

    /// Drops the bucket of the lowest view if there is no room for another
    /// one. Says whether it did.
    pub fn evict_to_fit_one(&mut self, capacity: usize) -> (evicted: bool)
        requires
            old(self).wf(),
        ensures
            final(self).wf(),
            final(self)@ == with_room(old(self)@, capacity as nat),
            evicted == (old(self)@.len() >= capacity && old(self)@.len() > 0),
    {
        let ghost s = bucket_list(self.buckets@);
        proof {
            lemma_count(s);
        }
        if self.buckets.len() < capacity || self.buckets.len() == 0 {
            return false;
        }
        let _ = self.buckets.remove(0);
        proof {
            assert(bucket_list(self.buckets@) =~= s.skip(1));
            lemma_skip(s, 1);
            lemma_first_is_lowest(s);
        }
        true
    }

    /// Counts a timeout vote of `signer`, who carries `weight`, for `view`.
    /// `qc` is the certificate that came with it, if that can be trusted.
    /// Says also whether a bucket had to leave.
    pub fn count(
        &mut self,
        view: u64,
        signer: NodeId,
        weight: u128,
        qc: Option<QuorumCertificate>,
        t: Thresholds,
    ) -> (r: (Counted, bool))
        requires
            old(self).wf(),
        ensures
            final(self).wf(),
            final(self)@ == after_vote(old(self)@, view, signer, weight, opt_qc(qc), t),
            ({
                let b = bucket_at(old(self)@, view);
                let sum = weight_plus(b.signer_weight, weight);
                &&& r.1 == vote_evicts(old(self)@, view, t.capacity)
                &&& match r.0 {
                    Counted::Duplicate => b.signers.contains(signer),
                    Counted::Pending { round_sync } => {
                        &&& !b.signers.contains(signer)
                        &&& sum < t.quorum
                        &&& evidence_matches(round_sync, crosses(b, weight, t.honesty), sum)
                    },
                    Counted::Certificate { round_sync, adopt } => {
                        &&& !b.signers.contains(signer)
                        &&& sum >= t.quorum
                        &&& evidence_matches(round_sync, crosses(b, weight, t.honesty), sum)
                        &&& opt_qc(adopt) == fresher(b.best_high_qc, opt_qc(qc))
                    },
                }
            }),
    {
        let ghost m = self@;
        let ghost qv = opt_qc(qc);
        let known = self.contains_key(view);
        let mut evicted = false;
        if !known {
            evicted = self.evict_to_fit_one(t.capacity);
        }
        let ghost room = self@;
        let k = self.place_of(view);
        let ghost s = bucket_list(self.buckets@);
        if !known {
            proof {
                assert(!room.contains_key(view));
                assert forall|i: int| k <= i < s.len() implies (#[trigger] s[i]).0 > view by {
                    lemma_by_view(s, i);
                }
            }
            let fresh = TimeoutBucket { view, signers: Vec::new(), signer_weight: 0, best_high_qc: None };
            let ghost fv = fresh@;
            self.buckets.insert(k, fresh);
            proof {
                assert(fv =~= empty_bucket());
                assert(bucket_list(self.buckets@) =~= s.insert(k as int, (view, fv)));
                lemma_insert_at(s, k as int, view, fv);
            }
        } else {
            proof {
                let i = choose|i: int| 0 <= i < s.len() && (#[trigger] s[i]).0 == view;
                assert(k <= i);
                if k < i {
                    assert(s[k as int].0 < s[i].0);
                }
            }
        }
        let ghost u = bucket_list(self.buckets@);
        let ghost b = bucket_at(m, view);
        proof {
            assert(u[k as int].0 == view);
            lemma_by_view(u, k as int);
            assert(u[k as int].1 == b);
            assert(self.buckets@[k as int]@ == b);
        }
        if contains_id(&self.buckets[k].signers, &signer) {
            return (Counted::Duplicate, evicted);
        }
        let before: u128 = self.buckets[k].signer_weight;
        let after: u128 = before.saturating_add(weight);
        let best = fresher_of(copy_opt_qc(&self.buckets[k].best_high_qc), qc);
        let mut signers = copy_ids(&self.buckets[k].signers);
        signers.push(signer);
        let crossed = before < t.honesty && after >= t.honesty;
        let round_sync = if crossed {
            HonestyThresholdEvidence::from_bucket_weight(after, t.honesty)
        } else {
            None
        };
        if after < t.quorum {
            let next = TimeoutBucket { view, signers, signer_weight: after, best_high_qc: best };
            let ghost nv = next@;
            self.buckets.set(k, next);
            proof {
                assert(nv =~= tally(b, signer, weight, qv));
                assert(bucket_list(self.buckets@) =~= u.update(k as int, (view, nv)));
                lemma_replace_at(u, k as int, nv);
                assert(self@ =~= room.insert(view, nv));
            }
            return (Counted::Pending { round_sync }, evicted);
        }
        let ghost full = self@;
        self.drop_up_to(view);
        proof {
            assert(self@ =~= later_than(room, view));
        }
        (Counted::Certificate { round_sync, adopt: best }, evicted)
    }

    /// Drops the buckets of all views up to `view`.
    fn drop_up_to(&mut self, view: u64)
        requires
            old(self).wf(),
        ensures
            final(self).wf(),
            final(self)@ == later_than(old(self)@, view),
    {
        let ghost s = bucket_list(self.buckets@);
        let ghost mut gone: int = 0;
        assert(s.skip(0) =~= s);
        while self.buckets.len() > 0 && self.buckets[0].view <= view
            invariant
                views_rise(s),
                0 <= gone <= s.len(),
                bucket_list(self.buckets@) == s.skip(gone),
                forall|i: int| 0 <= i < gone ==> (#[trigger] s[i]).0 <= view,
            decreases self.buckets.len(),
        {
            let ghost seen = bucket_list(self.buckets@);
            assert(seen.len() == self.buckets@.len());
            assert(seen[0] == s[gone]);
            let _ = self.buckets.remove(0);
            proof {
                let now = bucket_list(self.buckets@);
                assert forall|i: int| 0 <= i < now.len() implies now[i] == seen[i + 1] by {}
                gone = gone + 1;
                assert(now =~= s.skip(gone));
            }
        }
        proof {
            assert(bucket_list(self.buckets@).len() == self.buckets@.len());
            assert forall|i: int| gone <= i < s.len() implies (#[trigger] s[i]).0 > view by {
                assert(bucket_list(self.buckets@)[0] == s[gone]);
                assert(s[gone].0 > view);
                if gone < i {
                    assert(s[gone].0 < s[i].0);
                }
            }
            lemma_skip(s, gone);
            lemma_later(s, gone, view);
        }
    }
}

/// The fresher of two certificates; of two as fresh the first.
fn fresher_of(a: Option<QuorumCertificate>, b: Option<QuorumCertificate>) -> (r: Option<QuorumCertificate>)
    ensures
        opt_qc(r) == fresher(opt_qc(a), opt_qc(b)),
{
    let take_b = match (&a, &b) {
        (Some(x), Some(y)) => y.view > x.view,
        (None, Some(_)) => true,
        _ => false,
    };
    if take_b {
        b
    } else {
        a
    }
}

/// Whether a list of identities holds `id`.
pub fn contains_id(v: &Vec<NodeId>, id: &NodeId) -> (r: bool)
    ensures
        r == v@.contains(*id),
{
    let mut i: usize = 0;
    while i < v.len()
        invariant
            i <= v.len(),
            forall|j: int| 0 <= j < i ==> v@[j] != *id,
        decreases v.len() - i,
    {
        if same(&v[i], id) {
            assert(v@[i as int] == *id);
            return true;
        }
        i = i + 1;
    }
    false
}

fn copy_ids(v: &Vec<NodeId>) -> (r: Vec<NodeId>)
    ensures
        r@ == v@,
{
    let mut out: Vec<NodeId> = Vec::new();
    let mut i: usize = 0;
    while i < v.len()
        invariant
            i <= v.len(),
            out@ =~= v@.take(i as int),
        decreases v.len() - i,
    {
        out.push(v[i]);
        i = i + 1;
    }
    assert(v@.take(v@.len() as int) =~= v@);
    out
}

// ---- laws ----------------------------------------------------------------

/// However many views are voted on, there are never more buckets than the
/// capacity allows, or one where it allows none.
pub proof fn buckets_stay_bounded(
    m: Buckets,
    view: u64,
    signer: NodeId,
    weight: u128,
    qc: Option<QcView>,
    t: Thresholds,
)
    requires
        m.dom().finite(),
        m.len() <= t.capacity || m.len() <= 1,
    ensures
        ({
            let n = after_vote(m, view, signer, weight, qc, t);
            &&& n.dom().finite()
            &&& n.len() <= t.capacity || n.len() <= 1
        }),
{
    let room = if m.contains_key(view) {
        m
    } else {
        with_room(m, t.capacity as nat)
    };
    if !m.contains_key(view) && m.len() > 0 {
        let low = choose|v: u64| is_lowest(m, v);
        lemma_lowest_exists(m);
    }
    assert(room.dom().finite());
    let n = after_vote(m, view, signer, weight, qc, t);
    let l = later_than(room, view);
    assert(l.dom() =~= room.dom().intersect(Set::new(|v: u64| v > view)));
    vstd::set_lib::lemma_len_intersect(room.dom(), Set::new(|v: u64| v > view));
    if m.contains_key(view) {
        assert(room.insert(view, tally(bucket_at(m, view), signer, weight, qc)).dom() =~= room.dom());
    }
}

pub(crate) proof fn lemma_lowest_exists(m: Buckets)
    requires
        m.dom().finite(),
        m.len() > 0,
    ensures
        exists|v: u64| is_lowest(m, v),
    decreases m.len(),
{
    let x = m.dom().choose();
    assert(m.dom().contains(x));
    if m.len() == 1 {
        assert(m.remove(x).dom() =~= m.dom().remove(x));
        assert forall|w: u64| #[trigger] m.contains_key(w) implies x <= w by {
            if w != x {
                assert(m.dom().remove(x).contains(w));
                assert(m.dom().remove(x).len() == 0);
            }
        }
        assert(is_lowest(m, x));
    } else {
        let r = m.remove(x);
        assert(r.dom() =~= m.dom().remove(x));
        lemma_lowest_exists(r);
        let v = choose|v: u64| is_lowest(r, v);
        let low = if x < v {
            x
        } else {
            v
        };
        assert forall|w: u64| #[trigger] m.contains_key(w) implies low <= w by {
            if w != x {
                assert(r.contains_key(w));
            }
        }
        assert(is_lowest(m, low));
    }
}

/// A second vote of the same signer for the same view changes nothing.
pub proof fn repeated_votes_change_nothing(
    m: Buckets,
    view: u64,
    signer: NodeId,
    weight: u128,
    qc: Option<QcView>,
    t: Thresholds,
)
    requires
        bucket_at(m, view).signers.contains(signer),
    ensures
        after_vote(m, view, signer, weight, qc, t) == m,
        !vote_evicts(m, view, t.capacity),
{
}

/// Votes of validators that together hold no more than a third of the weight
/// complete no quorum and prove nothing.
pub proof fn a_faulty_minority_moves_nothing(b: BucketView, weight: u128, total: nat, t: Thresholds)
    requires
        total > 0,
        t.honesty == honesty_of(total),
        t.quorum == quorum_of(total),
        b.signer_weight + weight <= total / 3,
    ensures
        !crosses(b, weight, t.honesty),
        weight_plus(b.signer_weight, weight) < t.quorum,
{
    a_third_is_harmless(total, (b.signer_weight + weight) as nat);
}

/// The evidence for a view appears once: when the threshold is passed, later
/// votes in the same bucket do not pass it again.
pub proof fn round_sync_fires_once(b: BucketView, signer: NodeId, w1: u128, w2: u128, qc: Option<QcView>, honesty: u128)
    requires
        weight_plus(b.signer_weight, w1) >= honesty,
    ensures
        !crosses(tally(b, signer, w1, qc), w2, honesty),
{
}

/// A vote without a trusted certificate leaves the best one as it was; one
/// with a certificate never makes it older.
pub proof fn best_certificate_only_gets_fresher(b: BucketView, signer: NodeId, weight: u128, qc: Option<QcView>)
    ensures
        qc is None ==> tally(b, signer, weight, qc).best_high_qc == b.best_high_qc,
        b.best_high_qc matches Some(x) ==> tally(b, signer, weight, qc).best_high_qc->0.view >= x.view,
        tally(b, signer, weight, qc).best_high_qc == b.best_high_qc || tally(b, signer, weight, qc).best_high_qc == qc,
{
}

} // verus!
