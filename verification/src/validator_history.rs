//! The committees over time: a committee is authoritative from the view at
//! which it takes effect until the next one does.

use vstd::prelude::*;

use crate::validator_set::{committee, Member, ValidatorSet};

verus! {

/// A committee and the first view at which it is authoritative.
#[derive(Debug)]
pub struct Boundary {
    pub v_eff: u64,
    pub set: ValidatorSet,
}

/// A history as a value: boundaries with their committees.
pub type HistoryView = Seq<(u64, Seq<Member>)>;

pub open spec fn boundaries_view(b: Seq<Boundary>) -> HistoryView {
    Seq::new(b.len(), |i: int| (b[i].v_eff, b[i].set@))
}

/// What holds of every history: it opens with a committee at view zero,
/// boundaries rise strictly, and every committee is sound.
pub open spec fn history_ok(h: HistoryView) -> bool {
    &&& h.len() > 0
    &&& h[0].0 == 0
    &&& forall|i: int, j: int| 0 <= i < j < h.len() ==> (#[trigger] h[i]).0 < (#[trigger] h[j]).0
    &&& forall|i: int| 0 <= i < h.len() ==> committee((#[trigger] h[i]).1)
}

/// Every committee of the history has a member.
pub open spec fn no_empty_committee(h: HistoryView) -> bool {
    forall|i: int| 0 <= i < h.len() ==> (#[trigger] h[i]).1.len() > 0
}

/// The position of the last boundary at or before `view`.
pub open spec fn regime(h: HistoryView, view: u64) -> int
    decreases h.len(),
{
    if h.len() <= 1 || h.last().0 <= view {
        h.len() - 1
    } else {
        regime(h.drop_last(), view)
    }
}

/// The view at which the regime of `view` opened.
pub open spec fn regime_start(h: HistoryView, view: u64) -> u64 {
    h[regime(h, view)].0
}

/// The committee that is authoritative at `view`.
pub open spec fn set_at(h: HistoryView, view: u64) -> Seq<Member> {
    h[regime(h, view)].1
}

/// `regime` is the one position whose boundary is at or before `view` while
/// the next, if there is one, lies after it.
pub proof fn lemma_regime(h: HistoryView, view: u64)
    requires
        history_ok(h),
    ensures
        0 <= regime(h, view) < h.len(),
        h[regime(h, view)].0 <= view,
        forall|i: int| regime(h, view) < i < h.len() ==> (#[trigger] h[i]).0 > view,
    decreases h.len(),
{
    if h.len() > 1 && h.last().0 > view {
        let d = h.drop_last();
        assert(history_ok(d)) by {
            assert forall|i: int, j: int| 0 <= i < j < d.len() implies (#[trigger] d[i]).0 < (#[trigger] d[j]).0 by {
                assert(d[i] == h[i] && d[j] == h[j]);
            }
            assert forall|i: int| 0 <= i < d.len() implies committee((#[trigger] d[i]).1) by {
                assert(d[i] == h[i]);
            }
        }
        lemma_regime(d, view);
        assert(d[regime(h, view)] == h[regime(h, view)]);
        assert forall|i: int| regime(h, view) < i < h.len() implies (#[trigger] h[i]).0 > view by {
            if i < d.len() {
                assert(d[i] == h[i]);
            }
        }
    } else {
        assert(h[0].0 <= view);
        assert(h.last() == h[h.len() - 1]);
    }
}

/// A position whose boundary is at or before `view`, the next lying after
/// it, is the regime of `view`.
pub proof fn lemma_regime_unique(h: HistoryView, view: u64, k: int)
    requires
        history_ok(h),
        0 <= k < h.len(),
        h[k].0 <= view,
        k + 1 < h.len() ==> h[k + 1].0 > view,
    ensures
        regime(h, view) == k,
{
    lemma_regime(h, view);
    let r = regime(h, view);
    if r < k {
        assert(h[k].0 > view);
    } else if k < r {
        assert(k + 1 <= r);
        if k + 1 < r {
            assert(h[k + 1].0 < h[r].0);
        }
    }
}

/// The first view of a regime belongs to that regime.
pub proof fn lemma_start_of_regime(h: HistoryView, view: u64)
    requires
        history_ok(h),
    ensures
        regime(h, regime_start(h, view)) == regime(h, view),
        regime_start(h, view) <= view,
{
    lemma_regime(h, view);
    let k = regime(h, view);
    if k + 1 < h.len() {
        assert(h[k].0 < h[k + 1].0);
    }
    lemma_regime_unique(h, h[k].0, k);
}

/// Committees that take effect later do not touch the committee at an
/// earlier view.
pub proof fn later_boundary_keeps_earlier_committee(h: HistoryView, v_eff: u64, set: Seq<Member>, view: u64)
    requires
        history_ok(h),
        view < v_eff,
    ensures
        set_at(h.push((v_eff, set)), view) == set_at(h, view),
        regime_start(h.push((v_eff, set)), view) == regime_start(h, view),
{
    let g = h.push((v_eff, set));
    assert(g.drop_last() =~= h);
    lemma_regime(h, view);
    assert(regime(g, view) == regime(h, view));
}

/// From the view of the newest boundary on, its committee is authoritative.
pub proof fn newest_boundary_rules_from_its_view(h: HistoryView, v_eff: u64, set: Seq<Member>, view: u64)
    requires
        history_ok(h.push((v_eff, set))),
        view >= v_eff,
    ensures
        set_at(h.push((v_eff, set)), view) == set,
        regime_start(h.push((v_eff, set)), view) == v_eff,
{
    let g = h.push((v_eff, set));
    assert(g[g.len() - 1] == (v_eff, set));
    lemma_regime_unique(g, view, g.len() - 1);
}

/// Why a boundary was refused.
#[derive(Clone, Copy, Debug, PartialEq, Eq, Structural)]
pub enum BoundaryError {
    /// The boundary does not lie after the newest one.
    NotAfter(u64),
}

/// The committees in the order in which they take effect.
#[derive(Debug)]
pub struct ValidatorSetHistory {
    boundaries: Vec<Boundary>,
}

impl View for ValidatorSetHistory {
    type V = HistoryView;

    closed spec fn view(&self) -> HistoryView {
        boundaries_view(self.boundaries@)
    }
}

impl ValidatorSetHistory {
    pub open spec fn wf(&self) -> bool {
        history_ok(self@)
    }

    /// A history that knows the genesis committee only.
    pub fn from_genesis(set: ValidatorSet) -> (r: ValidatorSetHistory)
        requires
            set.wf(),
        ensures
            r.wf(),
            r@ == seq![(0u64, set@)],
    {
        let mut boundaries: Vec<Boundary> = Vec::new();
        boundaries.push(Boundary { v_eff: 0, set });
        let r = ValidatorSetHistory { boundaries };
        assert(r@ =~= seq![(0u64, set@)]);
        r
    }

    /// A history of the given boundaries as they stand, if they make one.
    pub fn from_boundaries(boundaries: Vec<Boundary>) -> (r: Option<ValidatorSetHistory>)
        requires
            forall|i: int| 0 <= i < boundaries@.len() ==> committee((#[trigger] boundaries@[i]).set@),
        ensures
            r is Some <==> history_ok(boundaries_view(boundaries@)),
            r matches Some(h) ==> h@ == boundaries_view(boundaries@),
    {
        let ghost v = boundaries_view(boundaries@);
        if boundaries.len() == 0 {
            return None;
        }
        assert(v[0].0 == boundaries@[0].v_eff);
        if boundaries[0].v_eff != 0 {
            return None;
        }
        let mut i: usize = 1;
        while i < boundaries.len()
            invariant
                1 <= i <= boundaries.len(),
                v == boundaries_view(boundaries@),
                forall|a: int, b: int| 0 <= a < b < i ==> (#[trigger] v[a]).0 < (#[trigger] v[b]).0,
            decreases boundaries.len() - i,
        {
            assert(v[i - 1].0 == boundaries@[i - 1].v_eff);
            assert(v[i as int].0 == boundaries@[i as int].v_eff);
            if boundaries[i - 1].v_eff >= boundaries[i].v_eff {
                return None;
            }
            i = i + 1;
        }
        assert forall|k: int| 0 <= k < v.len() implies committee((#[trigger] v[k]).1) by {
            assert(v[k].1 == boundaries@[k].set@);
        }
        Some(ValidatorSetHistory { boundaries })
    }

    /// Whether two histories hold the same boundaries.
    pub fn same_as(&self, other: &ValidatorSetHistory) -> (r: bool)
        ensures
            r == (self@ == other@),
    {
        if self.boundaries.len() != other.boundaries.len() {
            assert(self@.len() != other@.len());
            return false;
        }
        let mut i: usize = 0;
        while i < self.boundaries.len()
            invariant
                i <= self.boundaries.len(),
                self.boundaries.len() == other.boundaries.len(),
                forall|a: int| 0 <= a < i ==> #[trigger] self@[a] == other@[a],
            decreases self.boundaries.len() - i,
        {
            if self.boundaries[i].v_eff != other.boundaries[i].v_eff || !self.boundaries[i].set.same_as(
                &other.boundaries[i].set,
            ) {
                assert(self@[i as int] != other@[i as int]);
                return false;
            }
            i = i + 1;
        }
        assert(self@ =~= other@);
        true
    }

    /// Adds a committee that takes effect at `v_eff`, which must lie after
    /// every boundary so far.
    pub fn insert_boundary(&mut self, v_eff: u64, set: ValidatorSet) -> (r: Result<(), BoundaryError>)
        requires
            old(self).wf(),
            set.wf(),
        ensures
            final(self).wf(),
            r is Ok <==> v_eff > old(self)@.last().0,
            r is Ok ==> final(self)@ == old(self)@.push((v_eff, set@)),
            r is Err ==> final(self)@ == old(self)@ && r->Err_0 == BoundaryError::NotAfter(v_eff),
    {
        let n = self.boundaries.len();
        assert(self@[n - 1] == self@.last());
        if v_eff <= self.boundaries[n - 1].v_eff {
            return Err(BoundaryError::NotAfter(v_eff));
        }
        let ghost before = self@;
        self.boundaries.push(Boundary { v_eff, set });
        proof {
            let g = before.push((v_eff, set@));
            assert(self@ =~= g);
            assert forall|i: int, j: int| 0 <= i < j < g.len() implies (#[trigger] g[i]).0 < (#[trigger] g[j]).0 by {
                assert(g[i] == before[i]);
                if j < before.len() {
                    assert(g[j] == before[j]);
                } else if i < before.len() - 1 {
                    assert(before[i].0 < before[before.len() - 1].0);
                }
            }
            assert forall|i: int| 0 <= i < g.len() implies committee((#[trigger] g[i]).1) by {
                if i < before.len() {
                    assert(g[i] == before[i]);
                }
            }
            assert(g[0] == before[0]);
        }
        Ok(())
    }

    /// The number of boundaries, genesis included.
    pub fn boundary_count(&self) -> (r: usize)
        ensures
            r == self@.len(),
    {
        self.boundaries.len()
    }

    /// The view at which boundary `i` takes effect.
    pub fn v_eff_of(&self, i: usize) -> (r: u64)
        requires
            i < self@.len(),
        ensures
            r == self@[i as int].0,
    {
        self.boundaries[i].v_eff
    }

    /// The committee of boundary `i`.
    pub fn set_of(&self, i: usize) -> (r: &ValidatorSet)
        requires
            i < self@.len(),
        ensures
            r@ == self@[i as int].1,
    {
        &self.boundaries[i].set
    }

    /// The position of the last boundary at or before `view`.
    pub fn regime_for(&self, view: u64) -> (r: usize)
        requires
            self.wf(),
        ensures
            r == regime(self@, view),
            r < self@.len(),
    {
        let mut k: usize = 0;
        assert(self@[0].0 == 0);
        while k + 1 < self.boundaries.len() && self.boundaries[k + 1].v_eff <= view
            invariant
                k < self.boundaries.len(),
                self.wf(),
                self@[k as int].0 <= view,
            decreases self.boundaries.len() - k,
        {
            assert(self@[k + 1].0 <= view);
            k = k + 1;
        }
        proof {
            if k + 1 < self@.len() {
                assert(self@[k + 1].0 > view);
            }
            lemma_regime_unique(self@, view, k as int);
        }
        k
    }

    /// The committee that is authoritative at `view`.
    pub fn set_at(&self, view: u64) -> (r: &ValidatorSet)
        requires
            self.wf(),
        ensures
            r@ == set_at(self@, view),
            r.wf(),
    {
        let k = self.regime_for(view);
        assert(committee(self@[k as int].1));
        &self.boundaries[k].set
    }

    /// The committee of the newest boundary.
    pub fn current_set(&self) -> (r: &ValidatorSet)
        requires
            self.wf(),
        ensures
            r@ == self@.last().1,
            r.wf(),
    {
        let n = self.boundaries.len();
        assert(committee(self@[n - 1].1));
        &self.boundaries[n - 1].set
    }

    /// A history with the same boundaries.
    pub fn copy(&self) -> (r: ValidatorSetHistory)
        ensures
            r@ == self@,
    {
        let mut boundaries: Vec<Boundary> = Vec::new();
        let mut i: usize = 0;
        while i < self.boundaries.len()
            invariant
                i <= self.boundaries.len(),
                boundaries.len() == i,
                forall|j: int| 0 <= j < i ==> (#[trigger] boundaries@[j]).v_eff == self.boundaries@[j].v_eff
                    && boundaries@[j].set@ == self.boundaries@[j].set@,
            decreases self.boundaries.len() - i,
        {
            boundaries.push(Boundary { v_eff: self.boundaries[i].v_eff, set: self.boundaries[i].set.copy() });
            i = i + 1;
        }
        let r = ValidatorSetHistory { boundaries };
        assert(r@ =~= self@);
        r
    }
}

impl Clone for ValidatorSetHistory {
    fn clone(&self) -> (r: Self)
        ensures
            r@ == self@,
    {
        self.copy()
    }
}

} // verus!
