//! Who proposes at which view.

use std::collections::HashMap;

use vstd::prelude::*;
use vstd::rwlock::{RwLock, RwLockPredicate};

use crate::validator_history::{
    history_ok, lemma_regime, lemma_start_of_regime, no_empty_committee, regime, regime_start, set_at, HistoryView,
    ValidatorSetHistory,
};
use crate::validator_set::{weight_sum, Member, NodeId, ValidatorSet};

verus! {

/// Maps a view to the node that proposes there.
///
/// The answer depends on the view and on the selector's committees alone:
/// every call and every replica gets the same one, and every view has one.
pub trait LeaderSelector {
    /// The selector was set up soundly.
    closed spec fn wf(&self) -> bool {
        arbitrary()
    }

    /// The proposer at `view`.
    closed spec fn leader(&self, view: u64) -> NodeId {
        arbitrary()
    }

    fn leader_for_view(&self, view: u64) -> (r: NodeId)
        requires
            self.wf(),
        ensures
            r == self.leader(view),
    ;
}

/// The proposer at `view` when validators take turns in identifier order.
pub open spec fn round_robin_leader(h: HistoryView, view: u64) -> NodeId {
    let m = set_at(h, view);
    m[view as int % m.len() as int].id.id
}

/// Rotates through the committee that is authoritative at each view. Before
/// a boundary leaders come from the old committee, from the boundary on they
/// come from the new one.
#[derive(Debug)]
pub struct RoundRobinSelector {
    history: ValidatorSetHistory,
}

impl View for RoundRobinSelector {
    type V = HistoryView;

    closed spec fn view(&self) -> HistoryView {
        self.history@
    }
}

impl RoundRobinSelector {
    /// A selector over `history`, which must not hold an empty committee.
    pub fn new(history: ValidatorSetHistory) -> (r: RoundRobinSelector)
        requires
            history.wf(),
            no_empty_committee(history@),
        ensures
            r.wf(),
            r@ == history@,
    {
        RoundRobinSelector { history }
    }

    /// A selector over one committee for all views.
    pub fn from_genesis_set(set: ValidatorSet) -> (r: RoundRobinSelector)
        requires
            set.wf(),
            set@.len() > 0,
        ensures
            r.wf(),
            r@ == seq![(0u64, set@)],
    {
        RoundRobinSelector::new(ValidatorSetHistory::from_genesis(set))
    }

    /// The proposer at `view`: `set_at(view)[view % len]`.
    pub fn leader_for_view(&self, view: u64) -> (r: NodeId)
        requires
            self.wf(),
        ensures
            r == round_robin_leader(self@, view),
    {
        let vs = self.history.set_at(view);
        proof {
            lemma_regime(self@, view);
            assert(self@[regime(self@, view)].1.len() > 0);
        }
        let idx: u64 = view % (vs.len() as u64);
        vs.member(idx as usize).id.into_node_id()
    }
}

impl LeaderSelector for RoundRobinSelector {
    open spec fn wf(&self) -> bool {
        &&& history_ok(self@)
        &&& no_empty_committee(self@)
    }

    open spec fn leader(&self, view: u64) -> NodeId {
        round_robin_leader(self@, view)
    }

    fn leader_for_view(&self, view: u64) -> (r: NodeId) {
        RoundRobinSelector::leader_for_view(self, view)
    }
}

// ---- the weighted accumulator ------------------------------------------

/// The nearest value that a priority can take.
pub open spec fn clamp(x: int) -> i128 {
    if x > i128::MAX {
        i128::MAX
    } else if x < i128::MIN {
        i128::MIN
    } else {
        x as i128
    }
}

/// The priorities after each has grown by its validator's weight.
pub open spec fn bumped(p: Seq<i128>, m: Seq<Member>) -> Seq<i128> {
    Seq::new(p.len(), |i: int| clamp(p[i] + m[i].weight))
}

/// The lowest position among those of the highest priority.
pub open spec fn foremost(p: Seq<i128>) -> int
    decreases p.len(),
{
    if p.len() <= 1 {
        0
    } else {
        let b = foremost(p.drop_last());
        if p.last() > p[b] {
            p.len() - 1
        } else {
            b
        }
    }
}

/// One round: every priority grows, the foremost validator pays the total.
pub open spec fn round(p: Seq<i128>, m: Seq<Member>) -> Seq<i128> {
    let q = bumped(p, m);
    let b = foremost(q);
    q.update(b, clamp(q[b] - weight_sum(m)))
}

/// The priorities after `n` rounds that start from zero.
pub open spec fn priorities_after(m: Seq<Member>, n: nat) -> Seq<i128>
    decreases n,
{
    if n == 0 {
        Seq::new(m.len(), |i: int| 0i128)
    } else {
        round(priorities_after(m, (n - 1) as nat), m)
    }
}

/// The position of the validator that leads in round `n`, counted from zero.
pub open spec fn leader_index(m: Seq<Member>, n: nat) -> int {
    foremost(bumped(priorities_after(m, n), m))
}

/// The proposer at `view` under weighted rotation: each regime runs its own
/// accumulator from the view at which it opens.
pub open spec fn weighted_leader(h: HistoryView, view: u64) -> NodeId {
    let m = set_at(h, view);
    m[leader_index(m, (view - regime_start(h, view)) as nat)].id.id
}

/// `foremost` is a position of the highest priority, and every earlier one
/// is lower: ties go to the lowest position.
pub proof fn lemma_foremost(p: Seq<i128>)
    requires
        p.len() > 0,
    ensures
        0 <= foremost(p) < p.len(),
        forall|j: int| 0 <= j < p.len() ==> #[trigger] p[j] <= p[foremost(p)],
        forall|j: int| 0 <= j < foremost(p) ==> #[trigger] p[j] < p[foremost(p)],
    decreases p.len(),
{
    if p.len() > 1 {
        let d = p.drop_last();
        lemma_foremost(d);
        let b = foremost(d);
        assert(d[b] == p[b]);
        assert forall|j: int| 0 <= j < p.len() implies #[trigger] p[j] <= p[foremost(p)] by {
            if j < d.len() {
                assert(d[j] == p[j]);
            }
        }
        assert forall|j: int| 0 <= j < foremost(p) implies #[trigger] p[j] < p[foremost(p)] by {
            assert(d[j] == p[j]);
        }
    }
}

/// A position of the highest priority with every earlier one lower is the
/// foremost.
pub proof fn lemma_foremost_unique(p: Seq<i128>, b: int)
    requires
        0 <= b < p.len(),
        forall|j: int| 0 <= j < p.len() ==> #[trigger] p[j] <= p[b],
        forall|j: int| 0 <= j < b ==> #[trigger] p[j] < p[b],
    ensures
        foremost(p) == b,
{
    lemma_foremost(p);
    let f = foremost(p);
    if f < b {
        assert(p[f] < p[b]);
    } else if b < f {
        assert(p[b] < p[f]);
    }
}

pub(crate) proof fn lemma_priorities_len(m: Seq<Member>, n: nat)
    requires
        m.len() > 0,
    ensures
        priorities_after(m, n).len() == m.len(),
    decreases n,
{
    if n > 0 {
        lemma_priorities_len(m, (n - 1) as nat);
        lemma_foremost(bumped(priorities_after(m, (n - 1) as nat), m));
    }
}

/// The sum of `a` and `b`, or the nearest value that fits.
fn saturating_sum(a: i128, b: i128) -> (r: i128)
    ensures
        r == clamp(a + b),
{
    match a.checked_add(b) {
        Some(v) => v,
        None => if b > 0 {
            i128::MAX
        } else {
            i128::MIN
        },
    }
}

/// The difference of `a` and `b`, or the nearest value that fits.
fn saturating_difference(a: i128, b: i128) -> (r: i128)
    ensures
        r == clamp(a - b),
{
    match a.checked_sub(b) {
        Some(v) => v,
        None => if b > 0 {
            i128::MIN
        } else {
            i128::MAX
        },
    }
}

/// One round of the accumulator over the committee `vs`. Says which position
/// leads: the highest priority, ties going to the lowest position.
pub fn accumulator_step(priorities: &mut Vec<i128>, vs: &ValidatorSet) -> (leader: usize)
    requires
        vs.wf(),
        vs@.len() > 0,
        old(priorities)@.len() == vs@.len(),
    ensures
        final(priorities)@ == round(old(priorities)@, vs@),
        leader == foremost(bumped(old(priorities)@, vs@)),
        leader < vs@.len(),
{
    let total_weight: i128 = vs.total_weight() as i128;
    let ghost before: Seq<i128> = priorities@;
    let mut i: usize = 0;
    while i < priorities.len()
        invariant
            i <= priorities.len(),
            priorities.len() == before.len(),
            priorities.len() == vs@.len(),
            forall|j: int| 0 <= j < i ==> #[trigger] priorities@[j] == clamp(before[j] + vs@[j].weight),
            forall|j: int| i <= j < before.len() ==> #[trigger] priorities@[j] == before[j],
        decreases priorities.len() - i,
    {
        let w: i128 = vs.member(i).weight as i128;
        let grown: i128 = saturating_sum(priorities[i], w);
        priorities.set(i, grown);
        i = i + 1;
    }
    let ghost q = bumped(before, vs@);
    assert(priorities@ =~= q);
    let mut best: usize = 0;
    let mut k: usize = 1;
    while k < priorities.len()
        invariant
            priorities@ == q,
            1 <= k <= q.len(),
            best < k,
            forall|j: int| 0 <= j < k ==> #[trigger] q[j] <= q[best as int],
            forall|j: int| 0 <= j < best ==> #[trigger] q[j] < q[best as int],
        decreases priorities.len() - k,
    {
        if priorities[k] > priorities[best] {
            best = k;
        }
        k = k + 1;
    }
    proof {
        lemma_foremost_unique(q, best as int);
    }
    let paid: i128 = saturating_difference(priorities[best], total_weight);
    priorities.set(best, paid);
    assert(priorities@ =~= round(before, vs@));
    best
}

/// How far the accumulator of one regime has been run.
#[derive(Debug)]
pub struct RegimeFrontier {
    /// The latest view whose leader was computed; none before the first.
    last_view: Option<u64>,
    /// The priorities after that view.
    priorities: Vec<i128>,
}

impl RegimeFrontier {
    /// The number of rounds that were run since the regime opened.
    pub closed spec fn rounds(&self, start: u64) -> int {
        match self.last_view {
            Some(v) => v - start + 1,
            None => 0,
        }
    }

    /// The frontier belongs to the regime with committee `m` that opened at
    /// `start`.
    pub closed spec fn agrees(&self, m: Seq<Member>, start: u64) -> bool {
        &&& self.rounds(start) >= 0
        &&& self.last_view matches Some(v) ==> v >= start
        &&& self.priorities@ == priorities_after(m, self.rounds(start) as nat)
    }
}

/// What the cache may hold: frontiers that agree with the committees of
/// `history`, each filed under the view at which its regime opened.
pub struct FrontierRule {
    pub history: HistoryView,
}

impl RwLockPredicate<HashMap<u64, RegimeFrontier>> for FrontierRule {
    open spec fn inv(self, v: HashMap<u64, RegimeFrontier>) -> bool {
        forall|start: u64| #[trigger]
            v@.contains_key(start) ==> v@[start].agrees(set_at(self.history, start), start)
    }
}

/// Weighted rotation: in the long run a validator leads in proportion to its
/// weight.
///
/// Each view every validator's priority grows by its weight; the validator
/// with the highest priority leads and pays the total weight. Each regime
/// starts from zero. A cache remembers how far each regime has been run, so
/// that asking in view order costs one round per view; it never changes an
/// answer.
pub struct WeightedAccumulatorSelector {
    history: ValidatorSetHistory,
    state: RwLock<HashMap<u64, RegimeFrontier>, FrontierRule>,
}

impl View for WeightedAccumulatorSelector {
    type V = HistoryView;

    closed spec fn view(&self) -> HistoryView {
        self.history@
    }
}

fn zero_priorities(n: usize) -> (r: Vec<i128>)
    ensures
        r@ == Seq::new(n as nat, |i: int| 0i128),
{
    let mut out: Vec<i128> = Vec::new();
    let mut i: usize = 0;
    while i < n
        invariant
            i <= n,
            out@ =~= Seq::new(i as nat, |i: int| 0i128),
        decreases n - i,
    {
        out.push(0);
        i = i + 1;
    }
    out
}

/// Runs the accumulator on from `from` rounds to `to` rounds and says who
/// led last.
fn run_rounds(priorities: &mut Vec<i128>, vs: &ValidatorSet, from: u64, to: u64, Ghost(start): Ghost<u64>) -> (leader:
    usize)
    requires
        vs.wf(),
        vs@.len() > 0,
        start <= from <= to,
        old(priorities)@ == priorities_after(vs@, (from - start) as nat),
    ensures
        final(priorities)@ == priorities_after(vs@, (to - start + 1) as nat),
        leader == leader_index(vs@, (to - start) as nat),
        leader < vs@.len(),
{
    let mut v: u64 = from;
    proof {
        lemma_priorities_len(vs@, (from - start) as nat);
    }
    while v < to
        invariant
            start <= from <= v <= to,
            vs.wf(),
            vs@.len() > 0,
            priorities@.len() == vs@.len(),
            priorities@ == priorities_after(vs@, (v - start) as nat),
        decreases to - v,
    {
        let _ = accumulator_step(priorities, vs);
        v = v + 1;
        proof {
            lemma_priorities_len(vs@, (v - start) as nat);
            assert((v - start) as nat == (v - 1 - start) as nat + 1);
        }
    }
    accumulator_step(priorities, vs)
}

impl WeightedAccumulatorSelector {
    /// The cache is tied to the selector's own committees.
    pub closed spec fn cache_bound(&self) -> bool {
        self.state.pred() == (FrontierRule { history: self.history@ })
    }

    /// A selector over `history`, which must not hold an empty committee.
    pub fn new(history: ValidatorSetHistory) -> (r: WeightedAccumulatorSelector)
        requires
            history.wf(),
            no_empty_committee(history@),
        ensures
            r.wf(),
            r@ == history@,
    {
        let state = RwLock::new(HashMap::new(), Ghost(FrontierRule { history: history@ }));
        WeightedAccumulatorSelector { history, state }
    }

    /// A selector over one committee for all views.
    pub fn from_genesis_set(set: ValidatorSet) -> (r: WeightedAccumulatorSelector)
        requires
            set.wf(),
            set@.len() > 0,
        ensures
            r.wf(),
            r@ == seq![(0u64, set@)],
    {
        WeightedAccumulatorSelector::new(ValidatorSetHistory::from_genesis(set))
    }

    /// The view at which the regime of `view` opened.
    pub fn regime_start_for(&self, view: u64) -> (r: u64)
        requires
            self.wf(),
        ensures
            r == regime_start(self@, view),
    {
        let k = self.history.regime_for(view);
        self.history.v_eff_of(k)
    }

    /// The proposer at `view`.
    pub fn leader_for_view(&self, view: u64) -> (r: NodeId)
        requires
            self.wf(),
        ensures
            r == weighted_leader(self@, view),
    {
        let vs = self.history.set_at(view);
        let start: u64 = self.regime_start_for(view);
        proof {
            lemma_regime(self@, view);
            lemma_start_of_regime(self@, view);
            assert(self@[regime(self@, view)].1.len() > 0);
        }
        let (mut table, handle) = self.state.acquire_write();
        let cached = table.remove(&start);
        let mut frontier = match cached {
            Some(f) => f,
            None => RegimeFrontier { last_view: None, priorities: zero_priorities(vs.len()) },
        };
        assert(frontier.agrees(vs@, start));
        let leader: usize = match frontier.last_view {
            Some(last) => if view <= last {
                let mut fresh = zero_priorities(vs.len());
                run_rounds(&mut fresh, vs, start, view, Ghost(start))
            } else {
                let led = run_rounds(&mut frontier.priorities, vs, last + 1, view, Ghost(start));
                frontier.last_view = Some(view);
                led
            },
            None => {
                let led = run_rounds(&mut frontier.priorities, vs, start, view, Ghost(start));
                frontier.last_view = Some(view);
                led
            },
        };
        assert(frontier.agrees(vs@, start));
        table.insert(start, frontier);
        handle.release_write(table);
        vs.member(leader).id.into_node_id()
    }
}

impl LeaderSelector for WeightedAccumulatorSelector {
    open spec fn wf(&self) -> bool {
        &&& history_ok(self@)
        &&& no_empty_committee(self@)
        &&& self.cache_bound()
    }

    open spec fn leader(&self, view: u64) -> NodeId {
        weighted_leader(self@, view)
    }

    fn leader_for_view(&self, view: u64) -> (r: NodeId) {
        WeightedAccumulatorSelector::leader_for_view(self, view)
    }
}

} // verus!
