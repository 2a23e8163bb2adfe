//! What leader rotation promises over many views.

use vstd::arithmetic::div_mod::{lemma_fundamental_div_mod, lemma_mod_multiples_vanish, lemma_small_mod};
use vstd::prelude::*;

use crate::pacemaker::leader::{
    bumped, clamp, foremost, leader_index, lemma_foremost, lemma_foremost_unique, priorities_after,
    round_robin_leader, weighted_leader, LeaderSelector, RoundRobinSelector, WeightedAccumulatorSelector,
};
use crate::validator_history::{history_ok, regime_start, set_at, HistoryView};
use crate::validator_set::{committee, lemma_weight_sum_bound, weight_sum, Member};

verus! {

/// How often position `i` led in the first `n` rounds.
pub open spec fn times_led(m: Seq<Member>, n: nat, i: int) -> nat
    decreases n,
{
    if n == 0 {
        0
    } else {
        times_led(m, (n - 1) as nat, i) + (if leader_index(m, (n - 1) as nat) == i {
            1nat
        } else {
            0nat
        })
    }
}

/// The sum of a sequence of priorities.
pub open spec fn priority_sum(p: Seq<i128>) -> int
    decreases p.len(),
{
    if p.len() == 0 {
        0
    } else {
        priority_sum(p.drop_last()) + p.last()
    }
}

/// The committee is small enough that no priority ever leaves the range of
/// its type.
pub open spec fn fits(m: Seq<Member>) -> bool {
    m.len() * weight_sum(m) < 0x4000_0000_0000_0000_0000_0000_0000_0000
}

proof fn lemma_sum_update(p: Seq<i128>, i: int, x: i128)
    requires
        0 <= i < p.len(),
    ensures
        priority_sum(p.update(i, x)) == priority_sum(p) - p[i] + x,
    decreases p.len(),
{
    let u = p.update(i, x);
    if i == p.len() - 1 {
        assert(u.drop_last() =~= p.drop_last());
    } else {
        assert(u.drop_last() =~= p.drop_last().update(i, x));
        lemma_sum_update(p.drop_last(), i, x);
    }
}

/// When every entry of `q` is that of `p` grown by the weight, the sum grows
/// by the total weight.
proof fn lemma_sum_grown(p: Seq<i128>, q: Seq<i128>, m: Seq<Member>)
    requires
        p.len() == m.len(),
        q.len() == m.len(),
        forall|i: int| 0 <= i < p.len() ==> #[trigger] q[i] == p[i] + m[i].weight,
    ensures
        priority_sum(q) == priority_sum(p) + weight_sum(m),
    decreases p.len(),
{
    if p.len() > 0 {
        lemma_sum_grown(p.drop_last(), q.drop_last(), m.drop_last());
    }
}

proof fn lemma_sum_at_most(p: Seq<i128>, bound: int)
    requires
        forall|i: int| 0 <= i < p.len() ==> #[trigger] p[i] <= bound,
    ensures
        priority_sum(p) <= p.len() * bound,
    decreases p.len(),
{
    if p.len() > 0 {
        lemma_sum_at_most(p.drop_last(), bound);
        assert(p.len() * bound == (p.len() - 1) * bound + bound) by (nonlinear_arith);
    }
}

/// An entry is the sum less what the others hold, and each of those is more
/// than `-w`.
proof fn lemma_entry_bound(p: Seq<i128>, i: int, w: int)
    requires
        0 <= i < p.len(),
        forall|j: int| 0 <= j < p.len() ==> #[trigger] p[j] > -w,
    ensures
        p[i] <= priority_sum(p) + (p.len() - 1) * (w - 1),
    decreases p.len(),
{
    let n = p.len() as int;
    let d = p.drop_last();
    assert forall|j: int| 0 <= j < d.len() implies #[trigger] d[j] > -w by {
        assert(p[j] > -w);
    }
    if i == n - 1 {
        lemma_sum_at_least(d, w);
        assert(priority_sum(d) >= -((n - 1) * (w - 1)));
    } else {
        lemma_entry_bound(d, i, w);
        assert(p[n - 1] > -w);
        assert((n - 1) * (w - 1) == (n - 2) * (w - 1) + (w - 1)) by (nonlinear_arith);
    }
}

proof fn lemma_sum_at_least(p: Seq<i128>, w: int)
    requires
        forall|j: int| 0 <= j < p.len() ==> #[trigger] p[j] > -w,
    ensures
        priority_sum(p) >= -(p.len() * (w - 1)),
    decreases p.len(),
{
    if p.len() > 0 {
        let n = p.len() as int;
        lemma_sum_at_least(p.drop_last(), w);
        assert(p[n - 1] > -w);
        assert(n * (w - 1) == (n - 1) * (w - 1) + (w - 1)) by (nonlinear_arith);
    }
}

proof fn lemma_total_positive(m: Seq<Member>)
    requires
        committee(m),
        m.len() > 0,
    ensures
        weight_sum(m) > 0,
{
    assert(m.last() == m[m.len() - 1]);
}

proof fn lemma_weight_below_total(m: Seq<Member>, i: int)
    requires
        0 <= i < m.len(),
    ensures
        m[i].weight <= weight_sum(m),
    decreases m.len(),
{
    if i < m.len() - 1 {
        lemma_weight_below_total(m.drop_last(), i);
    }
}

/// The state of the accumulator after `n` rounds.
///
/// Each priority is what the validator has earned less what it has paid; the
/// priorities add up to zero; and none is a full total below zero.
pub proof fn accumulator_invariant(m: Seq<Member>, n: nat)
    requires
        committee(m),
        m.len() > 0,
        fits(m),
    ensures
        priorities_after(m, n).len() == m.len(),
        priority_sum(priorities_after(m, n)) == 0,
        forall|i: int|
            0 <= i < m.len() ==> #[trigger] priorities_after(m, n)[i] == n * m[i].weight - weight_sum(m) * times_led(
                m,
                n,
                i,
            ),
        forall|i: int| 0 <= i < m.len() ==> #[trigger] priorities_after(m, n)[i] > -weight_sum(m),
        forall|i: int|
            0 <= i < m.len() ==> #[trigger] priorities_after(m, n)[i] <= (m.len() - 1) * (weight_sum(m) - 1),
    decreases n,
{
    let total = weight_sum(m) as int;
    let k = m.len() as int;
    let p = priorities_after(m, n);
    lemma_total_positive(m);
    if n == 0 {
        assert forall|i: int| 0 <= i < m.len() implies #[trigger] p[i] == n * m[i].weight - total * times_led(m, n, i) by {
            assert(total * 0 == 0) by (nonlinear_arith);
            assert(0 * m[i].weight == 0) by (nonlinear_arith);
        }
        lemma_zero_sum(m.len());
        assert(0 <= (k - 1) * (total - 1)) by (nonlinear_arith)
            requires
                k >= 1,
                total >= 1,
        ;
    } else {
        let n1 = (n - 1) as nat;
        let p1 = priorities_after(m, n1);
        accumulator_invariant(m, n1);
        let q = bumped(p1, m);
        let b = foremost(q);
        lemma_foremost(q);
        assert((k - 1) * (total - 1) <= k * total - total) by (nonlinear_arith)
            requires
                k >= 1,
                total >= 1,
        ;
        assert(k * total >= total) by (nonlinear_arith)
            requires
                k >= 1,
                total >= 1,
        ;
        assert forall|i: int| 0 <= i < k implies #[trigger] q[i] == p1[i] + m[i].weight by {
            lemma_weight_below_total(m, i);
            assert(p1[i] > -total);
            assert(p1[i] <= (k - 1) * (total - 1));
        }
        lemma_sum_grown(p1, q, m);
        assert(q[b] > 0) by {
            if q[b] <= 0 {
                lemma_sum_at_most(q, 0);
                assert(k * 0 == 0) by (nonlinear_arith);
            }
        }
        assert(p =~= q.update(b, clamp(q[b] - total)));
        lemma_weight_below_total(m, b);
        assert(p1[b] <= (k - 1) * (total - 1));
        assert(clamp(q[b] - total) == q[b] - total);
        lemma_sum_update(q, b, clamp(q[b] - total));
        assert(leader_index(m, n1) == b);
        assert forall|i: int| 0 <= i < k implies #[trigger] p[i] == n * m[i].weight - total * times_led(m, n, i) by {
            let w = m[i].weight as int;
            let c = times_led(m, n1, i) as int;
            assert(p1[i] == n1 * w - total * c);
            assert(n * w == n1 * w + w) by (nonlinear_arith)
                requires
                    n == n1 + 1,
            ;
            assert(total * (c + 1) == total * c + total) by (nonlinear_arith);
            assert(q[i] == p1[i] + m[i].weight);
        }
        assert forall|i: int| 0 <= i < k implies #[trigger] p[i] > -total by {
            assert(p1[i] > -total);
            assert(q[i] == p1[i] + m[i].weight);
        }
        assert forall|i: int| 0 <= i < k implies #[trigger] p[i] <= (k - 1) * (total - 1) by {
            lemma_entry_bound(p, i, total);
        }
    }
}

proof fn lemma_zero_sum(n: nat)
    ensures
        priority_sum(Seq::new(n, |i: int| 0i128)) == 0,
    decreases n,
{
    let z = Seq::new(n, |i: int| 0i128);
    if n > 0 {
        lemma_zero_sum((n - 1) as nat);
        assert(z.drop_last() =~= Seq::new((n - 1) as nat, |i: int| 0i128));
    }
}

/// A validator never runs ahead of its share by a full turn: after any
/// number of rounds it has led fewer than `n * weight / total + 1` times.
pub proof fn never_ahead_of_share(m: Seq<Member>, n: nat, i: int)
    requires
        committee(m),
        fits(m),
        0 <= i < m.len(),
    ensures
        weight_sum(m) * times_led(m, n, i) < n * m[i].weight + weight_sum(m),
{
    accumulator_invariant(m, n);
    assert(priorities_after(m, n)[i] > -weight_sum(m));
}

/// A validator's lag behind its share stays bounded however long the
/// rotation runs: it is below one turn for each other validator.
pub proof fn lag_stays_bounded(m: Seq<Member>, n: nat, i: int)
    requires
        committee(m),
        fits(m),
        0 <= i < m.len(),
    ensures
        n * m[i].weight - weight_sum(m) * times_led(m, n, i) <= (m.len() - 1) * (weight_sum(m) - 1),
{
    accumulator_invariant(m, n);
    assert(priorities_after(m, n)[i] <= (m.len() - 1) * (weight_sum(m) - 1));
}

/// The most that the priorities of `k` out of `n` validators can add up to,
/// when the weights add up to `w`.
pub open spec fn lag_limit(n: nat, w: nat, k: nat) -> nat
    decreases n - k,
{
    if k >= n {
        0
    } else {
        k * (lag_limit(n, w, k + 1) + w) / (k + 1)
    }
}

/// The sum of the selected priorities.
spec fn picked_sum(p: Seq<i128>, pick: Seq<bool>) -> int
    decreases p.len(),
{
    if p.len() == 0 {
        0
    } else {
        picked_sum(p.drop_last(), pick.drop_last()) + (if pick.last() {
            p.last() as int
        } else {
            0
        })
    }
}

/// The sum of the selected weights.
spec fn picked_weight(m: Seq<Member>, pick: Seq<bool>) -> nat
    decreases m.len(),
{
    if m.len() == 0 {
        0
    } else {
        picked_weight(m.drop_last(), pick.drop_last()) + (if pick.last() {
            m.last().weight as nat
        } else {
            0nat
        })
    }
}

spec fn picked_count(pick: Seq<bool>) -> nat
    decreases pick.len(),
{
    if pick.len() == 0 {
        0
    } else {
        picked_count(pick.drop_last()) + (if pick.last() {
            1nat
        } else {
            0nat
        })
    }
}

proof fn lemma_picked_count_bound(pick: Seq<bool>)
    ensures
        picked_count(pick) <= pick.len(),
    decreases pick.len(),
{
    if pick.len() > 0 {
        lemma_picked_count_bound(pick.drop_last());
    }
}

proof fn lemma_pick_more(p: Seq<i128>, m: Seq<Member>, pick: Seq<bool>, b: int)
    requires
        p.len() == m.len() == pick.len(),
        0 <= b < p.len(),
        !pick[b],
    ensures
        picked_sum(p, pick.update(b, true)) == picked_sum(p, pick) + p[b],
        picked_count(pick.update(b, true)) == picked_count(pick) + 1,
    decreases p.len(),
{
    let u = pick.update(b, true);
    if b == p.len() - 1 {
        assert(u.drop_last() =~= pick.drop_last());
    } else {
        assert(u.drop_last() =~= pick.drop_last().update(b, true));
        lemma_pick_more(p.drop_last(), m.drop_last(), pick.drop_last(), b);
    }
}

proof fn lemma_picked_grown(p: Seq<i128>, q: Seq<i128>, m: Seq<Member>, pick: Seq<bool>)
    requires
        p.len() == m.len() == q.len() == pick.len(),
        forall|i: int| 0 <= i < p.len() ==> #[trigger] q[i] == p[i] + m[i].weight,
    ensures
        picked_sum(q, pick) == picked_sum(p, pick) + picked_weight(m, pick),
        picked_weight(m, pick) <= weight_sum(m),
    decreases p.len(),
{
    if p.len() > 0 {
        lemma_picked_grown(p.drop_last(), q.drop_last(), m.drop_last(), pick.drop_last());
    }
}

proof fn lemma_picked_update(p: Seq<i128>, pick: Seq<bool>, b: int, x: i128)
    requires
        p.len() == pick.len(),
        0 <= b < p.len(),
    ensures
        picked_sum(p.update(b, x), pick) == picked_sum(p, pick) + (if pick[b] {
            x - p[b]
        } else {
            0
        }),
    decreases p.len(),
{
    let u = p.update(b, x);
    if b == p.len() - 1 {
        assert(u.drop_last() =~= p.drop_last());
    } else {
        assert(u.drop_last() =~= p.drop_last().update(b, x));
        lemma_picked_update(p.drop_last(), pick.drop_last(), b, x);
    }
}

proof fn lemma_picked_below(p: Seq<i128>, pick: Seq<bool>, top: int)
    requires
        p.len() == pick.len(),
        forall|i: int| 0 <= i < p.len() ==> #[trigger] p[i] <= top,
    ensures
        picked_sum(p, pick) <= picked_count(pick) * top,
    decreases p.len(),
{
    if p.len() > 0 {
        lemma_picked_below(p.drop_last(), pick.drop_last(), top);
        let c = picked_count(pick.drop_last()) as int;
        assert((c + 1) * top == c * top + top) by (nonlinear_arith);
        assert(p[p.len() - 1] <= top);
    } else {
        assert(picked_count(pick) * top == 0) by (nonlinear_arith)
            requires
                picked_count(pick) == 0,
        ;
    }
}

proof fn lemma_picked_zero(n: nat, pick: Seq<bool>)
    requires
        pick.len() == n,
    ensures
        picked_sum(Seq::new(n, |i: int| 0i128), pick) == 0,
    decreases n,
{
    if n > 0 {
        let z = Seq::new(n, |i: int| 0i128);
        assert(z.drop_last() =~= Seq::new((n - 1) as nat, |i: int| 0i128));
        lemma_picked_zero((n - 1) as nat, pick.drop_last());
    }
}

proof fn lemma_picked_limit(m: Seq<Member>, n: nat, pick: Seq<bool>)
    requires
        committee(m),
        m.len() > 0,
        fits(m),
        pick.len() == m.len(),
    ensures
        picked_sum(priorities_after(m, n), pick) <= lag_limit(m.len(), weight_sum(m), picked_count(pick)),
    decreases n,
{
    let total = weight_sum(m) as int;
    let k = picked_count(pick) as int;
    let p = priorities_after(m, n);
    lemma_picked_count_bound(pick);
    if n == 0 {
        lemma_picked_zero(m.len(), pick);
    } else {
        let n1 = (n - 1) as nat;
        let p1 = priorities_after(m, n1);
        accumulator_invariant(m, n1);
        let q = bumped(p1, m);
        let b = foremost(q);
        lemma_foremost(q);
        lemma_unclamped(m, n1);
        assert(p =~= q.update(b, (q[b] - total) as i128));
        lemma_picked_update(q, pick, b, (q[b] - total) as i128);
        lemma_picked_grown(p1, q, m, pick);
        if pick[b] {
            lemma_picked_limit(m, n1, pick);
        } else {
            let more = pick.update(b, true);
            lemma_pick_more(q, m, pick, b);
            lemma_picked_grown(p1, q, m, more);
            lemma_picked_limit(m, n1, more);
            lemma_picked_count_bound(more);
            lemma_picked_below(q, pick, q[b] as int);
            let next = lag_limit(m.len(), weight_sum(m), (k + 1) as nat) as int;
            let sum = picked_sum(q, pick);
            let top = q[b] as int;
            assert(sum + top <= next + total);
            assert(sum * (k + 1) <= k * (next + total)) by (nonlinear_arith)
                requires
                    sum + top <= next + total,
                    sum <= k * top,
                    k >= 0,
            ;
            assert(sum <= k * (next + total) / (k + 1)) by (nonlinear_arith)
                requires
                    sum * (k + 1) <= k * (next + total),
                    k >= 0,
            ;
        }
    }
}

/// In the next round no priority leaves its range.
proof fn lemma_unclamped(m: Seq<Member>, n: nat)
    requires
        committee(m),
        m.len() > 0,
        fits(m),
    ensures
        ({
            let p = priorities_after(m, n);
            let q = bumped(p, m);
            let b = foremost(q);
            &&& forall|i: int| 0 <= i < m.len() ==> #[trigger] q[i] == p[i] + m[i].weight
            &&& clamp(q[b] - weight_sum(m)) == q[b] - weight_sum(m)
            &&& i128::MIN <= q[b] - weight_sum(m) <= i128::MAX
        }),
{
    let total = weight_sum(m) as int;
    let k = m.len() as int;
    let p = priorities_after(m, n);
    let q = bumped(p, m);
    accumulator_invariant(m, n);
    lemma_total_positive(m);
    lemma_foremost(q);
    assert((k - 1) * (total - 1) <= k * total - total) by (nonlinear_arith)
        requires
            k >= 1,
            total >= 1,
    ;
    assert(k * total >= total) by (nonlinear_arith)
        requires
            k >= 1,
            total >= 1,
    ;
    assert forall|i: int| 0 <= i < k implies #[trigger] q[i] == p[i] + m[i].weight by {
        lemma_weight_below_total(m, i);
        assert(p[i] > -total);
        assert(p[i] <= (k - 1) * (total - 1));
    }
    lemma_weight_below_total(m, foremost(q));
    assert(p[foremost(q)] > -total);
    assert(p[foremost(q)] <= (k - 1) * (total - 1));
}

/// A validator's lag behind its share is at most `lag_limit`, whatever the
/// weights.
pub proof fn lag_stays_within_its_limit(m: Seq<Member>, n: nat, i: int)
    requires
        committee(m),
        fits(m),
        0 <= i < m.len(),
    ensures
        n * m[i].weight - weight_sum(m) * times_led(m, n, i) <= lag_limit(m.len(), weight_sum(m), 1),
{
    let one = Seq::new(m.len(), |j: int| j == i);
    let none = Seq::new(m.len(), |j: int| false);
    accumulator_invariant(m, n);
    let p = priorities_after(m, n);
    lemma_none_picked(p, none);
    lemma_pick_more(p, m, none, i);
    assert(one =~= none.update(i, true));
    lemma_picked_limit(m, n, one);
    assert(p[i] == n * m[i].weight - weight_sum(m) * times_led(m, n, i));
}

proof fn lemma_none_picked(p: Seq<i128>, none: Seq<bool>)
    requires
        p.len() == none.len(),
        forall|j: int| 0 <= j < none.len() ==> !#[trigger] none[j],
    ensures
        picked_sum(p, none) == 0,
        picked_count(none) == 0,
    decreases p.len(),
{
    if p.len() > 0 {
        assert(!none[none.len() - 1]);
        let d = none.drop_last();
        assert forall|j: int| 0 <= j < d.len() implies !#[trigger] d[j] by {
            assert(d[j] == none[j]);
        }
        lemma_none_picked(p.drop_last(), d);
    }
}

/// The harmonic numbers up to the tenth, times 2520.
spec fn harmonic(j: nat) -> nat
    decreases j,
{
    if j == 0 {
        0
    } else {
        harmonic((j - 1) as nat) + 2520nat / j
    }
}

proof fn lemma_harmonic_rises(j: nat, k: nat)
    requires
        j <= k,
    ensures
        harmonic(j) <= harmonic(k),
    decreases k - j,
{
    if j < k {
        lemma_harmonic_rises(j, (k - 1) as nat);
    }
}

proof fn lemma_small_limit(n: nat, w: nat, k: nat)
    requires
        1 <= k <= n <= 10,
    ensures
        2520 * lag_limit(n, w, k) <= k * (harmonic(10) - harmonic(k)) * w,
    decreases n - k,
{
    lemma_harmonic_rises(k, 10);
    let h = harmonic(10) as int;
    if k >= n {
        assert(0 <= k * (h - harmonic(k)) * w) by (nonlinear_arith)
            requires
                h - harmonic(k) >= 0,
                k >= 1,
        ;
    } else {
        lemma_small_limit(n, w, k + 1);
        let next = lag_limit(n, w, k + 1) as int;
        let this = lag_limit(n, w, k) as int;
        let k1 = (k + 1) as int;
        let step = 2520int / k1;
        assert(harmonic(k + 1) == harmonic(k) + step);
        assert(2520int % k1 == 0) by {
            assert(2520int % 2 == 0 && 2520int % 3 == 0 && 2520int % 4 == 0 && 2520int % 5 == 0 && 2520int % 6 == 0);
            assert(2520int % 7 == 0 && 2520int % 8 == 0 && 2520int % 9 == 0 && 2520int % 10 == 0);
            assert(k1 == 2 || k1 == 3 || k1 == 4 || k1 == 5 || k1 == 6 || k1 == 7 || k1 == 8 || k1 == 9 || k1 == 10);
        }
        assert(step * k1 == 2520) by (nonlinear_arith)
            requires
                step == 2520int / k1,
                2520int % k1 == 0,
                k1 > 0,
        ;
        let x = k * (next + w);
        assert(k1 * (x / k1) <= x) by (nonlinear_arith)
            requires
                k1 > 0,
        ;
        assert(k1 * this <= k * (next + w));
        let g = h - harmonic(k + 1);
        assert(2520 * next <= k1 * g * w);
        assert(2520 * this <= k * (g + step) * w) by (nonlinear_arith)
            requires
                k1 * this <= k * (next + w),
                2520 * next <= k1 * g * w,
                step * k1 == 2520,
                k1 > 0,
                k >= 1,
        {
            assert(2520 * (k1 * this) <= 2520 * (k * (next + w)));
            assert(2520 * (k * (next + w)) == k * (2520 * next) + k * (2520 * w));
            assert(k * (2520 * next) <= k * (k1 * g * w));
            assert(k * (2520 * w) == k * (step * k1 * w));
            assert(k1 * (2520 * this) <= k1 * (k * (g + step) * w));
        }
    }
}

/// Where the lag stays below two turns, a validator's turns follow its share:
/// after any number of rounds it has led as often as its share rounded down,
/// or once less, or once more.
pub proof fn drift_is_at_most_one(m: Seq<Member>, n: nat, i: int)
    requires
        committee(m),
        fits(m),
        0 <= i < m.len(),
        lag_limit(m.len(), weight_sum(m), 1) < 2 * weight_sum(m),
    ensures
        ({
            let share = (n * m[i].weight) / (weight_sum(m) as int);
            -1 <= times_led(m, n, i) - share <= 1
        }),
{
    lemma_total_positive(m);
    never_ahead_of_share(m, n, i);
    lag_stays_within_its_limit(m, n, i);
    let w = weight_sum(m) as int;
    let c = times_led(m, n, i) as int;
    let earned = n * m[i].weight;
    let share = earned / w;
    lemma_fundamental_div_mod(earned, w);
    let rest = earned % w;
    assert(c - share <= 1) by (nonlinear_arith)
        requires
            w * c < earned + w,
            earned == w * share + rest,
            0 <= rest < w,
            w > 0,
    ;
    assert(share - c <= 1) by (nonlinear_arith)
        requires
            earned - w * c < 2 * w,
            earned == w * share + rest,
            0 <= rest < w,
            w > 0,
    ;
}

/// In a committee of at most ten the lag stays below two turns, whatever the
/// weights, so that turns follow shares.
pub proof fn small_committees_do_not_drift(m: Seq<Member>, n: nat, i: int)
    requires
        committee(m),
        m.len() <= 10,
        0 <= i < m.len(),
    ensures
        lag_limit(m.len(), weight_sum(m), 1) < 2 * weight_sum(m),
        ({
            let share = (n * m[i].weight) / (weight_sum(m) as int);
            -1 <= times_led(m, n, i) - share <= 1
        }),
{
    committees_fit(m);
    lemma_total_positive(m);
    lemma_small_limit(m.len(), weight_sum(m), 1);
    reveal_with_fuel(harmonic, 11);
    assert(harmonic(10) == 7381);
    assert(harmonic(1) == 2520);
    let w = weight_sum(m) as int;
    let limit = lag_limit(m.len(), weight_sum(m), 1) as int;
    let gap = harmonic(10) - harmonic(1);
    assert(1 * gap * w == 4861 * w) by (nonlinear_arith)
        requires
            gap == 4861,
    ;
    assert(2520 * limit <= 4861 * w);
    assert(limit < 2 * w) by (nonlinear_arith)
        requires
            2520 * limit <= 4861 * w,
            w > 0,
    ;
    drift_is_at_most_one(m, n, i);
}

proof fn lemma_zero_if_nonneg(p: Seq<i128>, i: int)
    requires
        priority_sum(p) == 0,
        forall|j: int| 0 <= j < p.len() ==> #[trigger] p[j] >= 0,
        0 <= i < p.len(),
    ensures
        p[i] == 0,
    decreases p.len(),
{
    let d = p.drop_last();
    lemma_sum_at_least(d, 1);
    assert(d.len() * (1 - 1) == 0) by (nonlinear_arith);
    assert(p[p.len() - 1] >= 0);
    if i < d.len() {
        lemma_zero_if_nonneg(d, i);
    }
}

/// After as many rounds as the weights add up to, every priority is back at
/// zero and every validator has led exactly as often as its weight says.
pub proof fn full_cycle_is_exact(m: Seq<Member>)
    requires
        committee(m),
        m.len() > 0,
        fits(m),
    ensures
        forall|i: int| 0 <= i < m.len() ==> #[trigger] times_led(m, weight_sum(m), i) == m[i].weight,
        priorities_after(m, weight_sum(m)) == priorities_after(m, 0),
{
    let total = weight_sum(m);
    let p = priorities_after(m, total);
    lemma_total_positive(m);
    accumulator_invariant(m, total);
    assert forall|i: int| 0 <= i < p.len() implies #[trigger] p[i] >= 0 by {
        let w = m[i].weight as int;
        let c = times_led(m, total, i) as int;
        assert(p[i] == total * w - total * c);
        assert(total * w - total * c == total * (w - c)) by (nonlinear_arith);
        assert(w - c >= 0) by (nonlinear_arith)
            requires
                total * (w - c) > -total,
                total > 0,
        ;
        assert(total * (w - c) >= 0) by (nonlinear_arith)
            requires
                w - c >= 0,
                total > 0,
        ;
    }
    assert forall|i: int| 0 <= i < m.len() implies p[i] == 0 && #[trigger] times_led(m, total, i) == m[i].weight by {
        lemma_zero_if_nonneg(p, i);
        let w = m[i].weight as int;
        let c = times_led(m, total, i) as int;
        assert(total * w - total * c == 0);
        assert(w == c) by (nonlinear_arith)
            requires
                total * w - total * c == 0,
                total > 0,
        ;
    }
    assert forall|i: int| 0 <= i < m.len() implies p[i] == 0 by {
        lemma_zero_if_nonneg(p, i);
    }
    assert(p =~= priorities_after(m, 0));
}

proof fn lemma_shifted(m: Seq<Member>, n: nat)
    requires
        committee(m),
        m.len() > 0,
        fits(m),
    ensures
        priorities_after(m, n + weight_sum(m)) == priorities_after(m, n),
    decreases n,
{
    if n == 0 {
        full_cycle_is_exact(m);
    } else {
        lemma_shifted(m, (n - 1) as nat);
        assert((n + weight_sum(m) - 1) as nat == (n - 1) as nat + weight_sum(m));
    }
}

/// The leaders repeat with the total weight as period.
pub proof fn rotation_repeats_every_total_weight(m: Seq<Member>, n: nat)
    requires
        committee(m),
        m.len() > 0,
        fits(m),
    ensures
        leader_index(m, n + weight_sum(m)) == leader_index(m, n),
{
    lemma_shifted(m, n);
}

/// In any window of as many rounds as the weights add up to, wherever it
/// starts, every validator leads exactly as often as its weight says.
pub proof fn every_cycle_is_exact(m: Seq<Member>, n: nat, i: int)
    requires
        committee(m),
        fits(m),
        0 <= i < m.len(),
    ensures
        times_led(m, n + weight_sum(m), i) - times_led(m, n, i) == m[i].weight,
{
    let total = weight_sum(m) as int;
    let w = m[i].weight as int;
    let before = times_led(m, n, i) as int;
    let after = times_led(m, n + weight_sum(m), i) as int;
    lemma_total_positive(m);
    lemma_shifted(m, n);
    accumulator_invariant(m, n);
    accumulator_invariant(m, n + weight_sum(m));
    assert(priorities_after(m, n)[i] == n * w - total * before);
    assert(priorities_after(m, n + weight_sum(m))[i] == (n + total) * w - total * after);
    assert(after - before == w) by (nonlinear_arith)
        requires
            n * w - total * before == (n + total) * w - total * after,
            total > 0,
    ;
}

/// In any window of rounds, a validator's turns stay close to its share: they
/// differ by less than one turn and the lag that the rotation allows.
pub proof fn windows_stay_close_to_the_share(m: Seq<Member>, first: nat, len: nat, i: int)
    requires
        committee(m),
        fits(m),
        0 <= i < m.len(),
    ensures
        ({
            let led = times_led(m, first + len, i) - times_led(m, first, i);
            let most = weight_sum(m) + lag_limit(m.len(), weight_sum(m), 1);
            -most < weight_sum(m) * led - len * m[i].weight < most
        }),
{
    let total = weight_sum(m) as int;
    let w = m[i].weight as int;
    let before = times_led(m, first, i) as int;
    let after = times_led(m, first + len, i) as int;
    never_ahead_of_share(m, first, i);
    never_ahead_of_share(m, first + len, i);
    lag_stays_within_its_limit(m, first, i);
    lag_stays_within_its_limit(m, first + len, i);
    assert(total * (after - before) == total * after - total * before) by (nonlinear_arith);
    assert((first + len) * w == first * w + len * w) by (nonlinear_arith);
}

/// Every committee of at most a billion validators fits.
pub proof fn committees_fit(m: Seq<Member>)
    requires
        committee(m),
        m.len() <= 0x4000_0000,
    ensures
        fits(m),
{
    lemma_weight_sum_bound(m);
    assert(m.len() * weight_sum(m) < 0x4000_0000_0000_0000_0000_0000_0000_0000) by (nonlinear_arith)
        requires
            m.len() <= 0x4000_0000,
            weight_sum(m) <= m.len() * 0xffff_ffff_ffff_ffff,
    ;
}

proof fn lemma_uniform_state(m: Seq<Member>, n: nat)
    requires
        committee(m),
        m.len() > 0,
        forall|i: int| 0 <= i < m.len() ==> (#[trigger] m[i]).weight == 1,
    ensures
        priorities_after(m, n).len() == m.len(),
        forall|i: int|
            0 <= i < m.len() ==> #[trigger] priorities_after(m, n)[i] == (if i < n as int % m.len() as int {
                n as int % m.len() as int - m.len()
            } else {
                n as int % m.len() as int
            }),
        leader_index(m, n) == n as int % m.len() as int,
    decreases n,
{
    let len = m.len() as int;
    let k = n as int % len;
    let p = priorities_after(m, n);
    lemma_uniform_total(m);
    if n == 0 {
        lemma_small_mod(0, m.len());
    } else {
        let n1 = (n - 1) as nat;
        lemma_uniform_state(m, n1);
        let k1 = n1 as int % len;
        let p1 = priorities_after(m, n1);
        let q = bumped(p1, m);
        assert(q[k1] == k1 + 1);
        assert(p =~= q.update(k1, clamp(q[k1] - len)));
        lemma_next_mod(n1 as int, len);
        assert forall|i: int| 0 <= i < m.len() implies #[trigger] p[i] == (if i < k {
            k - len
        } else {
            k
        }) by {
            assert(q[i] == p1[i] + 1);
        }
    }
    let q = bumped(p, m);
    assert forall|j: int| 0 <= j < q.len() implies #[trigger] q[j] == (if j < k {
        k + 1 - len
    } else {
        k + 1
    }) by {
        assert(p[j] == (if j < k {
            k - len
        } else {
            k
        }));
    }
    lemma_foremost_unique(q, k);
}

proof fn lemma_next_mod(a: int, len: int)
    requires
        a >= 0,
        len > 0,
    ensures
        0 <= a % len < len,
        (a + 1) % len == (if a % len + 1 == len {
            0
        } else {
            a % len + 1
        }),
{
    lemma_fundamental_div_mod(a, len);
    let q = a / len;
    let r = a % len;
    if r + 1 == len {
        assert(a + 1 == len * (q + 1)) by (nonlinear_arith)
            requires
                a == len * q + r,
                r + 1 == len,
        ;
        lemma_mod_multiples_vanish(q + 1, 0, len);
        lemma_small_mod(0, len as nat);
    } else {
        assert(a + 1 == len * q + (r + 1));
        lemma_mod_multiples_vanish(q, r + 1, len);
        lemma_small_mod((r + 1) as nat, len as nat);
    }
}

proof fn lemma_uniform_total(m: Seq<Member>)
    requires
        forall|i: int| 0 <= i < m.len() ==> (#[trigger] m[i]).weight == 1,
    ensures
        weight_sum(m) == m.len(),
    decreases m.len(),
{
    if m.len() > 0 {
        assert(m.last() == m[m.len() - 1]);
        let d = m.drop_last();
        assert forall|i: int| 0 <= i < d.len() implies (#[trigger] d[i]).weight == 1 by {
            assert(d[i] == m[i]);
        }
        lemma_uniform_total(d);
    }
}

/// With weight one for everybody, validators lead in turn, starting with the
/// first one when the regime opens.
pub proof fn uniform_weights_take_turns(h: HistoryView, view: u64)
    requires
        history_ok(h),
        set_at(h, view).len() > 0,
        committee(set_at(h, view)),
        regime_start(h, view) <= view,
        forall|i: int| 0 <= i < set_at(h, view).len() ==> (#[trigger] set_at(h, view)[i]).weight == 1,
    ensures
        weighted_leader(h, view) == set_at(h, view)[(view - regime_start(h, view)) % (set_at(h, view).len()
            as int)].id.id,
{
    lemma_uniform_state(set_at(h, view), (view - regime_start(h, view)) as nat);
}

/// In the regime that opens at view zero, weighted rotation over equal
/// weights is round-robin.
pub proof fn uniform_weights_match_round_robin(h: HistoryView, view: u64)
    requires
        history_ok(h),
        set_at(h, view).len() > 0,
        committee(set_at(h, view)),
        regime_start(h, view) == 0,
        forall|i: int| 0 <= i < set_at(h, view).len() ==> (#[trigger] set_at(h, view)[i]).weight == 1,
    ensures
        weighted_leader(h, view) == round_robin_leader(h, view),
{
    uniform_weights_take_turns(h, view);
}

/// Two selectors over the same committees name the same leader at every
/// view, whatever each was asked before.
pub proof fn weighted_selectors_agree(a: &WeightedAccumulatorSelector, b: &WeightedAccumulatorSelector, view: u64)
    requires
        a@ == b@,
    ensures
        a.leader(view) == b.leader(view),
{
}

/// Two round-robin selectors over the same committees agree at every view.
pub proof fn round_robin_selectors_agree(a: &RoundRobinSelector, b: &RoundRobinSelector, view: u64)
    requires
        a@ == b@,
    ensures
        a.leader(view) == b.leader(view),
{
}

/// Within one regime, round-robin repeats with the committee size as period.
pub proof fn round_robin_wraps_around(h: HistoryView, view: u64, later: u64)
    requires
        set_at(h, view).len() > 0,
        later == view + set_at(h, view).len(),
        set_at(h, later) == set_at(h, view),
    ensures
        round_robin_leader(h, later) == round_robin_leader(h, view),
{
    let n = set_at(h, view).len() as int;
    lemma_mod_multiples_vanish(1, view as int, n);
}

/// Over as many views in a row as the committee has members, round-robin
/// gives every member a turn.
pub proof fn round_robin_covers_every_validator(h: HistoryView, first: u64, i: int) -> (view: u64)
    requires
        0 <= i < set_at(h, first).len(),
        first + set_at(h, first).len() <= u64::MAX,
        forall|v: u64|
            first <= v < first + set_at(h, first).len() ==> #[trigger] set_at(h, v) == set_at(h, first),
    ensures
        first <= view < first + set_at(h, first).len(),
        round_robin_leader(h, view) == set_at(h, first)[i].id.id,
{
    let m = set_at(h, first);
    let n = m.len() as int;
    let r = first as int % n;
    lemma_fundamental_div_mod(first as int, n);
    let q = first as int / n;
    let d = if i >= r {
        i - r
    } else {
        i - r + n
    };
    let view = (first + d) as u64;
    assert(set_at(h, view) == m);
    if i >= r {
        assert(view == n * q + i);
        lemma_mod_multiples_vanish(q, i, n);
    } else {
        assert(view == n * (q + 1) + i) by (nonlinear_arith)
            requires
                view == first + d,
                first == n * q + r,
                d == i - r + n,
        ;
        lemma_mod_multiples_vanish(q + 1, i, n);
    }
    lemma_small_mod(i as nat, n as nat);
    view
}

} // verus!
