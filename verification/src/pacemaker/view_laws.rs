//! What the pacemaker promises of views, timers and leaders.

use vstd::prelude::*;

use crate::pacemaker::leader::{
    bumped, clamp, foremost, leader_index, lemma_foremost, priorities_after, round_robin_leader, weighted_leader,
    LeaderSelector,
};
use crate::pacemaker::rotation_laws::{accumulator_invariant, fits, times_led};
use crate::pacemaker::state_machine::{
    next_state, step_actions, Action, AdvanceCause, Event, Pacemaker, PacemakerState,
};
use crate::pacemaker::timeout::{backoff, ExponentialBackoff, TimeoutPolicy};
use crate::validator_history::{history_ok, lemma_regime_unique, HistoryView};
use crate::validator_set::{committee, weight_sum, Member};

verus! {

// ---- views ---------------------------------------------------------------

/// A timer that runs out at the current view is a failure more, and no more
/// than that: the view stays, a timeout for it is sent, and the timer is armed
/// for as long as the policy says after that many failures.
pub proof fn a_timeout_counts_as_a_failure<S: LeaderSelector, P: TimeoutPolicy>(pm: &Pacemaker<S, P>)
    requires
        pm@.consecutive_failures < u32::MAX,
    ensures
        ({
            let s = next_state(pm@, Event::OnTimeout(pm@.current_view));
            let a = step_actions(pm, Event::OnTimeout(pm@.current_view));
            &&& s.current_view == pm@.current_view
            &&& s.high_qc_view == pm@.high_qc_view
            &&& s.consecutive_failures == pm@.consecutive_failures + 1
            &&& a.len() == 2
            &&& a[0] == Action::SendTimeout(pm@.current_view)
            &&& a[1] == Action::ResetTimer(pm.policy_spec().duration((pm@.consecutive_failures + 1) as u32))
        }),
{
}

/// A failure count at its limit stays there.
pub proof fn failures_do_not_wrap(s: PacemakerState)
    ensures
        next_state(s, Event::OnTimeout(s.current_view)).consecutive_failures >= s.consecutive_failures,
        s.consecutive_failures == u32::MAX ==> next_state(s, Event::OnTimeout(s.current_view)) == s,
{
}

/// A proposal for the current view buys it time and changes nothing.
pub proof fn a_proposal_resets_the_timer<S: LeaderSelector, P: TimeoutPolicy>(pm: &Pacemaker<S, P>)
    ensures
        next_state(pm@, Event::OnProposalReceived(pm@.current_view)) == pm@,
        step_actions(pm, Event::OnProposalReceived(pm@.current_view)) == seq![
            Action::ResetTimer(pm.policy_spec().duration(pm@.consecutive_failures)),
        ],
{
}

/// The highest certified view is the highest of those that certificates moved
/// the pacemaker with.
pub proof fn the_highest_certificate_is_kept(s: PacemakerState, v: u64)
    requires
        s.current_view <= v < u64::MAX,
    ensures
        ({
            let h = next_state(s, Event::OnQc(v)).high_qc_view;
            &&& h >= v
            &&& h >= s.high_qc_view
            &&& h == v || h == s.high_qc_view
        }),
{
}

/// Whatever happens, the view moves to the one after a certificate, to the
/// one that round-sync evidence is for, or not at all; it is never passed
/// over, and the cause is told.
pub proof fn views_move_by_evidence_only<S: LeaderSelector, P: TimeoutPolicy>(pm: &Pacemaker<S, P>, event: Event)
    requires
        match event {
            Event::OnQc(v) | Event::OnTimeoutCert(v) => v < u64::MAX,
            _ => true,
        },
    ensures
        ({
            let s = pm@;
            let n = next_state(s, event).current_view;
            let a = step_actions(pm, event);
            n != s.current_view ==> {
                &&& n > s.current_view
                &&& pm.selector_spec().leader(n) == pm.id() ==> a.len() == 3
                &&& pm.selector_spec().leader(n) != pm.id() ==> a.len() == 2
                &&& match event {
                    Event::OnQc(v) => n == v + 1 && a[0] == (Action::AdvanceToView { view: n, cause: AdvanceCause::Qc }),
                    Event::OnTimeoutCert(v) => n == v + 1 && a[0] == (Action::AdvanceToView {
                        view: n,
                        cause: AdvanceCause::Tc,
                    }),
                    Event::OnRoundSync { view, .. } => n == view && a[0] == (Action::AdvanceToView {
                        view: n,
                        cause: AdvanceCause::RoundSync,
                    }),
                    _ => false,
                }
            }
        }),
{
}

/// Timeouts are sent for a timer that ran out at the current view and for
/// nothing else; leadership is claimed for the view that is entered and for
/// no other.
pub proof fn nothing_is_sent_out_of_turn<S: LeaderSelector, P: TimeoutPolicy>(
    pm: &Pacemaker<S, P>,
    event: Event,
    v: u64,
)
    requires
        match event {
            Event::OnQc(v) | Event::OnTimeoutCert(v) => v < u64::MAX,
            _ => true,
        },
    ensures
        ({
            let a = step_actions(pm, event);
            &&& a.contains(Action::SendTimeout(v)) ==> event == Event::OnTimeout(v) && v == pm@.current_view
            &&& a.contains(Action::BecomeLeader(v)) ==> {
                &&& v == next_state(pm@, event).current_view
                &&& v > pm@.current_view
                &&& pm.selector_spec().leader(v) == pm.id()
            }
        }),
{
}

// ---- timers --------------------------------------------------------------

/// The timer starts at the base, or at the ceiling where that is lower; each
/// failure doubles it as long as the ceiling allows, and then it stays at the
/// ceiling.
pub proof fn each_failure_doubles_the_timer(p: ExponentialBackoff, failures: u32)
    requires
        failures < u32::MAX,
    ensures
        ({
            let first = p.duration(0);
            let now = p.duration(failures);
            let then = p.duration((failures + 1) as u32);
            &&& first == p.base || first == p.max
            &&& first <= p.base && first <= p.max
            &&& 2 * now <= p.max ==> then == 2 * now
            &&& 2 * now > p.max ==> then == p.max
        }),
{
    reveal_with_fuel(backoff, 2);
    lemma_backoff_bound(p.base as nat, p.max as nat, failures as nat);
    lemma_backoff_bound(p.base as nat, p.max as nat, (failures + 1) as nat);
    lemma_backoff_doubles(p.base as nat, p.max as nat, failures as nat);
}

proof fn lemma_backoff_bound(base: nat, max: nat, failures: nat)
    ensures
        backoff(base, max, failures) <= max,
    decreases failures,
{
    if base < max && failures > 0 {
        lemma_backoff_bound(2 * base, max, (failures - 1) as nat);
    }
}

proof fn lemma_backoff_doubles(base: nat, max: nat, failures: nat)
    ensures
        ({
            let now = backoff(base, max, failures);
            let then = backoff(base, max, failures + 1);
            &&& 2 * now <= max ==> then == 2 * now
            &&& 2 * now > max ==> then == max
        }),
    decreases failures,
{
    if base >= max {
        assert(backoff(base, max, failures) == max);
        assert(backoff(base, max, failures + 1) == max);
    } else if failures == 0 {
        reveal_with_fuel(backoff, 3);
    } else {
        lemma_backoff_doubles(2 * base, max, (failures - 1) as nat);
    }
}

// ---- leaders -------------------------------------------------------------

/// The leader of a view comes from the committee in force there: the one of
/// the last boundary at or before the view. Rotation counts from that
/// boundary on where it goes by weight, and from view zero where validators
/// take turns.
pub proof fn the_leader_comes_from_the_committee_in_force(h: HistoryView, view: u64, k: int)
    requires
        history_ok(h),
        0 <= k < h.len(),
        h[k].0 <= view,
        k + 1 < h.len() ==> view < h[k + 1].0,
        h[k].1.len() > 0,
    ensures
        round_robin_leader(h, view) == h[k].1[view as int % h[k].1.len() as int].id.id,
        weighted_leader(h, view) == h[k].1[leader_index(h[k].1, (view - h[k].0) as nat)].id.id,
        exists|i: int| 0 <= i < h[k].1.len() && weighted_leader(h, view) == #[trigger] h[k].1[i].id.id,
{
    lemma_regime_unique(h, view, k);
    let m = h[k].1;
    let n = (view - h[k].0) as nat;
    crate::pacemaker::leader::lemma_priorities_len(m, n);
    lemma_foremost(bumped(priorities_after(m, n), m));
    let i = leader_index(m, n);
    assert(weighted_leader(h, view) == m[i].id.id);
}

/// Whoever leads is the validator that is furthest behind its share: of all
/// validators it has the most turns to come, counted in weight, and among
/// equals it stands first.
pub proof fn the_validator_furthest_behind_leads(m: Seq<Member>, n: nat, j: int)
    requires
        committee(m),
        fits(m),
        0 <= j < m.len(),
    ensures
        ({
            let l = leader_index(m, n);
            let owed = (n + 1) * m[l].weight - weight_sum(m) * times_led(m, n, l);
            let other = (n + 1) * m[j].weight - weight_sum(m) * times_led(m, n, j);
            &&& 0 <= l < m.len()
            &&& other <= owed
            &&& j < l ==> other < owed
        }),
{
    accumulator_invariant(m, n);
    let p = priorities_after(m, n);
    let q = bumped(p, m);
    lemma_foremost(q);
    let l = foremost(q);
    lemma_priority_in_range(m, n, l);
    lemma_priority_in_range(m, n, j);
    assert((n + 1) * m[l].weight == n * m[l].weight + m[l].weight) by (nonlinear_arith);
    assert((n + 1) * m[j].weight == n * m[j].weight + m[j].weight) by (nonlinear_arith);
    assert(q[j] <= q[l]);
    if j < l {
        assert(q[j] < q[l]);
    }
}

proof fn lemma_priority_in_range(m: Seq<Member>, n: nat, i: int)
    requires
        committee(m),
        fits(m),
        0 <= i < m.len(),
    ensures
        bumped(priorities_after(m, n), m)[i] == priorities_after(m, n)[i] + m[i].weight,
{
    accumulator_invariant(m, n);
    let total = weight_sum(m) as int;
    let p = priorities_after(m, n)[i];
    let len = m.len() as int;
    assert((len - 1) * (total - 1) <= len * total) by (nonlinear_arith)
        requires
            len >= 1,
            total >= 0,
    ;
    assert(p <= (len - 1) * (total - 1));
    assert(p > -total);
    assert(total <= len * total) by (nonlinear_arith)
        requires
            len >= 1,
            total >= 0,
    ;
    assert(clamp(p + m[i].weight) == p + m[i].weight);
}

} // verus!
