//! The view-management state machine.

use vstd::prelude::*;

use crate::bytes::same;
use crate::pacemaker::leader::LeaderSelector;
use crate::pacemaker::timeout::{Millis, TimeoutPolicy};
use crate::validator_set::NodeId;

verus! {

/// Proof that validators of more than the tolerated faulty weight gave up on
/// a view. Only [`HonestyThresholdEvidence::from_bucket_weight`] makes one.
#[derive(Clone, Copy, Debug, PartialEq, Eq, Structural)]
pub struct HonestyThresholdEvidence {
    weight: u128,
}

impl HonestyThresholdEvidence {
    /// The weight that stands behind the evidence.
    pub closed spec fn weight(&self) -> u128 {
        self.weight
    }

    /// Evidence from the weight of the validators that were counted, if it
    /// reaches `threshold`.
    pub fn from_bucket_weight(bucket_weight: u128, threshold: u128) -> (r: Option<HonestyThresholdEvidence>)
        ensures
            r is Some <==> bucket_weight >= threshold,
            r matches Some(e) ==> e.weight() == bucket_weight,
    {
        if bucket_weight >= threshold {
            Some(HonestyThresholdEvidence { weight: bucket_weight })
        } else {
            None
        }
    }
}

/// Inputs the pacemaker reacts to. Each carries the view it is about; who
/// sent it is not relevant to view management.
#[derive(Clone, Copy, Debug, PartialEq, Eq, Structural)]
pub enum Event {
    /// A quorum certificate for the view was observed.
    OnQc(u64),
    /// A timeout certificate for the view was observed: a quorum gave up.
    OnTimeoutCert(u64),
    /// The local view timer expired.
    OnTimeout(u64),
    /// A well-formed proposal for the view was observed.
    OnProposalReceived(u64),
    /// Some honest validator has reached the view: more weight than the
    /// faulty ones can hold voted to time it out.
    OnRoundSync { view: u64, evidence: HonestyThresholdEvidence },
}

/// Why the pacemaker moved to a new view.
#[derive(Clone, Copy, Debug, PartialEq, Eq, Structural)]
pub enum AdvanceCause {
    /// Progress: a quorum certificate.
    Qc,
    /// Recovery: a timeout certificate.
    Tc,
    /// Catching up with a view that an honest validator has reached.
    RoundSync,
}

impl AdvanceCause {
    /// A short, stable tag for logs.
    pub fn as_str(self) -> (r: &'static str)
        ensures
            r@ == match self {
                AdvanceCause::Qc => "qc"@,
                AdvanceCause::Tc => "tc"@,
                AdvanceCause::RoundSync => "round_sync"@,
            },
    {
        match self {
            AdvanceCause::Qc => "qc",
            AdvanceCause::Tc => "tc",
            AdvanceCause::RoundSync => "round_sync",
        }
    }
}

/// Effects the pacemaker asks its driver to perform.
#[derive(Clone, Copy, Debug, PartialEq, Eq, Structural)]
pub enum Action {
    /// The local pacemaker has moved to `view`.
    AdvanceToView { view: u64, cause: AdvanceCause },
    /// This replica leads the view and should propose.
    BecomeLeader(u64),
    /// Broadcast a signed timeout for the view.
    SendTimeout(u64),
    /// Arm the view timer.
    ResetTimer(Millis),
}

/// The part of the pacemaker that events change.
pub struct PacemakerState {
    pub current_view: u64,
    pub high_qc_view: u64,
    pub consecutive_failures: u32,
}

/// View management without I/O, timers or a clock. Feed events to
/// [`Pacemaker::step`] and perform the actions it returns, in order.
#[derive(Debug)]
pub struct Pacemaker<S: LeaderSelector, P: TimeoutPolicy> {
    self_id: NodeId,
    current_view: u64,
    high_qc_view: u64,
    consecutive_failures: u32,
    selector: S,
    policy: P,
}

impl<S: LeaderSelector, P: TimeoutPolicy> View for Pacemaker<S, P> {
    type V = PacemakerState;

    closed spec fn view(&self) -> PacemakerState {
        PacemakerState {
            current_view: self.current_view,
            high_qc_view: self.high_qc_view,
            consecutive_failures: self.consecutive_failures,
        }
    }
}

/// The actions that go with a move to `view`.
pub open spec fn advance_actions<S: LeaderSelector, P: TimeoutPolicy>(
    pm: &Pacemaker<S, P>,
    view: u64,
    cause: AdvanceCause,
) -> Seq<Action> {
    let first = Action::AdvanceToView { view, cause };
    let timer = Action::ResetTimer(pm.policy_spec().duration(0));
    if pm.selector_spec().leader(view) == pm.id() {
        seq![first, Action::BecomeLeader(view), timer]
    } else {
        seq![first, timer]
    }
}

/// The event moves the pacemaker on, and to which view.
pub open spec fn advance_target(s: PacemakerState, event: Event) -> Option<(int, AdvanceCause)> {
    match event {
        Event::OnQc(v) => if v >= s.current_view {
            Some((v + 1, AdvanceCause::Qc))
        } else {
            None
        },
        Event::OnTimeoutCert(v) => if v >= s.current_view {
            Some((v + 1, AdvanceCause::Tc))
        } else {
            None
        },
        Event::OnRoundSync { view, .. } => if view > s.current_view {
            Some((view as int, AdvanceCause::RoundSync))
        } else {
            None
        },
        _ => None,
    }
}

/// The state after `event`.
pub open spec fn next_state(s: PacemakerState, event: Event) -> PacemakerState {
    match advance_target(s, event) {
        Some((view, _)) => PacemakerState {
            current_view: view as u64,
            high_qc_view: match event {
                Event::OnQc(v) => if v > s.high_qc_view {
                    v
                } else {
                    s.high_qc_view
                },
                _ => s.high_qc_view,
            },
            consecutive_failures: 0,
        },
        None => if event == Event::OnTimeout(s.current_view) {
            PacemakerState {
                consecutive_failures: if s.consecutive_failures < u32::MAX {
                    (s.consecutive_failures + 1) as u32
                } else {
                    u32::MAX
                },
                ..s
            }
        } else {
            s
        },
    }
}

/// The actions that `event` calls for.
pub open spec fn step_actions<S: LeaderSelector, P: TimeoutPolicy>(pm: &Pacemaker<S, P>, event: Event) -> Seq<Action> {
    let s = pm@;
    match advance_target(s, event) {
        Some((view, cause)) => advance_actions(pm, view as u64, cause),
        None => if event == Event::OnTimeout(s.current_view) {
            seq![
                Action::SendTimeout(s.current_view),
                Action::ResetTimer(pm.policy_spec().duration(next_state(s, event).consecutive_failures)),
            ]
        } else if event == Event::OnProposalReceived(s.current_view) {
            seq![Action::ResetTimer(pm.policy_spec().duration(s.consecutive_failures))]
        } else {
            seq![]
        },
    }
}

impl<S: LeaderSelector, P: TimeoutPolicy> Pacemaker<S, P> {
    pub closed spec fn id(&self) -> NodeId {
        self.self_id
    }

    pub closed spec fn selector_spec(&self) -> S {
        self.selector
    }

    pub closed spec fn policy_spec(&self) -> P {
        self.policy
    }

    pub open spec fn wf(&self) -> bool {
        self.selector_spec().wf()
    }

    /// Starts at view zero with no failures. The driver arms the first timer.
    pub fn new(self_id: NodeId, selector: S, policy: P) -> (r: Pacemaker<S, P>)
        requires
            selector.wf(),
        ensures
            r.wf(),
            r@ == (PacemakerState { current_view: 0, high_qc_view: 0, consecutive_failures: 0 }),
            r.id() == self_id,
            r.selector_spec() == selector,
            r.policy_spec() == policy,
    {
        Pacemaker { self_id, current_view: 0, high_qc_view: 0, consecutive_failures: 0, selector, policy }
    }

    pub fn self_id(&self) -> (r: NodeId)
        ensures
            r == self.id(),
    {
        self.self_id
    }

    pub fn current_view(&self) -> (r: u64)
        ensures
            r == self@.current_view,
    {
        self.current_view
    }

    pub fn high_qc_view(&self) -> (r: u64)
        ensures
            r == self@.high_qc_view,
    {
        self.high_qc_view
    }

    pub fn consecutive_failures(&self) -> (r: u32)
        ensures
            r == self@.consecutive_failures,
    {
        self.consecutive_failures
    }

    /// The proposer at `view` under the current selector.
    pub fn leader_for_view(&self, view: u64) -> (r: NodeId)
        requires
            self.wf(),
        ensures
            r == self.selector_spec().leader(view),
    {
        self.selector.leader_for_view(view)
    }

    /// Replaces the selector, as a change of the committees calls for. Views
    /// and failure count stay as they are.
    pub fn set_selector(&mut self, selector: S)
        requires
            selector.wf(),
        ensures
            final(self).wf(),
            final(self)@ == old(self)@,
            final(self).id() == old(self).id(),
            final(self).selector_spec() == selector,
            final(self).policy_spec() == old(self).policy_spec(),
    {
        self.selector = selector;
    }

    /// Reacts to `event`; returns the actions to perform, in order.
    ///
    /// Events about views that are over change nothing. A certificate or
    /// round-sync evidence for a later view moves the pacemaker there; a
    /// timer or a proposal counts at the current view only, so that nobody
    /// can force a jump with a made-up one.
    pub fn step(&mut self, event: Event) -> (r: Vec<Action>)
        requires
            old(self).wf(),
            advance_target(old(self)@, event) matches Some((view, _)) ==> view <= u64::MAX,
        ensures
            final(self).wf(),
            final(self)@ == next_state(old(self)@, event),
            r@ == step_actions(old(self), event),
            final(self).id() == old(self).id(),
            final(self).selector_spec() == old(self).selector_spec(),
            final(self).policy_spec() == old(self).policy_spec(),
    {
        match event {
            Event::OnQc(v) => {
                if v < self.current_view {
                    return Vec::new();
                }
                if v > self.high_qc_view {
                    self.high_qc_view = v;
                }
                self.advance_to(v + 1, AdvanceCause::Qc)
            },
            Event::OnTimeoutCert(v) => {
                if v < self.current_view {
                    return Vec::new();
                }
                self.advance_to(v + 1, AdvanceCause::Tc)
            },
            Event::OnTimeout(v) => {
                if v != self.current_view {
                    return Vec::new();
                }
                self.consecutive_failures = self.consecutive_failures.saturating_add(1);
                let mut actions: Vec<Action> = Vec::new();
                actions.push(Action::SendTimeout(v));
                actions.push(Action::ResetTimer(self.policy.timeout(self.consecutive_failures)));
                actions
            },
            Event::OnProposalReceived(v) => {
                if v != self.current_view {
                    return Vec::new();
                }
                let mut actions: Vec<Action> = Vec::new();
                actions.push(Action::ResetTimer(self.policy.timeout(self.consecutive_failures)));
                actions
            },
            Event::OnRoundSync { view, evidence } => {
                if view <= self.current_view {
                    return Vec::new();
                }
                self.advance_to(view, AdvanceCause::RoundSync)
            },
        }
    }

    fn advance_to(&mut self, new_view: u64, cause: AdvanceCause) -> (r: Vec<Action>)
        requires
            old(self).wf(),
        ensures
            final(self).wf(),
            final(self)@ == (PacemakerState { current_view: new_view, consecutive_failures: 0, ..old(self)@ }),
            r@ == advance_actions(old(self), new_view, cause),
            final(self).id() == old(self).id(),
            final(self).selector_spec() == old(self).selector_spec(),
            final(self).policy_spec() == old(self).policy_spec(),
    {
        self.current_view = new_view;
        self.consecutive_failures = 0;
        let mut actions: Vec<Action> = Vec::new();
        actions.push(Action::AdvanceToView { view: new_view, cause });
        let leader = self.selector.leader_for_view(new_view);
        if same(&leader, &self.self_id) {
            actions.push(Action::BecomeLeader(new_view));
        }
        actions.push(Action::ResetTimer(self.policy.timeout(0)));
        assert(actions@ =~= advance_actions(old(self), new_view, cause));
        actions
    }
}

/// The view never goes back, and neither does the view of the highest
/// certificate.
pub proof fn views_never_go_back(s: PacemakerState, event: Event)
    requires
        advance_target(s, event) matches Some((view, _)) ==> view <= u64::MAX,
    ensures
        next_state(s, event).current_view >= s.current_view,
        next_state(s, event).high_qc_view >= s.high_qc_view,
{
}

/// An event about a view that is over changes nothing and calls for nothing.
pub proof fn stale_events_are_ignored<S: LeaderSelector, P: TimeoutPolicy>(pm: &Pacemaker<S, P>, event: Event)
    requires
        match event {
            Event::OnQc(v) | Event::OnTimeoutCert(v) | Event::OnTimeout(v) | Event::OnProposalReceived(v) => v
                < pm@.current_view,
            Event::OnRoundSync { view, .. } => view <= pm@.current_view,
        },
    ensures
        next_state(pm@, event) == pm@,
        step_actions(pm, event) == Seq::<Action>::empty(),
{
    assert(step_actions(pm, event) =~= Seq::<Action>::empty());
}

/// A timer or a proposal for a later view cannot move the pacemaker.
pub proof fn future_local_events_are_ignored<S: LeaderSelector, P: TimeoutPolicy>(pm: &Pacemaker<S, P>, v: u64)
    requires
        v > pm@.current_view,
    ensures
        next_state(pm@, Event::OnTimeout(v)) == pm@,
        next_state(pm@, Event::OnProposalReceived(v)) == pm@,
        step_actions(pm, Event::OnTimeout(v)) == Seq::<Action>::empty(),
        step_actions(pm, Event::OnProposalReceived(v)) == Seq::<Action>::empty(),
{
    assert(step_actions(pm, Event::OnTimeout(v)) =~= Seq::<Action>::empty());
    assert(step_actions(pm, Event::OnProposalReceived(v)) =~= Seq::<Action>::empty());
}

/// Certificates for the current or a later view lead to the view after it;
/// round-sync evidence leads to the view itself. Only a quorum certificate
/// raises the view of the highest certificate, and every move clears the
/// failure count.
pub proof fn proof_of_progress_advances(s: PacemakerState, v: u64, e: HonestyThresholdEvidence)
    requires
        v < u64::MAX,
    ensures
        v >= s.current_view ==> next_state(s, Event::OnQc(v)).current_view == v + 1,
        v >= s.current_view ==> next_state(s, Event::OnTimeoutCert(v)).current_view == v + 1,
        v > s.current_view ==> next_state(s, Event::OnRoundSync { view: v, evidence: e }).current_view == v,
        v >= s.current_view ==> next_state(s, Event::OnQc(v)).high_qc_view >= v,
        next_state(s, Event::OnTimeoutCert(v)).high_qc_view == s.high_qc_view,
        next_state(s, Event::OnRoundSync { view: v, evidence: e }).high_qc_view == s.high_qc_view,
        next_state(s, Event::OnTimeout(v)).high_qc_view == s.high_qc_view,
        next_state(s, Event::OnProposalReceived(v)).high_qc_view == s.high_qc_view,
        v >= s.current_view ==> next_state(s, Event::OnQc(v)).consecutive_failures == 0,
        v >= s.current_view ==> next_state(s, Event::OnTimeoutCert(v)).consecutive_failures == 0,
        v > s.current_view ==> next_state(s, Event::OnRoundSync { view: v, evidence: e }).consecutive_failures == 0,
{
}

/// Whatever moves the pacemaker, it announces the new view first, claims
/// leadership exactly when this replica leads that view, and arms the timer
/// last.
pub proof fn advancing_announces_the_view<S: LeaderSelector, P: TimeoutPolicy>(pm: &Pacemaker<S, P>, event: Event)
    requires
        advance_target(pm@, event) matches Some((view, _)) && view <= u64::MAX,
    ensures
        ({
            let view = next_state(pm@, event).current_view;
            let a = step_actions(pm, event);
            &&& a.len() >= 2
            &&& a[0] is AdvanceToView && a[0]->view == view
            &&& a.last() == Action::ResetTimer(pm.policy_spec().duration(0))
            &&& a.contains(Action::BecomeLeader(view)) <==> pm.selector_spec().leader(view) == pm.id()
        }),
{
    let view = next_state(pm@, event).current_view;
    let a = step_actions(pm, event);
    if pm.selector_spec().leader(view) == pm.id() {
        assert(a[1] == Action::BecomeLeader(view));
    }
}

} // verus!
