use consensus_node::pacemaker::leader::{LeaderSelector, RoundRobinSelector, WeightedAccumulatorSelector};
use consensus_node::pacemaker::state_machine::{Action, AdvanceCause, Event, HonestyThresholdEvidence, Pacemaker};
use consensus_node::pacemaker::timeout::{ExponentialBackoff, TimeoutPolicy};
use consensus_node::validator_set::{NodeId, ValidatorId, ValidatorSet};

fn nid(b: u8) -> NodeId {
    [b; 32]
}

fn four_validators() -> ValidatorSet {
    ValidatorSet::new((1..=4).map(|b| ValidatorId::from_genesis_pubkey(nid(b))).collect())
}

type TestPacemaker = Pacemaker<RoundRobinSelector, ExponentialBackoff>;

/// The pacemaker of validator 3, which leads the views 2, 6, 10 and so on.
fn pacemaker() -> TestPacemaker {
    Pacemaker::new(
        nid(3),
        RoundRobinSelector::from_genesis_set(four_validators()),
        ExponentialBackoff::new(100, 1000),
    )
}

fn evidence() -> HonestyThresholdEvidence {
    HonestyThresholdEvidence::from_bucket_weight(2, 2).unwrap()
}

#[test]
fn advance_cause_strings_match_operator_runbooks() {
    assert_eq!(AdvanceCause::Qc.as_str(), "qc");
    assert_eq!(AdvanceCause::Tc.as_str(), "tc");
    assert_eq!(AdvanceCause::RoundSync.as_str(), "round_sync");
}

#[test]
fn a_certificate_advances_to_the_next_view() {
    let mut p = pacemaker();
    let actions = p.step(Event::OnQc(4));
    assert_eq!(actions, vec![Action::AdvanceToView { view: 5, cause: AdvanceCause::Qc }, Action::ResetTimer(100)]);
    assert_eq!(p.current_view(), 5);
    assert_eq!(p.high_qc_view(), 4);
}

#[test]
fn the_leader_of_the_new_view_is_told() {
    let mut p = pacemaker();
    let actions = p.step(Event::OnTimeoutCert(5));
    assert_eq!(
        actions,
        vec![
            Action::AdvanceToView { view: 6, cause: AdvanceCause::Tc },
            Action::BecomeLeader(6),
            Action::ResetTimer(100),
        ],
    );
    assert_eq!(p.high_qc_view(), 0, "a timeout certificate certifies nothing");
}

#[test]
fn stale_certificates_are_ignored() {
    let mut p = pacemaker();
    p.step(Event::OnQc(4));
    assert!(p.step(Event::OnQc(4)).is_empty());
    assert!(p.step(Event::OnTimeoutCert(3)).is_empty());
    assert_eq!(p.current_view(), 5);
}

#[test]
fn timeouts_double_the_timer_up_to_the_ceiling() {
    let mut p = pacemaker();
    for expected in [200, 400, 800, 1000, 1000] {
        let actions = p.step(Event::OnTimeout(0));
        assert_eq!(actions, vec![Action::SendTimeout(0), Action::ResetTimer(expected)]);
    }
    assert_eq!(p.consecutive_failures(), 5);
    // A proposal re-arms the timer but does not forgive the failures.
    assert_eq!(p.step(Event::OnProposalReceived(0)), vec![Action::ResetTimer(1000)]);
    // Progress does.
    p.step(Event::OnQc(0));
    assert_eq!(p.consecutive_failures(), 0);
    assert_eq!(p.step(Event::OnTimeout(1)), vec![Action::SendTimeout(1), Action::ResetTimer(200)]);
}

#[test]
fn timeouts_and_proposals_of_other_views_are_ignored() {
    let mut p = pacemaker();
    p.step(Event::OnQc(4));
    for view in [4, 6] {
        assert!(p.step(Event::OnTimeout(view)).is_empty());
        assert!(p.step(Event::OnProposalReceived(view)).is_empty());
    }
    assert_eq!(p.consecutive_failures(), 0);
}

#[test]
fn round_sync_moves_to_the_view_itself() {
    let mut p = pacemaker();
    p.step(Event::OnQc(4));
    let actions = p.step(Event::OnRoundSync { view: 42, evidence: evidence() });
    assert_eq!(
        actions,
        vec![
            Action::AdvanceToView { view: 42, cause: AdvanceCause::RoundSync },
            Action::BecomeLeader(42),
            Action::ResetTimer(100),
        ],
    );
    assert_eq!(p.current_view(), 42);
    assert_eq!(p.high_qc_view(), 4);
    // Round sync never goes back and never repeats itself.
    assert!(p.step(Event::OnRoundSync { view: 42, evidence: evidence() }).is_empty());
    assert!(p.step(Event::OnRoundSync { view: 41, evidence: evidence() }).is_empty());
}

#[test]
fn evidence_needs_the_threshold() {
    assert!(HonestyThresholdEvidence::from_bucket_weight(1, 2).is_none());
    assert!(HonestyThresholdEvidence::from_bucket_weight(2, 2).is_some());
    assert!(HonestyThresholdEvidence::from_bucket_weight(u128::MAX, 2).is_some());
}

#[test]
fn backoff_edges() {
    assert_eq!(ExponentialBackoff::new(500, 100).timeout(0), 100);
    assert_eq!(ExponentialBackoff::new(0, 100).timeout(u32::MAX), 0);
    assert_eq!(ExponentialBackoff::new(1, u64::MAX).timeout(63), 1 << 63);
    assert_eq!(ExponentialBackoff::new(1, u64::MAX).timeout(64), u64::MAX);
    assert_eq!(ExponentialBackoff::new(100, 30_000).timeout(3), 800);
}

/// A selector that always picks the same validator.
#[derive(Debug)]
struct Always(NodeId);

impl LeaderSelector for Always {
    fn leader_for_view(&self, _view: u64) -> NodeId {
        self.0
    }
}

/// A timer that never changes.
#[derive(Debug)]
struct Fixed;

impl TimeoutPolicy for Fixed {
    fn timeout(&self, _failures: u32) -> u64 {
        7
    }
}

#[test]
fn other_selectors_and_policies_can_be_used() {
    let mut p = Pacemaker::new(nid(9), Always(nid(9)), Fixed);
    assert_eq!(
        p.step(Event::OnQc(0)),
        vec![
            Action::AdvanceToView { view: 1, cause: AdvanceCause::Qc },
            Action::BecomeLeader(1),
            Action::ResetTimer(7),
        ],
    );
    p.set_selector(Always(nid(8)));
    assert_eq!(p.leader_for_view(5), nid(8));
    assert_eq!(
        p.step(Event::OnQc(1)),
        vec![Action::AdvanceToView { view: 2, cause: AdvanceCause::Qc }, Action::ResetTimer(7)],
    );
}

#[test]
fn asking_in_any_order_gives_the_same_leaders() {
    let set = ValidatorSet::with_weights(
        [(1u8, 5u64), (2, 3), (3, 2)].iter().map(|(b, w)| (ValidatorId::from_genesis_pubkey(nid(*b)), *w)).collect(),
    )
    .unwrap();
    let forward = WeightedAccumulatorSelector::from_genesis_set(set.copy());
    let backward = WeightedAccumulatorSelector::from_genesis_set(set);
    let a: Vec<NodeId> = (0..40).map(|v| forward.leader_for_view(v)).collect();
    let mut b: Vec<NodeId> = (0..40).rev().map(|v| backward.leader_for_view(v)).collect();
    b.reverse();
    assert_eq!(a, b);
    // Ten views give everybody as many as their weight.
    for (id, weight) in [(1u8, 5), (2, 3), (3, 2)] {
        assert_eq!(a[..10].iter().filter(|l| **l == nid(id)).count(), weight);
    }
    assert_eq!(a[..10], a[10..20]);
}

#[test]
fn a_large_uneven_committee_can_lag_by_two_turns() {
    let mut weights: Vec<u64> = vec![44573, 44573, 4393, 1, 1, 1, 1, 1, 4, 4, 4];
    weights.extend([37, 37, 37, 239, 239, 239]);
    let entries =
        weights.iter().enumerate().map(|(i, w)| (ValidatorId::from_genesis_pubkey(nid(i as u8)), *w)).collect();
    let set = ValidatorSet::with_weights(entries).unwrap();
    assert_eq!(set.total_weight(), 94384);
    let selector = WeightedAccumulatorSelector::from_genesis_set(set);
    let led = (0..38020).filter(|v| selector.leader_for_view(*v) == nid(1)).count();
    assert_eq!(38020 * 44573 / 94384, 17955);
    assert_eq!(led, 17953);
}

#[test]
fn every_cycle_is_exact_wherever_it_starts() {
    let weights = [(1u8, 1u64), (2, 1), (3, 1), (4, 6)];
    let set = ValidatorSet::with_weights(
        weights.iter().map(|(b, w)| (ValidatorId::from_genesis_pubkey(nid(*b)), *w)).collect(),
    )
    .unwrap();
    let selector = WeightedAccumulatorSelector::from_genesis_set(set);
    for first in 0..20u64 {
        for (id, weight) in weights {
            let led = (first..first + 9).filter(|v| selector.leader_for_view(*v) == nid(id)).count();
            assert_eq!(led as u64, weight);
        }
    }
    // Shorter windows may be off by more than one turn: five views, two turns, a share of three and a third.
    let led = (2..7u64).filter(|v| selector.leader_for_view(*v) == nid(4)).count();
    assert_eq!(led, 2);
}
