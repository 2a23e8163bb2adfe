//! Leader rotation on concrete committees.

use consensus_node::pacemaker::leader::{
    accumulator_step, LeaderSelector, RoundRobinSelector, WeightedAccumulatorSelector,
};
use consensus_node::validator_history::ValidatorSetHistory;
use consensus_node::validator_set::{CommitteeError, NodeId, ValidatorId, ValidatorSet};

fn nid(b: u8) -> NodeId {
    [b; 32]
}

fn vid(b: u8) -> ValidatorId {
    ValidatorId::from_genesis_pubkey(nid(b))
}

fn sel(ids: Vec<NodeId>) -> RoundRobinSelector {
    let vids: Vec<_> = ids.into_iter().map(ValidatorId::from_genesis_pubkey).collect();
    RoundRobinSelector::from_genesis_set(ValidatorSet::new(vids))
}

fn weighted_sel(entries: Vec<(NodeId, u64)>) -> WeightedAccumulatorSelector {
    let weighted: Vec<_> = entries
        .into_iter()
        .map(|(n, w)| (ValidatorId::from_genesis_pubkey(n), w))
        .collect();
    let vs = ValidatorSet::with_weights(weighted).expect("weights nonzero");
    WeightedAccumulatorSelector::from_genesis_set(vs)
}

#[test]
fn rotation_covers_every_validator_in_sort_order() {
    let s = sel(vec![nid(4), nid(1), nid(3), nid(2)]);
    let leaders: Vec<_> = (0..4).map(|v| s.leader_for_view(v)).collect();
    assert_eq!(leaders, vec![nid(1), nid(2), nid(3), nid(4)]);
}

#[test]
fn deterministic() {
    let s = sel(vec![nid(1), nid(2), nid(3)]);
    assert_eq!(s.leader_for_view(42), s.leader_for_view(42));
    assert_eq!(s.leader_for_view(1_000_000), s.leader_for_view(1_000_000));
}

#[test]
fn wraps_around() {
    let s = sel(vec![nid(1), nid(2), nid(3)]);
    for v in 0..9 {
        assert_eq!(s.leader_for_view(v), s.leader_for_view(v + 3));
    }
}

#[test]
fn large_view_matches_modular_arithmetic() {
    // Past `u32::MAX`, make sure the result still tracks `v % len`.
    // `u32::MAX = 4_294_967_295` is divisible by 3, so
    // `(u32::MAX + 7) % 3 == 1`: the selector should return index 1.
    let s = sel(vec![nid(1), nid(2), nid(3)]);
    let v = (u32::MAX as u64) + 7;
    assert_eq!(s.leader_for_view(v), nid(2));
}

#[test]
fn rotation_picks_pre_boundary_set_before_v_eff_and_post_at_or_after() {
    let old_set = ValidatorSet::new(vec![vid(1), vid(2), vid(3), vid(4)]);
    let new_set = ValidatorSet::new(vec![vid(10), vid(20), vid(30)]);
    let v_eff: u64 = 7;

    let mut history = ValidatorSetHistory::from_genesis(old_set.clone());
    history.insert_boundary(v_eff, new_set.clone()).unwrap();
    let s = RoundRobinSelector::new(history);

    // Pre-boundary leaders are the old set: idx = view % 4.
    for v in [0u64, 1, 2, 3, 4, 5, 6] {
        let expected = old_set.get((v % 4) as usize).unwrap().into_node_id();
        assert_eq!(s.leader_for_view(v), expected, "pre-boundary leader at {v}");
    }
    // At and beyond v_eff the new set rotates: idx = view % 3.
    for v in [7u64, 8, 9, 10, 11] {
        let expected = new_set.get((v % 3) as usize).unwrap().into_node_id();
        assert_eq!(s.leader_for_view(v), expected, "post-boundary leader at {v}");
    }
}

#[test]
fn multiple_boundaries_drive_rotation_through_each_regime() {
    let g = ValidatorSet::new(vec![vid(1), vid(2)]);
    let mid = ValidatorSet::new(vec![vid(3), vid(4), vid(5)]);
    let post = ValidatorSet::new(vec![vid(6), vid(7), vid(8), vid(9)]);

    let mut history = ValidatorSetHistory::from_genesis(g.clone());
    history.insert_boundary(5, mid.clone()).unwrap();
    history.insert_boundary(11, post.clone()).unwrap();
    let s = RoundRobinSelector::new(history);

    // Regime 1: views 0..=4 over the genesis set (size 2).
    assert_eq!(s.leader_for_view(0), g.get(0).unwrap().into_node_id());
    assert_eq!(s.leader_for_view(1), g.get(1).unwrap().into_node_id());
    assert_eq!(s.leader_for_view(4), g.get(0).unwrap().into_node_id());

    // Regime 2: views 5..=10 over the mid set (size 3).
    assert_eq!(s.leader_for_view(5), mid.get(2).unwrap().into_node_id()); // 5 % 3 = 2
    assert_eq!(s.leader_for_view(6), mid.get(0).unwrap().into_node_id()); // 6 % 3 = 0
    assert_eq!(s.leader_for_view(10), mid.get(1).unwrap().into_node_id()); // 10 % 3 = 1

    // Regime 3: views 11.. over the post set (size 4).
    assert_eq!(s.leader_for_view(11), post.get(3).unwrap().into_node_id()); // 11 % 4 = 3
    assert_eq!(s.leader_for_view(12), post.get(0).unwrap().into_node_id()); // 12 % 4 = 0
}

#[test]
fn weighted_accumulator_uniform_weights_match_round_robin() {
    let ids = vec![nid(1), nid(2), nid(3), nid(4)];
    let weighted = weighted_sel(ids.iter().map(|n| (*n, 1)).collect());
    let rr = sel(ids.clone());

    // Compare for one full cycle plus wraparound.
    for v in 0..(ids.len() as u64 * 3) {
        assert_eq!(
            weighted.leader_for_view(v),
            rr.leader_for_view(v),
            "uniform weighted should equal round-robin at view {v}",
        );
    }
}

#[test]
fn weighted_accumulator_three_one_one_hand_checked() {
    let s = weighted_sel(vec![(nid(1), 3), (nid(2), 1), (nid(3), 1)]);
    let leaders: Vec<_> = (0..5).map(|v| s.leader_for_view(v)).collect();
    assert_eq!(
        leaders,
        vec![nid(1), nid(2), nid(1), nid(3), nid(1)],
        "hand-checked accumulator sequence for [3, 1, 1]",
    );
    // Period 5: priorities returned to zero.
    for v in 0..5u64 {
        assert_eq!(s.leader_for_view(v), s.leader_for_view(v + 5));
        assert_eq!(s.leader_for_view(v), s.leader_for_view(v + 10));
    }
}

#[test]
fn weighted_accumulator_out_of_order_queries_are_consistent() {
    let s = weighted_sel(vec![(nid(1), 3), (nid(2), 1), (nid(3), 1)]);

    // Forward sequence (also primes the cache).
    let forward: Vec<_> = (0..10).map(|v| s.leader_for_view(v)).collect();

    // Now ask out of order: earlier views first, then jump forward, then
    // back. Every query must match the forward sequence.
    let s2 = weighted_sel(vec![(nid(1), 3), (nid(2), 1), (nid(3), 1)]);
    let scrambled: Vec<u64> = vec![7, 0, 9, 3, 1, 5, 2, 8, 4, 6];
    for v in scrambled {
        assert_eq!(
            s2.leader_for_view(v),
            forward[v as usize],
            "out-of-order query at view {v} disagrees with forward sequence",
        );
    }
}

#[test]
fn weighted_accumulator_two_selectors_agree_under_different_query_orders() {
    let entries = vec![(nid(1), 5), (nid(2), 3), (nid(3), 1), (nid(4), 1)];
    let s_forward = weighted_sel(entries.clone());
    let s_backward = weighted_sel(entries);

    for v in 0..30u64 {
        // s_forward queried in ascending order; s_backward in descending.
        let _ = s_forward.leader_for_view(v);
    }
    for v in (0..30u64).rev() {
        let _ = s_backward.leader_for_view(v);
    }
    for v in 0..30u64 {
        assert_eq!(
            s_forward.leader_for_view(v),
            s_backward.leader_for_view(v),
            "selectors disagree at view {v}",
        );
    }
}

#[test]
fn weighted_accumulator_resets_priorities_at_each_boundary() {
    let pre = ValidatorSet::with_weights(vec![(vid(1), 3), (vid(2), 1), (vid(3), 1)]).unwrap();
    let post = ValidatorSet::with_weights(vec![(vid(10), 1), (vid(20), 1), (vid(30), 1)]).unwrap();
    let v_eff: u64 = 3;

    let mut history = ValidatorSetHistory::from_genesis(pre.clone());
    history.insert_boundary(v_eff, post.clone()).unwrap();
    let s = WeightedAccumulatorSelector::new(history);

    // Pre-boundary: same as the [3,1,1] hand-checked sequence at views 0..3.
    assert_eq!(s.leader_for_view(0), pre.get(0).unwrap().into_node_id());
    assert_eq!(s.leader_for_view(1), pre.get(1).unwrap().into_node_id());
    assert_eq!(s.leader_for_view(2), pre.get(0).unwrap().into_node_id());

    // Post-boundary: uniform weights, so round-robin from index 0. Even
    // though the pre-regime ended mid-cycle, the post regime starts fresh.
    assert_eq!(s.leader_for_view(3), post.get(0).unwrap().into_node_id());
    assert_eq!(s.leader_for_view(4), post.get(1).unwrap().into_node_id());
    assert_eq!(s.leader_for_view(5), post.get(2).unwrap().into_node_id());
    assert_eq!(s.leader_for_view(6), post.get(0).unwrap().into_node_id());
}

#[test]
fn weighted_accumulator_ties_break_to_lowest_index() {
    let s = weighted_sel(vec![(nid(7), 1), (nid(3), 1), (nid(5), 1)]);
    // sorted ids: nid(3), nid(5), nid(7) at indices 0, 1, 2.
    assert_eq!(s.leader_for_view(0), nid(3));
    assert_eq!(s.leader_for_view(1), nid(5));
    assert_eq!(s.leader_for_view(2), nid(7));
}

/// A small generator of weights, so that the cases below vary without being
/// random.
fn weights_of_case(case: u64) -> Vec<u64> {
    let n = 4 + (case % 4) as usize;
    let mut state = case.wrapping_mul(0x9e37_79b9_7f4a_7c15).wrapping_add(1);
    (0..n)
        .map(|_| {
            state ^= state << 13;
            state ^= state >> 7;
            state ^= state << 17;
            1 + state % 20
        })
        .collect()
}

#[test]
fn weighted_accumulator_long_run_frequency_tracks_weights_exactly() {
    for case in 0..64u64 {
        let weights = weights_of_case(case);
        let n = weights.len();
        let entries: Vec<(NodeId, u64)> = (0..n as u8)
            .zip(weights.iter().copied())
            .map(|(i, w)| (nid(i + 1), w))
            .collect();
        let s = weighted_sel(entries);

        let view_count: u64 = 1000;
        let total_weight: u128 = weights.iter().map(|w| u128::from(*w)).sum();
        let mut counts = vec![0u64; n];
        for v in 0..view_count {
            let leader = s.leader_for_view(v);
            let idx = (leader[0] - 1) as usize;
            counts[idx] += 1;
        }

        for (i, &count) in counts.iter().enumerate() {
            let expected = (u128::from(view_count) * u128::from(weights[i]) / total_weight) as u64;
            let drift = count.abs_diff(expected);
            assert!(
                drift <= 1,
                "validator {i} (weight {w}) led {count} times but expected {expected} +- 1 (drift {drift})",
                w = weights[i],
            );
        }
        // The total leader count must be exactly view_count.
        let sum: u64 = counts.iter().sum();
        assert_eq!(sum, view_count);
    }
}

#[test]
fn weighted_accumulator_determinism_under_arbitrary_query_orders() {
    for case in 0..32u64 {
        let weights = weights_of_case(case);
        let n = weights.len();
        let entries: Vec<(NodeId, u64)> = (0..n as u8)
            .zip(weights.iter().copied())
            .map(|(i, w)| (nid(i + 1), w))
            .collect();
        let s_forward = weighted_sel(entries.clone());
        let s_random = weighted_sel(entries);

        // Forward sequence, which also serves as the reference.
        let reference: Vec<NodeId> = (0..200u64).map(|v| s_forward.leader_for_view(v)).collect();
        let mut order: Vec<u64> = (0..200u64).map(|k| (k * 37 + case * 11) % 200).collect();
        for v in &order {
            assert_eq!(s_random.leader_for_view(*v), reference[*v as usize]);
        }
        order.sort();
        order.dedup();
        for v in &order {
            assert_eq!(s_random.leader_for_view(*v), reference[*v as usize]);
        }
    }
}

#[test]
fn a_full_cycle_gives_every_validator_its_weight() {
    let weights = [7u64, 2, 5, 1];
    let s = weighted_sel((0..4u8).map(|i| (nid(i + 1), weights[i as usize])).collect());
    let total: u64 = weights.iter().sum();
    for cycle in 0..3u64 {
        let mut counts = [0u64; 4];
        for v in cycle * total..(cycle + 1) * total {
            counts[(s.leader_for_view(v)[0] - 1) as usize] += 1;
        }
        assert_eq!(counts, weights);
    }
}

#[test]
fn no_validator_runs_ahead_of_its_share() {
    let weights = [11u64, 3, 3, 1];
    let s = weighted_sel((0..4u8).map(|i| (nid(i + 1), weights[i as usize])).collect());
    let total: u64 = weights.iter().sum();
    let mut counts = [0u64; 4];
    for n in 1..200u64 {
        counts[(s.leader_for_view(n - 1)[0] - 1) as usize] += 1;
        for i in 0..4 {
            assert!(total * counts[i] < n * weights[i] + total);
        }
    }
}

#[test]
fn accumulator_step_saturates_instead_of_wrapping() {
    let vs = ValidatorSet::with_weights(vec![(vid(1), 5), (vid(2), 1)]).unwrap();
    let mut p = vec![i128::MAX - 1, i128::MIN];
    let leader = accumulator_step(&mut p, &vs);
    assert_eq!(leader, 0);
    assert_eq!(p, vec![i128::MAX - 6, i128::MIN + 1]);
}

#[test]
fn selectors_agree_through_the_trait() {
    let s = weighted_sel(vec![(nid(1), 2), (nid(2), 1)]);
    for v in 0..9 {
        assert_eq!(LeaderSelector::leader_for_view(&s, v), s.leader_for_view(v));
    }
    let r = sel(vec![nid(1), nid(2)]);
    assert_eq!(LeaderSelector::leader_for_view(&r, 3), nid(2));
}

#[test]
fn committees_are_sorted_and_deduplicated() {
    let vs = ValidatorSet::new(vec![vid(9), vid(3), vid(9), vid(1)]);
    assert_eq!(vs.len(), 3);
    assert_eq!(vs.get(0).unwrap().into_node_id(), nid(1));
    assert_eq!(vs.get(1).unwrap().into_node_id(), nid(3));
    assert_eq!(vs.get(2).unwrap().into_node_id(), nid(9));
    assert!(vs.get(3).is_none());
    assert!(vs.contains(&vid(3)));
    assert!(!vs.contains(&vid(4)));
    assert_eq!(vs.total_weight(), 3);
}

#[test]
fn weighted_committees_refuse_zero_weights_and_duplicates() {
    let zero = ValidatorSet::with_weights(vec![(vid(1), 4), (vid(2), 0)]);
    assert!(matches!(zero, Err(CommitteeError::ZeroWeight(v)) if v == vid(2)));
    let twice = ValidatorSet::with_weights(vec![(vid(1), 4), (vid(1), 2)]);
    assert!(matches!(twice, Err(CommitteeError::Duplicate(v)) if v == vid(1)));
    let ok = ValidatorSet::with_weights(vec![(vid(2), 4), (vid(1), 2)]).unwrap();
    assert_eq!(ok.weights(), vec![2, 4]);
    assert_eq!(ok.weight_for(&vid(2)), Some(4));
    assert_eq!(ok.weight_for(&vid(3)), None);
    assert_eq!(ok.total_weight(), 6);
}

#[test]
fn boundaries_must_rise() {
    let a = ValidatorSet::new(vec![vid(1)]);
    let b = ValidatorSet::new(vec![vid(2)]);
    let mut h = ValidatorSetHistory::from_genesis(a);
    assert!(h.insert_boundary(0, b.clone()).is_err());
    assert!(h.insert_boundary(4, b.clone()).is_ok());
    assert!(h.insert_boundary(4, b.clone()).is_err());
    assert!(h.insert_boundary(3, b).is_err());
    assert_eq!(h.boundary_count(), 2);
    assert_eq!(h.set_at(3).get(0).unwrap(), vid(1));
    assert_eq!(h.set_at(4).get(0).unwrap(), vid(2));
    assert_eq!(h.current_set().get(0).unwrap(), vid(2));
}
