use consensus_node::codec::{decode_timeout_vote, Record};
use consensus_node::digests::Fingerprints;
use consensus_node::node::config::{CacheLimits, NodeConfigForConsensus};
use consensus_node::node::consensus_node::ConsensusNode;
use consensus_node::node::dispatch::{Dispatch, DispatchStep};
use consensus_node::node::driving::{PacemakerEffect, TimeoutStep};
use consensus_node::node::error::NodeError;
use consensus_node::node::persist::StateUpdate;
use consensus_node::pacemaker::state_machine::{Action, Event};
use consensus_node::quorum::{honesty_weight_threshold, quorum_size, quorum_weight_threshold};
use consensus_node::storage::{MemoryStorage, Storage, StorageError, Write, STORAGE_KEY_LAST_TIMEOUT_VOTE};
use consensus_node::types::{Block, BlockHeader, Locked, QuorumCertificate, TimeoutVote};
use consensus_node::validator_set::{NodeId, ValidatorId, ValidatorSet};

fn nid(b: u8) -> NodeId {
    [b; 32]
}

fn vid(b: u8) -> ValidatorId {
    ValidatorId::from_genesis_pubkey(nid(b))
}

fn four_validators() -> ValidatorSet {
    ValidatorSet::new(vec![vid(1), vid(2), vid(3), vid(4)])
}

fn genesis() -> Block {
    Block::genesis([0u8; 32], [0; 32], [0x60; 32])
}

fn test_config() -> NodeConfigForConsensus {
    NodeConfigForConsensus::for_testing(four_validators(), genesis())
}

fn make_node() -> ConsensusNode {
    ConsensusNode::new(nid(1), test_config())
}

fn vote(view: u64) -> TimeoutVote {
    TimeoutVote { view, high_qc: None }
}

fn vote_with(view: u64, qc_view: u64) -> TimeoutVote {
    TimeoutVote { view, high_qc: Some(QuorumCertificate::new(qc_view, [0xDE; 32], 4)) }
}

/// Hands the vote of `signer` to the node and acts on the pacemaker's part.
fn deliver(node: &mut ConsensusNode, signer: NodeId, vote: TimeoutVote, high_qc_trusted: bool) -> Vec<TimeoutStep> {
    let storage = MemoryStorage::new();
    let steps = match node.apply_dispatch(&storage, &Fingerprints, Dispatch::TimeoutVote { signer, vote, high_qc_trusted }) {
        DispatchStep::Timeout(steps) => steps,
        other => panic!("expected timeout steps, got {other:?}"),
    };
    for step in &steps {
        match step {
            TimeoutStep::RoundSync { view, evidence } => {
                node.step_pacemaker(Event::OnRoundSync { view: *view, evidence: *evidence });
            }
            TimeoutStep::TimeoutCert { view } => {
                node.step_pacemaker(Event::OnTimeoutCert(*view));
            }
            _ => {}
        }
    }
    steps
}

#[test]
fn timeout_vote_single_signer_does_not_advance_pacemaker_view() {
    let mut node = make_node();
    let view_before = node.pacemaker.current_view();
    deliver(&mut node, nid(2), vote(42), true);
    assert_eq!(
        node.pacemaker.current_view(),
        view_before,
        "a single signer must not advance the pacemaker",
    );
    assert_eq!(node.timeout_buckets.get(42).unwrap().signers, vec![nid(2)]);
}

#[test]
fn two_distinct_timeout_votes_fire_round_sync_and_advance_pacemaker() {
    let mut node = make_node();
    let high_qc_view_before = node.pacemaker.high_qc_view();
    for peer in [nid(2), nid(3)] {
        deliver(&mut node, peer, vote(42), true);
    }
    assert_eq!(node.pacemaker.current_view(), 42, "round sync jumps to v, not v+1");
    assert_eq!(
        node.pacemaker.high_qc_view(),
        high_qc_view_before,
        "round sync must not promote high_qc_view",
    );
}

#[test]
fn forged_piggyback_on_timeout_vote_does_not_taint_bucket_best_high_qc() {
    let mut node = make_node();
    let bogus_view = u64::MAX - 1;
    let mut forged = QuorumCertificate::new(bogus_view, [0xDE; 32], 4);
    for idx in 0..quorum_size(4) {
        forged.add_signature(idx, [0u8; 64]);
    }
    let attack_view = 42;
    deliver(&mut node, nid(2), TimeoutVote { view: attack_view, high_qc: Some(forged) }, false);

    let bucket = node.timeout_buckets.get(attack_view).expect("the vote created the bucket");
    assert_eq!(bucket.signers.len(), 1, "the signer must still count toward the bucket");
    assert!(bucket.best_high_qc.is_none(), "best_high_qc must remain None");
}

#[test]
fn stale_timeout_vote_replies_with_new_view_to_wedged_peer() {
    let mut node = make_node();
    node.step_pacemaker(Event::OnQc(50));
    let our_view_before = node.pacemaker.current_view();
    assert!(our_view_before > 5);
    let our_high_qc_view_before = node.state.high_qc.as_ref().expect("genesis certificate").view;

    let steps = deliver(&mut node, nid(2), vote(5), true);
    assert_eq!(node.pacemaker.current_view(), our_view_before, "a stale vote must not advance our own pacemaker");
    assert_eq!(steps.len(), 1);
    match &steps[0] {
        TimeoutStep::CatchUp { to, high_qc } => {
            assert_eq!(*to, nid(2));
            assert_eq!(high_qc.view, our_high_qc_view_before, "the reply must carry our current high_qc");
        }
        other => panic!("expected a reply to the wedged peer, got {other:?}"),
    }
    assert_eq!(node.timeout_buckets.len(), 0);
}

#[test]
fn boot_after_recover_seeds_pacemaker_from_persisted_state() {
    let mut storage = MemoryStorage::new();
    let b_high = Block {
        header: BlockHeader {
            parent_hash: genesis().hash(),
            height: 1,
            view: 9,
            proposer: nid(1),
            state_commitment: [0u8; 32],
            commands_commitment: [0u8; 32],
            validator_history_commitment: [0; 32],
        },
        commands: vec![],
        hash: [0x69; 32],
    };
    let high_qc = QuorumCertificate::new(9, b_high.hash(), 4);
    let locked = Locked { view: 8, height: 1, block_hash: b_high.hash() };

    let mut node = make_node();
    node.state.insert_pending(b_high);
    node.persist_updates(
        &mut storage,
        &vec![StateUpdate::VotedInView { view: 10 }, StateUpdate::Locked(locked), StateUpdate::HighQc(high_qc)],
    )
    .unwrap();
    drop(node);

    let mut recovered = ConsensusNode::recover(nid(1), test_config(), &storage, &Fingerprints).unwrap();
    assert_eq!(recovered.state.last_voted_view, 10);
    assert_eq!(recovered.state.high_qc.as_ref().unwrap().view, 9);

    let boot = recovered.boot_event();
    recovered.step_pacemaker(boot);
    assert_eq!(
        recovered.pacemaker.current_view(),
        11,
        "pacemaker must land at max(high_qc.view, last_voted_view) + 1 = 11 after recover boot",
    );
}

#[test]
fn timeout_buckets_inserting_twice_the_cap_evicts_to_cap() {
    let cap = 4usize;
    let mut limits = CacheLimits::unbounded_for_tests();
    limits.timeout_buckets_capacity = cap;
    let mut cfg = test_config();
    cfg.limits = limits;
    let mut node = ConsensusNode::new(nid(1), cfg);

    let voter = nid(2);
    let n = (2 * cap) as u64;
    for view in 1..=n {
        node.on_timeout_vote(voter, vote(view), true);
        assert!(
            node.timeout_buckets.len() <= cap,
            "timeout_buckets grew past cap after view {view}: len={}",
            node.timeout_buckets.len(),
        );
    }
    assert_eq!(node.timeout_buckets.len(), cap);
    assert_eq!(node.eviction_counters().timeout_buckets, n - (cap as u64));
    let surviving: Vec<u64> = (0..node.timeout_buckets.len()).map(|i| node.timeout_buckets.nth(i).view).collect();
    let expected: Vec<u64> = ((n - cap as u64 + 1)..=n).collect();
    assert_eq!(surviving, expected);
}

#[test]
fn a_quorum_of_timeout_votes_forms_a_certificate() {
    let mut node = make_node();
    deliver(&mut node, nid(2), vote_with(42, 7), true);
    deliver(&mut node, nid(3), vote_with(42, 11), false);
    assert_eq!(node.current_view(), 42);
    let steps = deliver(&mut node, nid(4), vote_with(42, 5), true);
    assert_eq!(steps.len(), 2);
    match &steps[0] {
        TimeoutStep::Adopt { high_qc } => assert_eq!(high_qc.view, 7, "the freshest certificate that was verified"),
        other => panic!("expected a certificate to adopt, got {other:?}"),
    }
    assert!(matches!(steps[1], TimeoutStep::TimeoutCert { view: 42 }));
    assert_eq!(node.current_view(), 43);
    // The bucket, and those of earlier views, are gone.
    assert_eq!(node.timeout_buckets.len(), 0);
}

#[test]
fn a_repeated_vote_counts_once() {
    let mut node = make_node();
    deliver(&mut node, nid(2), vote(42), true);
    let steps = deliver(&mut node, nid(2), vote(42), true);
    assert!(steps.is_empty());
    assert_eq!(node.timeout_buckets.get(42).unwrap().signer_weight, 1);
    assert_eq!(node.current_view(), 0);
}

#[test]
fn strangers_do_not_vote() {
    let mut node = make_node();
    assert!(deliver(&mut node, nid(9), vote(42), true).is_empty());
    assert_eq!(node.timeout_buckets.len(), 0);
}

#[test]
fn one_heavy_vote_can_cross_both_thresholds() {
    let set = ValidatorSet::with_weights(vec![(vid(1), 1), (vid(2), 10), (vid(3), 1), (vid(4), 1)]).unwrap();
    assert_eq!(honesty_weight_threshold(&set), 5);
    assert_eq!(quorum_weight_threshold(&set), 9);
    let mut node = ConsensusNode::new(nid(1), NodeConfigForConsensus::for_testing(set, genesis()));
    let steps = deliver(&mut node, nid(2), vote(42), true);
    assert_eq!(steps.len(), 2);
    assert!(matches!(steps[0], TimeoutStep::RoundSync { view: 42, .. }));
    assert!(matches!(steps[1], TimeoutStep::TimeoutCert { view: 42 }));
    assert_eq!(node.current_view(), 43);
}

#[test]
fn thresholds_of_small_committees() {
    for (n, quorum, honesty) in [(1u8, 1, 1), (4, 3, 2), (7, 5, 3), (10, 7, 4)] {
        let set = ValidatorSet::new((1..=n).map(vid).collect());
        assert_eq!(quorum_size(n as usize), quorum as usize);
        assert_eq!(quorum_weight_threshold(&set), quorum);
        assert_eq!(honesty_weight_threshold(&set), honesty);
    }
}

#[test]
fn a_timeout_vote_is_written_before_it_is_sent_and_then_repeated() {
    let mut storage = MemoryStorage::new();
    let mut node = make_node();
    let first = node.timeout_vote_for(&mut storage, 5).unwrap();
    assert_eq!(first.view, 5);
    assert_eq!(first.high_qc.as_ref().unwrap().view, 0);
    let raw = storage.get(STORAGE_KEY_LAST_TIMEOUT_VOTE.as_bytes()).unwrap().unwrap();
    assert_eq!(decode_timeout_vote(&raw).unwrap(), first);

    // A fresher certificate has come in since. For the same view the same vote is repeated.
    node.state.high_qc = Some(QuorumCertificate::new(4, [0xDE; 32], 4));
    assert_eq!(node.timeout_vote_for(&mut storage, 5).unwrap(), first);
    // A later view gets a vote of its own, which replaces the earlier one.
    let second = node.timeout_vote_for(&mut storage, 6).unwrap();
    assert_eq!(second.high_qc.as_ref().unwrap().view, 4);
    let raw = storage.get(STORAGE_KEY_LAST_TIMEOUT_VOTE.as_bytes()).unwrap().unwrap();
    assert_eq!(decode_timeout_vote(&raw).unwrap(), second);
}

#[test]
fn a_stored_timeout_vote_that_does_not_decode_is_an_error() {
    let mut storage = MemoryStorage::new();
    storage.put(STORAGE_KEY_LAST_TIMEOUT_VOTE.as_bytes(), &[0xFF]);
    let err = make_node().timeout_vote_for(&mut storage, 5).unwrap_err();
    assert_eq!(err, NodeError::Corrupt(Record::TimeoutVote));

    struct Broken;
    impl Storage for Broken {
        fn get(&self, _key: &[u8]) -> Result<Option<Vec<u8>>, StorageError> {
            Ok(None)
        }
        fn batch(&mut self, _writes: &Vec<Write>) -> Result<(), StorageError> {
            Err(StorageError)
        }
    }
    assert_eq!(make_node().timeout_vote_for(&mut Broken, 5), Err(NodeError::Write(Record::TimeoutVote)));
}

#[test]
fn every_pacemaker_action_has_an_effect() {
    let mut node = make_node();
    node.step_pacemaker(Event::OnQc(6));
    let effects: Vec<PacemakerEffect> = [
        Action::BecomeLeader(7),
        Action::SendTimeout(7),
        Action::ResetTimer(250),
    ]
    .into_iter()
    .map(|a| node.pacemaker_effect(a))
    .collect();
    assert_eq!(
        effects,
        vec![
            PacemakerEffect::Propose(7),
            PacemakerEffect::SendTimeout(7),
            PacemakerEffect::ArmTimer { view: 7, after: 250 },
        ],
    );
    let mut fresh = make_node();
    let first = fresh.step_pacemaker(Event::OnQc(6))[0];
    assert_eq!(fresh.pacemaker_effect(first), PacemakerEffect::AdvanceSafety(7));
}

#[test]
fn making_room_drops_the_lowest_view() {
    let mut limits = CacheLimits::unbounded_for_tests();
    limits.timeout_buckets_capacity = 2;
    let mut cfg = test_config();
    cfg.limits = limits;
    let mut node = ConsensusNode::new(nid(1), cfg);
    node.on_timeout_vote(nid(2), vote(7), true);
    node.evict_timeout_buckets_to_fit_one();
    assert_eq!(node.timeout_buckets.len(), 1, "there is room already");
    node.on_timeout_vote(nid(2), vote(5), true);
    node.evict_timeout_buckets_to_fit_one();
    assert_eq!(node.timeout_buckets.len(), 1);
    assert!(node.timeout_buckets.contains_key(7));
    assert_eq!(node.eviction_counters().timeout_buckets, 1);
}
