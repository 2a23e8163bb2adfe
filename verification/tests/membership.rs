use consensus_node::counter::{CounterCommand, CounterStateMachine};
use consensus_node::history_codec::{decode_key_history, decode_validator_history};
use consensus_node::codec::Record;
use consensus_node::key_history::{
    genesis_only_bls_seed, BlsKeyHistory, KeyEntry, KeyHistory, KeyTimeline, RotationError, ValidatorKeyHistory,
};
use consensus_node::node::commit::KeysStored;
use consensus_node::node::config::{NodeConfigForConsensus, MIN_V_EFF_DELAY};
use consensus_node::node::consensus_node::ConsensusNode;
use consensus_node::node::error::NodeError;
use consensus_node::node::membership::{
    has_pending_change, reconfig_step, rotation_step, ReconfigInput, ReconfigOutcome, RotationInput, RotationOutcome,
};
use consensus_node::replication::StateMachine;
use consensus_node::storage::{
    MemoryStorage, Storage, StorageError, Write, STORAGE_KEY_BLS_KEY_HISTORY, STORAGE_KEY_VALIDATOR_HISTORY,
    STORAGE_KEY_VALIDATOR_KEY_HISTORY,
};
use consensus_node::types::{Block, BlockHeader, SignatureSchemeChoice};
use consensus_node::validator_history::ValidatorSetHistory;
use consensus_node::validator_set::{NodeId, ValidatorId, ValidatorSet};

fn nid(b: u8) -> NodeId {
    [b; 32]
}

fn vid(b: u8) -> ValidatorId {
    ValidatorId::from_genesis_pubkey(nid(b))
}

fn validators(n: u8) -> ValidatorSet {
    ValidatorSet::new((1..=n).map(vid).collect())
}

fn genesis() -> Block {
    Block::genesis([0u8; 32], [0; 32], [0x60; 32])
}

fn make_node() -> ConsensusNode {
    ConsensusNode::new(nid(1), NodeConfigForConsensus::for_testing(validators(4), genesis()))
}

fn candidate(members: &[u8], v_eff: u64) -> ReconfigInput {
    ReconfigInput::Candidate { v_eff, members: members.iter().map(|b| (vid(*b), 1)).collect() }
}

fn commit_block(node: &mut ConsensusNode, storage: &mut MemoryStorage, view: u64, command: Vec<u8>) {
    let block = Block {
        header: BlockHeader {
            parent_hash: genesis().hash(),
            height: 1,
            view,
            proposer: nid(1),
            state_commitment: [0u8; 32],
            commands_commitment: [0u8; 32],
            validator_history_commitment: [0; 32],
        },
        commands: vec![command],
        hash: [0x61; 32],
    };
    let mut sm = CounterStateMachine::new();
    node.apply_commit(&mut sm, storage, &block).recorded.unwrap();
}

/// Commits a block at `view` and applies the committee changes it carries.
fn commit(
    node: &mut ConsensusNode,
    storage: &mut MemoryStorage,
    view: u64,
    inputs: Vec<ReconfigInput>,
) -> Vec<ReconfigOutcome> {
    commit_block(node, storage, view, vec![0xEE]);
    let (outcomes, stored) = node.apply_committed_reconfigs(storage, view, &inputs);
    stored.unwrap();
    outcomes
}

#[test]
fn apply_commit_with_valid_reconfig_inserts_boundary_into_history() {
    let mut node = make_node();
    let mut storage = MemoryStorage::new();
    assert_eq!(node.validator_history.boundary_count(), 1);
    assert_eq!(node.state.validator_history.boundary_count(), 1);
    assert!(node.validator_history.current_set().same_as(&validators(4)));

    let v_eff = MIN_V_EFF_DELAY + 3;
    let outcomes = commit(&mut node, &mut storage, 0, vec![candidate(&[1, 2, 3, 4, 5], v_eff)]);
    assert_eq!(outcomes, vec![ReconfigOutcome::Applied { v_eff }]);

    // Both histories carry the new boundary.
    assert_eq!(node.validator_history.boundary_count(), 2);
    assert_eq!(node.state.validator_history.boundary_count(), 2);
    assert!(node.validator_history.set_at(v_eff).same_as(&validators(5)));
    assert!(node.state.validator_history.set_at(v_eff).same_as(&validators(5)));
    assert!(node.validator_history.set_at(v_eff - 1).same_as(&validators(4)));

    // Leaders at and after v_eff come from the new set.
    let leader_at_v_eff = node.pacemaker.leader_for_view(v_eff);
    assert!(
        validators(5).contains(&ValidatorId::from_genesis_pubkey(leader_at_v_eff)),
        "leader at v_eff must come from post-boundary set",
    );
}

#[test]
fn apply_commit_with_floor_violating_reconfig_drops_silently() {
    let mut node = make_node();
    let mut storage = MemoryStorage::new();
    let v_eff = MIN_V_EFF_DELAY + 5;
    let outcomes = commit(&mut node, &mut storage, 0, vec![candidate(&[1, 2], v_eff)]);
    assert_eq!(outcomes, vec![ReconfigOutcome::TooSmall]);
    assert_eq!(node.validator_history.boundary_count(), 1);
    assert_eq!(node.state.validator_history.boundary_count(), 1);
    assert_eq!(node.last_committed_height, 1, "the block itself stays committed");
}

#[test]
fn apply_commit_with_v_eff_below_min_delay_drops_silently() {
    let mut node = make_node();
    let mut storage = MemoryStorage::new();
    let outcomes = commit(&mut node, &mut storage, 5, vec![candidate(&[1, 2, 3, 4, 5], 5)]);
    assert_eq!(outcomes, vec![ReconfigOutcome::TooSoon]);
    assert_eq!(node.validator_history.boundary_count(), 1);

    // One view below the bound is too soon, the bound itself is not.
    let outcomes = commit(
        &mut node,
        &mut storage,
        5,
        vec![candidate(&[1, 2, 3, 4, 5], 5 + MIN_V_EFF_DELAY - 1), candidate(&[1, 2, 3, 4, 5], 5 + MIN_V_EFF_DELAY)],
    );
    assert_eq!(outcomes, vec![ReconfigOutcome::TooSoon, ReconfigOutcome::Applied { v_eff: 5 + MIN_V_EFF_DELAY }]);
}

#[test]
fn apply_commit_with_two_reconfigs_in_one_block_keeps_only_first() {
    let mut node = make_node();
    let mut storage = MemoryStorage::new();
    let v_eff_a = MIN_V_EFF_DELAY + 3;
    let v_eff_b = v_eff_a + 5;
    let outcomes = commit(
        &mut node,
        &mut storage,
        0,
        vec![candidate(&[1, 2, 3, 4, 5], v_eff_a), candidate(&[1, 2, 3, 4, 6], v_eff_b)],
    );
    assert_eq!(outcomes, vec![ReconfigOutcome::Applied { v_eff: v_eff_a }, ReconfigOutcome::Conflict]);

    assert_eq!(node.validator_history.boundary_count(), 2);
    assert!(node.validator_history.set_at(v_eff_a).same_as(&validators(5)));
    assert!(node.validator_history.set_at(v_eff_b).same_as(&validators(5)));
    assert!(!node.validator_history.set_at(v_eff_b).same_as(&validators(6)));
}

#[test]
fn apply_commit_with_malformed_reconfig_payload_logs_and_drops() {
    let mut node = make_node();
    let mut storage = MemoryStorage::new();
    commit_block(&mut node, &mut storage, 0, b"RECFG\0deliberately-truncated-body".to_vec());
    let (outcomes, stored) = node.apply_committed_reconfigs(&mut storage, 0, &vec![ReconfigInput::Malformed]);
    assert_eq!(outcomes, vec![ReconfigOutcome::Malformed]);
    assert_eq!(stored, Ok(()));
    assert_eq!(node.validator_history.boundary_count(), 1);
    // Nothing changed, so nothing was written.
    assert_eq!(storage.get(STORAGE_KEY_VALIDATOR_HISTORY.as_bytes()).unwrap(), None);
}

#[test]
fn a_committed_command_reaches_the_state_machine() {
    let mut node = make_node();
    let mut storage = MemoryStorage::new();
    let mut sm = CounterStateMachine::new();
    let before = sm.state_commitment();
    let mut block = genesis();
    block.header.height = 1;
    block.header.view = 1;
    block.hash = [0x61; 32];
    block.commands = vec![CounterCommand::Increment.encode(), vec![9, 9]];
    let committed = node.apply_commit(&mut sm, &mut storage, &block);
    assert_ne!(before, sm.state_commitment(), "state machine must advance on commit");
    assert_eq!(sm.value(), 1);
    assert_eq!(committed.rejected, 1);
}

#[test]
fn every_kind_of_unfit_change_is_told_apart() {
    let mut h = ValidatorSetHistory::from_genesis(validators(4));
    let step = |h: &mut ValidatorSetHistory, input: ReconfigInput| reconfig_step(h, 10, 2, &input).0;

    assert_eq!(step(&mut h, ReconfigInput::Other), ReconfigOutcome::Other);
    assert_eq!(step(&mut h, ReconfigInput::Malformed), ReconfigOutcome::Malformed);
    assert_eq!(step(&mut h, ReconfigInput::Refused), ReconfigOutcome::Refused);
    assert_eq!(step(&mut h, candidate(&[1, 2, 3, 4, 5], 11)), ReconfigOutcome::TooSoon);
    assert_eq!(step(&mut h, candidate(&[1, 2, 3], 12)), ReconfigOutcome::TooSmall);
    assert_eq!(step(&mut h, candidate(&[1, 2, 3, 3], 12)), ReconfigOutcome::BadCommittee);
    let zero = ReconfigInput::Candidate { v_eff: 12, members: vec![(vid(1), 1), (vid(2), 0), (vid(3), 1), (vid(4), 1)] };
    assert_eq!(step(&mut h, zero), ReconfigOutcome::BadCommittee);
    assert_eq!(h.boundary_count(), 1);
    assert!(!has_pending_change(&h, 10));

    assert_eq!(step(&mut h, candidate(&[1, 2, 3, 4, 5], 12)), ReconfigOutcome::Applied { v_eff: 12 });
    assert!(has_pending_change(&h, 10));
    assert!(!has_pending_change(&h, 12));
    assert_eq!(step(&mut h, candidate(&[1, 2, 3, 4, 6], 13)), ReconfigOutcome::Conflict);
    assert_eq!(h.boundary_count(), 2);
}

#[test]
fn weights_of_a_candidate_are_kept() {
    let mut h = ValidatorSetHistory::from_genesis(validators(4));
    let input = ReconfigInput::Candidate { v_eff: 5, members: vec![(vid(4), 7), (vid(1), 1), (vid(2), 2), (vid(3), 3)] };
    let (outcome, set) = reconfig_step(&mut h, 0, 2, &input);
    assert_eq!(outcome, ReconfigOutcome::Applied { v_eff: 5 });
    assert_eq!(set.unwrap().weights(), vec![1, 2, 3, 7]);
    assert_eq!(h.set_at(5).weight_for(&vid(4)), Some(7));
    assert_eq!(h.set_at(4).weight_for(&vid(4)), Some(1));
}

fn rotation(validator: u8, new_key: u8, v_eff: u64, attested_under: &[u8]) -> RotationInput {
    RotationInput::Signed {
        validator: nid(validator),
        new_key: nid(new_key),
        v_eff,
        new_bls_key: None,
        attested_under: attested_under.iter().map(|b| nid(*b)).collect(),
        scheme_consistent: true,
    }
}

fn bls_rotation(validator: u8, new_key: u8, v_eff: u64, bls: u8) -> RotationInput {
    RotationInput::Signed {
        validator: nid(validator),
        new_key: nid(new_key),
        v_eff,
        new_bls_key: Some([bls; 48]),
        attested_under: vec![nid(validator)],
        scheme_consistent: true,
    }
}

fn bls_history(n: u8) -> BlsKeyHistory {
    let timelines = (1..=n)
        .map(|b| KeyTimeline { stable_id: vid(b), entries: vec![KeyEntry { v_eff: 0, key: [b + 100; 48] }] })
        .collect();
    KeyHistory::from_timelines(timelines).unwrap()
}

#[test]
fn a_rotation_takes_effect_at_its_view_and_not_before() {
    let mut node = make_node();
    let mut storage = MemoryStorage::new();
    let (outcomes, stored) = node.apply_committed_rotations(&mut storage, 3, &vec![rotation(2, 22, 9, &[2])]);
    assert_eq!(outcomes, vec![RotationOutcome::Applied { v_eff: 9 }]);
    assert!(stored.signing);
    assert_eq!(node.validator_key_history.key_at(&vid(2), 8), Some(nid(2)));
    assert_eq!(node.validator_key_history.key_at(&vid(2), 9), Some(nid(22)));
    // Both the old and the new key lead to the same validator.
    assert_eq!(node.validator_key_history.validator_for(&nid(2)), Some(vid(2)));
    assert_eq!(node.validator_key_history.validator_for(&nid(22)), Some(vid(2)));
    assert_eq!(node.validator_behind(nid(22)), vid(2));
    assert_eq!(node.validator_behind(nid(77)), vid(77));

    let raw = storage.get(STORAGE_KEY_VALIDATOR_KEY_HISTORY.as_bytes()).unwrap().unwrap();
    let read: ValidatorKeyHistory = decode_key_history(&raw, Record::ValidatorKeyHistory).unwrap();
    assert!(read.same_as(&node.validator_key_history));
}

#[test]
fn every_kind_of_unfit_rotation_is_told_apart() {
    let mut keys = ValidatorKeyHistory::new(&validators(4));
    let mut bls = None;
    let mut step = |input: RotationInput| {
        rotation_step(&mut keys, &mut bls, SignatureSchemeChoice::Ed25519Collected, 10, &input)
    };

    assert_eq!(step(RotationInput::Other), RotationOutcome::Other);
    assert_eq!(step(RotationInput::Malformed), RotationOutcome::Malformed);
    assert_eq!(step(rotation(9, 22, 20, &[9])), RotationOutcome::UnknownValidator);
    assert_eq!(step(rotation(2, 22, 20, &[])), RotationOutcome::Unattested);
    assert_eq!(step(rotation(2, 22, 20, &[3])), RotationOutcome::Unattested);
    assert_eq!(step(rotation(2, 22, 10, &[2])), RotationOutcome::Refused(RotationError::NotAfterBlock));
    assert_eq!(step(rotation(2, 3, 20, &[2])), RotationOutcome::Refused(RotationError::KeyOfAnother));
    assert_eq!(step(rotation(2, 22, 20, &[2])), RotationOutcome::Applied { v_eff: 20 });
    // The current key is 22 now, and the next rotation must come later.
    assert_eq!(step(rotation(2, 23, 30, &[2])), RotationOutcome::Unattested);
    assert_eq!(step(rotation(2, 23, 20, &[22])), RotationOutcome::Refused(RotationError::NotAfterLast));
    assert_eq!(step(rotation(22, 23, 30, &[22])), RotationOutcome::Applied { v_eff: 30 });

    let inconsistent = RotationInput::Signed {
        validator: nid(1),
        new_key: nid(11),
        v_eff: 20,
        new_bls_key: Some([7; 48]),
        attested_under: vec![nid(1)],
        scheme_consistent: false,
    };
    assert_eq!(step(inconsistent), RotationOutcome::SchemeMismatch);
    assert_eq!(keys.key_at(&vid(1), 100), Some(nid(1)));
    assert_eq!(keys.key_at(&vid(2), 25), Some(nid(22)));
    assert_eq!(keys.key_at(&vid(2), 30), Some(nid(23)));
}

#[test]
fn a_bls_rotation_moves_both_keys() {
    let mut node = make_node().with_bls_key_history(bls_history(4));
    node.signature_scheme = SignatureSchemeChoice::BlsAggregated;
    let mut storage = MemoryStorage::new();
    let (outcomes, stored) = node.apply_committed_rotations(&mut storage, 3, &vec![bls_rotation(2, 22, 9, 55)]);
    assert_eq!(outcomes, vec![RotationOutcome::Applied { v_eff: 9 }]);
    assert_eq!(stored, KeysStored { signing: true, bls: true });
    let bls = node.bls_key_history.as_ref().unwrap();
    assert_eq!(bls.key_at(&vid(2), 8), Some([102; 48]));
    assert_eq!(bls.key_at(&vid(2), 9), Some([55; 48]));

    let raw = storage.get(STORAGE_KEY_BLS_KEY_HISTORY.as_bytes()).unwrap().unwrap();
    let read: BlsKeyHistory = decode_key_history(&raw, Record::BlsKeyHistory).unwrap();
    assert!(read.same_as(bls));

    // Only what was known at the start is left of a seed.
    let seed = genesis_only_bls_seed(bls);
    assert!(seed.same_as(&bls_history(4)));
}

#[test]
fn a_bls_key_of_another_validator_is_left_behind() {
    let mut keys = ValidatorKeyHistory::new(&validators(4));
    let mut bls = Some(bls_history(4));
    let outcome = rotation_step(
        &mut keys,
        &mut bls,
        SignatureSchemeChoice::BlsAggregated,
        3,
        &bls_rotation(2, 22, 9, 103),
    );
    assert_eq!(outcome, RotationOutcome::BlsLeftBehind { v_eff: 9, why: RotationError::KeyOfAnother });
    assert_eq!(keys.key_at(&vid(2), 9), Some(nid(22)));
    assert!(bls.unwrap().same_as(&bls_history(4)));
}

/// A store that refuses every write.
struct ReadOnly;

impl Storage for ReadOnly {
    fn get(&self, _key: &[u8]) -> Result<Option<Vec<u8>>, StorageError> {
        Ok(None)
    }

    fn batch(&mut self, _writes: &Vec<Write>) -> Result<(), StorageError> {
        Err(StorageError)
    }
}

#[test]
fn a_change_that_cannot_be_written_is_reported() {
    let mut node = make_node();
    let (outcomes, stored) = node.apply_committed_reconfigs(&mut ReadOnly, 0, &vec![candidate(&[1, 2, 3, 4, 5], 9)]);
    assert_eq!(outcomes, vec![ReconfigOutcome::Applied { v_eff: 9 }]);
    assert_eq!(stored, Err(NodeError::Write(Record::ValidatorHistory)));

    let (outcomes, stored) = node.apply_committed_rotations(&mut ReadOnly, 0, &vec![rotation(2, 22, 9, &[2])]);
    assert_eq!(outcomes, vec![RotationOutcome::Applied { v_eff: 9 }]);
    assert!(!stored.signing);
    assert_eq!(node.validator_key_history.current_key(&nid(2)), Some(nid(22)));
}

#[test]
fn a_stored_committee_history_reads_back() {
    let mut node = make_node();
    let mut storage = MemoryStorage::new();
    commit(&mut node, &mut storage, 0, vec![candidate(&[1, 2, 3, 4, 5], 9)]);
    let raw = storage.get(STORAGE_KEY_VALIDATOR_HISTORY.as_bytes()).unwrap().unwrap();
    assert!(decode_validator_history(&raw).unwrap().same_as(&node.validator_history));
}
