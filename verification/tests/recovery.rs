use consensus_node::codec::{
    decode_high_qc, decode_last_committed, decode_proposed_in_view, decode_voted_view, encode_block, Record,
};
use consensus_node::counter::{CounterCommand, CounterStateMachine};
use consensus_node::digests::Fingerprints;
use consensus_node::node::commit::Committed;
use consensus_node::node::config::{NodeConfigForConsensus, MIN_V_EFF_DELAY};
use consensus_node::node::consensus_node::ConsensusNode;
use consensus_node::node::error::NodeError;
use consensus_node::node::membership::{ReconfigInput, ReconfigOutcome};
use consensus_node::node::persist::{update_kind, StateUpdate};
use consensus_node::node::recovery::{load_block_from_storage, recover_state};
use consensus_node::replication::StateMachine;
use consensus_node::storage::{
    block_storage_key, MemoryStorage, Storage, StorageError, Write, STORAGE_KEY_HIGH_QC, STORAGE_KEY_LAST_COMMITTED,
    STORAGE_KEY_LAST_VOTED_VIEW, STORAGE_KEY_PROPOSED_IN_VIEW, STORAGE_KEY_VALIDATOR_HISTORY,
};
use consensus_node::types::{
    genesis_qc, genesis_qc_bls, Block, BlockDraft, BlockHash, BlockHeader, Locked, QuorumCertificate,
    SignatureSchemeChoice,
};
use consensus_node::validator_set::{NodeId, ValidatorId, ValidatorSet};

fn nid(b: u8) -> NodeId {
    [b; 32]
}

fn vid(b: u8) -> ValidatorId {
    ValidatorId::from_genesis_pubkey(nid(b))
}

fn four_validators() -> ValidatorSet {
    ValidatorSet::new(vec![vid(1), vid(2), vid(3), vid(4)])
}

fn five_validators() -> ValidatorSet {
    ValidatorSet::new(vec![vid(1), vid(2), vid(3), vid(4), vid(5)])
}

fn genesis() -> Block {
    Block::genesis([0u8; 32], [0; 32], [0x60; 32])
}

fn test_config() -> NodeConfigForConsensus {
    NodeConfigForConsensus::for_testing(four_validators(), genesis())
}

fn make_node(self_id: NodeId) -> ConsensusNode {
    ConsensusNode::new(self_id, test_config())
}

fn recover(self_id: NodeId, storage: &MemoryStorage) -> ConsensusNode {
    ConsensusNode::recover(self_id, test_config(), storage, &Fingerprints).unwrap()
}

fn block(parent_hash: BlockHash, height: u64, view: u64, proposer: NodeId) -> Block {
    BlockDraft {
        header: BlockHeader {
            parent_hash,
            height,
            view,
            proposer,
            state_commitment: [0u8; 32],
            commands_commitment: [0u8; 32],
            validator_history_commitment: [0; 32],
        },
        commands: vec![],
    }
    .sealed_by(&Fingerprints)
}

fn sample_block() -> Block {
    block(genesis().hash(), 1, 1, nid(1))
}

fn draft_of(b: Block) -> BlockDraft {
    BlockDraft { header: b.header, commands: b.commands }
}

fn sample_locked() -> Locked {
    Locked { view: 40, height: 5, block_hash: [0xABu8; 32] }
}

fn sample_full_qc() -> QuorumCertificate {
    let mut qc = QuorumCertificate::new(41, [0xCDu8; 32], 4);
    qc.add_signature(0, [0x11u8; 64]);
    qc.add_signature(2, [0x22u8; 64]);
    qc.add_signature(3, [0x33u8; 64]);
    qc
}

fn get(storage: &MemoryStorage, key: &str) -> Option<Vec<u8>> {
    storage.get(key.as_bytes()).unwrap()
}

/// A store that refuses every write.
struct ReadOnly;

impl Storage for ReadOnly {
    fn get(&self, _key: &[u8]) -> Result<Option<Vec<u8>>, StorageError> {
        Ok(None)
    }

    fn batch(&mut self, _writes: &Vec<Write>) -> Result<(), StorageError> {
        Err(StorageError)
    }
}

/// A store that refuses every read.
struct WriteOnly;

impl Storage for WriteOnly {
    fn get(&self, _key: &[u8]) -> Result<Option<Vec<u8>>, StorageError> {
        Err(StorageError)
    }

    fn batch(&mut self, _writes: &Vec<Write>) -> Result<(), StorageError> {
        Ok(())
    }
}

#[test]
fn new_initializes_at_view_zero() {
    let node = make_node(nid(1));
    assert_eq!(node.current_view(), 0);
    assert_eq!(node.state.current_view, 0);
    assert_eq!(node.pacemaker.current_view(), 0);
}

#[test]
fn self_id_is_stored_correctly() {
    let node = make_node(nid(3));
    assert_eq!(node.self_id, nid(3));
    assert_eq!(node.pacemaker.self_id(), nid(3));
}

#[test]
fn genesis_is_in_pending_blocks() {
    let node = make_node(nid(1));
    assert!(
        node.state.pending_blocks.contains_key(&genesis().hash()),
        "genesis block must be pre-seeded into pending_blocks",
    );
}

#[test]
fn a_new_node_starts_from_the_genesis_certificate() {
    let node = make_node(nid(1));
    let expected = genesis_qc(&genesis(), four_validators().len());
    assert_eq!(node.state.high_qc.as_ref(), Some(&expected));
    let mut config = test_config();
    config.signature_scheme = SignatureSchemeChoice::BlsAggregated;
    let bls = ConsensusNode::new(nid(1), config);
    assert_eq!(bls.state.high_qc.as_ref(), Some(&genesis_qc_bls(&genesis(), 4)));
    let replaced = bls.with_genesis_qc(sample_full_qc());
    assert_eq!(replaced.state.high_qc.as_ref(), Some(&sample_full_qc()));
}

#[test]
fn insert_pending_block_is_visible_in_state() {
    let mut node = make_node(nid(1));
    let block = sample_block();
    let hash = block.hash();
    node.state.insert_pending(block);
    assert!(node.state.pending_blocks.contains_key(&hash));
}

#[test]
fn recover_state_from_empty_storage_seeds_genesis_qc() {
    let storage = MemoryStorage::new();
    let state = recover_state(&storage, &Fingerprints, four_validators(), genesis()).unwrap();
    assert_eq!(state.current_view, 0);
    assert_eq!(state.last_voted_view, 0);
    assert!(state.locked.is_none());
    let expected = genesis_qc(&genesis(), four_validators().len());
    assert_eq!(state.high_qc.as_ref(), Some(&expected));
    assert!(state.pending_blocks.contains_key(&genesis().hash()));
}

#[test]
fn persist_updates_empty_is_noop() {
    let mut node = make_node(nid(1));
    let mut storage = MemoryStorage::new();
    node.persist_updates(&mut storage, &vec![]).unwrap();
    assert!(get(&storage, STORAGE_KEY_LAST_VOTED_VIEW).is_none());
    // not even a store that refuses everything is asked
    node.persist_updates(&mut ReadOnly, &vec![]).unwrap();
}

#[test]
fn persist_then_recover_preserves_voted_view() {
    let mut storage = MemoryStorage::new();
    let mut node = make_node(nid(1));
    node.persist_updates(&mut storage, &vec![StateUpdate::VotedInView { view: 99 }]).unwrap();
    drop(node);
    let recovered = recover(nid(1), &storage);
    assert_eq!(recovered.state.last_voted_view, 99);
}

#[test]
fn persist_then_recover_preserves_locked_and_high_qc() {
    let mut storage = MemoryStorage::new();
    let locked = sample_locked();
    let qc = sample_full_qc();
    let mut node = make_node(nid(1));
    node.persist_updates(&mut storage, &vec![StateUpdate::Locked(locked), StateUpdate::HighQc(qc.clone())]).unwrap();
    drop(node);
    let recovered = recover(nid(1), &storage);
    assert_eq!(recovered.state.locked, Some(locked));
    assert_eq!(recovered.state.high_qc.as_ref(), Some(&qc));
}

#[test]
fn persist_all_three_fields_and_recover() {
    let mut storage = MemoryStorage::new();
    let mut node = make_node(nid(2));
    let updates = vec![
        StateUpdate::VotedInView { view: 7 },
        StateUpdate::Locked(sample_locked()),
        StateUpdate::HighQc(sample_full_qc()),
    ];
    node.persist_updates(&mut storage, &updates).unwrap();
    drop(node);
    let recovered = recover(nid(2), &storage);
    assert_eq!(recovered.state.last_voted_view, 7);
    assert_eq!(recovered.state.locked, Some(sample_locked()));
    assert_eq!(recovered.state.high_qc.as_ref(), Some(&sample_full_qc()));
    // `recover` does not reset the pacemaker: it always starts at 0.
    assert_eq!(recovered.current_view(), 0);
}

#[test]
fn persist_then_recover_preserves_proposed_in_view() {
    let mut storage = MemoryStorage::new();
    let mut node = make_node(nid(1));
    node.persist_updates(&mut storage, &vec![StateUpdate::ProposedInView { view: 12 }]).unwrap();
    let raw = get(&storage, STORAGE_KEY_PROPOSED_IN_VIEW)
        .expect("ProposedInView must be persisted under STORAGE_KEY_PROPOSED_IN_VIEW");
    assert_eq!(decode_proposed_in_view(&raw).unwrap(), 12);
    drop(node);
    let recovered = recover(nid(1), &storage);
    assert_eq!(recovered.proposed_in_view, 12);
}

#[test]
fn recover_with_no_persisted_proposed_in_view_defaults_to_zero() {
    let storage = MemoryStorage::new();
    let recovered = recover(nid(1), &storage);
    assert_eq!(recovered.proposed_in_view, 0);
}

#[test]
fn persist_writes_locked_and_high_qc_blocks_recover_seeds_pending() {
    let mut storage = MemoryStorage::new();
    let g = genesis();
    let b_locked = block(g.hash(), 1, 18, nid(1));
    let b_high_qc = block(b_locked.hash(), 2, 19, nid(2));
    let locked = Locked { view: 18, height: 1, block_hash: b_locked.hash() };
    let mut qc = QuorumCertificate::new(19, b_high_qc.hash(), 4);
    qc.add_signature(0, [0x11u8; 64]);
    qc.add_signature(1, [0x22u8; 64]);
    qc.add_signature(2, [0x33u8; 64]);
    {
        let mut node = make_node(nid(1));
        node.state.insert_pending(b_locked.clone());
        node.state.insert_pending(b_high_qc.clone());
        node.persist_updates(&mut storage, &vec![StateUpdate::Locked(locked), StateUpdate::HighQc(qc.clone())])
            .unwrap();
        assert_eq!(load_block_from_storage(&storage, &Fingerprints, &b_locked.hash()).unwrap(), Some(b_locked.clone()));
        assert_eq!(load_block_from_storage(&storage, &Fingerprints, &b_high_qc.hash()).unwrap(), Some(b_high_qc.clone()));
    }
    let recovered = recover(nid(1), &storage);
    assert_eq!(recovered.state.locked, Some(locked));
    assert_eq!(recovered.state.high_qc.as_ref(), Some(&qc));
    assert!(recovered.state.pending_blocks.contains_key(&b_locked.hash()));
    assert!(recovered.state.pending_blocks.contains_key(&b_high_qc.hash()));
    assert!(recovered.state.pending_blocks.contains_key(&qc.block_hash));
    assert_eq!(recovered.state.pending_blocks.len(), 3);
}

#[test]
fn persist_skips_block_write_when_referenced_block_absent() {
    let mut storage = MemoryStorage::new();
    let mut node = make_node(nid(1));
    let qc = sample_full_qc();
    node.persist_updates(&mut storage, &vec![StateUpdate::HighQc(qc.clone())]).unwrap();
    let raw = get(&storage, STORAGE_KEY_HIGH_QC).unwrap();
    assert_eq!(decode_high_qc(&raw).unwrap(), qc);
    assert!(load_block_from_storage(&storage, &Fingerprints, &qc.block_hash).unwrap().is_none());
}

#[test]
fn persist_is_last_write_wins_within_batch() {
    let mut node = make_node(nid(1));
    let mut storage = MemoryStorage::new();
    node.persist_updates(
        &mut storage,
        &vec![
            StateUpdate::VotedInView { view: 3 },
            StateUpdate::VotedInView { view: 5 },
            StateUpdate::VotedInView { view: 4 },
        ],
    )
    .unwrap();
    let raw = get(&storage, STORAGE_KEY_LAST_VOTED_VIEW).unwrap();
    assert_eq!(decode_voted_view(&raw).unwrap(), 4);
}

#[test]
fn persist_monotonic_overwrites_previous() {
    let mut node = make_node(nid(1));
    let mut storage = MemoryStorage::new();
    node.persist_updates(&mut storage, &vec![StateUpdate::VotedInView { view: 1 }]).unwrap();
    node.persist_updates(&mut storage, &vec![StateUpdate::VotedInView { view: 2 }]).unwrap();
    let raw = get(&storage, STORAGE_KEY_LAST_VOTED_VIEW).unwrap();
    assert_eq!(decode_voted_view(&raw).unwrap(), 2);
}

#[test]
fn a_refused_batch_leaves_the_node_as_it_was() {
    let mut node = make_node(nid(1));
    let r = node.persist_updates(&mut ReadOnly, &vec![StateUpdate::HighQc(sample_full_qc())]);
    assert_eq!(r, Err(NodeError::Write(Record::SafetyUpdates)));
    assert_eq!(node.recent_qcs.len(), 0);
    let mut storage = MemoryStorage::new();
    node.persist_updates(&mut storage, &vec![StateUpdate::HighQc(sample_full_qc())]).unwrap();
    assert_eq!(node.recent_qcs.get(&[0xCD; 32]), Some(&sample_full_qc()));
}

#[test]
fn the_certificate_cache_holds_the_latest_thirty_two() {
    let mut node = make_node(nid(1));
    let mut storage = MemoryStorage::new();
    for i in 0..40u8 {
        node.persist_updates(
            &mut storage,
            &vec![StateUpdate::HighQc(QuorumCertificate::new(i as u64, [i; 32], 4))],
        )
        .unwrap();
    }
    assert_eq!(node.recent_qcs.len(), 32);
    assert!(node.recent_qcs.get(&[7; 32]).is_none());
    assert_eq!(node.recent_qcs.get(&[8; 32]).unwrap().view, 8);
    assert_eq!(node.recent_qcs.get(&[39; 32]).unwrap().view, 39);
}

#[test]
fn recover_surfaces_error_on_corrupted_stored_bytes() {
    let mut storage = MemoryStorage::new();
    storage.put(STORAGE_KEY_LAST_VOTED_VIEW.as_bytes(), &[0xFFu8; 64]);
    let err = match recover_state(&storage, &Fingerprints, four_validators(), genesis()) {
        Ok(_) => panic!("corrupted bytes must be refused"),
        Err(e) => e,
    };
    assert!(
        err.message().contains("last_voted_view"),
        "error should mention the failing key: {}",
        err.message(),
    );
    assert_eq!(err, NodeError::Corrupt(Record::LastVotedView));
    assert_eq!(err.message(), "decode last_voted_view");
}

#[test]
fn recover_only_locked_preserves_default_voted_view_and_seeds_genesis_qc() {
    let mut storage = MemoryStorage::new();
    let mut node = make_node(nid(1));
    node.persist_updates(&mut storage, &vec![StateUpdate::Locked(sample_locked())]).unwrap();
    drop(node);
    let recovered = recover(nid(1), &storage);
    assert_eq!(recovered.state.last_voted_view, 0);
    assert_eq!(recovered.state.locked, Some(sample_locked()));
    let expected = genesis_qc(&genesis(), four_validators().len());
    assert_eq!(recovered.state.high_qc.as_ref(), Some(&expected));
}

#[test]
fn a_store_that_cannot_be_read_is_an_error() {
    let r = ConsensusNode::recover(nid(1), test_config(), &WriteOnly, &Fingerprints);
    assert!(matches!(r, Err(NodeError::Read(Record::LastVotedView))));
    assert_eq!(NodeError::Read(Record::Locked).message(), "read from storage: locked");
    assert_eq!(NodeError::Write(Record::TimeoutVote).message(), "write to storage: last_timeout_vote");
    assert_eq!(
        NodeError::BoundaryRefused { v_eff: 1042 }.message(),
        "replay validator boundary at v_eff = 1042"
    );
    assert_eq!(NodeError::BoundaryRefused { v_eff: 0 }.message(), "replay validator boundary at v_eff = 0");
}

#[test]
fn a_history_that_cannot_be_read_is_an_error() {
    let mut storage = MemoryStorage::new();
    storage.put(STORAGE_KEY_VALIDATOR_HISTORY.as_bytes(), &[0xFF; 12]);
    let r = ConsensusNode::recover(nid(1), test_config(), &storage, &Fingerprints);
    assert!(matches!(r, Err(NodeError::Corrupt(Record::ValidatorHistory))));
    // a committee without members is refused as well: nobody could lead
    storage.put(STORAGE_KEY_VALIDATOR_HISTORY.as_bytes(), &[1, 0, 0]);
    let r = ConsensusNode::recover(nid(1), test_config(), &storage, &Fingerprints);
    assert!(matches!(r, Err(NodeError::Corrupt(Record::ValidatorHistory))));
}

#[test]
fn recovered_node_replays_persisted_validator_history() {
    let mut storage = MemoryStorage::new();
    let mut node = make_node(nid(1));
    let v_eff = MIN_V_EFF_DELAY + 5;
    let candidate = ReconfigInput::Candidate {
        v_eff,
        members: vec![(vid(1), 1), (vid(2), 1), (vid(3), 1), (vid(4), 1), (vid(5), 1)],
    };
    let (outcomes, stored) = node.apply_committed_reconfigs(&mut storage, 0, &vec![candidate]);
    assert_eq!(outcomes, vec![ReconfigOutcome::Applied { v_eff }]);
    assert!(stored.is_ok());
    assert_eq!(node.validator_history.boundary_count(), 2);
    drop(node);

    let recovered = recover(nid(1), &storage);
    assert_eq!(recovered.validator_history.boundary_count(), 2);
    assert_eq!(recovered.state.validator_history.boundary_count(), 2);
    assert!(recovered.validator_history.set_at(v_eff).same_as(&five_validators()));
    assert!(recovered.state.validator_history.set_at(v_eff).same_as(&five_validators()));
    let leader = ValidatorId::from_genesis_pubkey(recovered.pacemaker.leader_for_view(v_eff));
    assert!(five_validators().contains(&leader));
    // the new validator's key is known from the committees
    assert_eq!(recovered.validator_key_history.validator_for(&nid(5)), Some(vid(5)));
}

#[test]
fn recovered_node_with_no_persisted_history_uses_genesis_only() {
    let storage = MemoryStorage::new();
    let recovered = recover(nid(1), &storage);
    assert_eq!(recovered.validator_history.boundary_count(), 1);
    assert!(recovered.validator_history.current_set().same_as(&four_validators()));
}

#[test]
fn apply_commit_persists_block_and_last_committed_to_storage() {
    let mut storage = MemoryStorage::new();
    let mut node = make_node(nid(1));
    let block = sample_block();
    let hash = block.hash();
    let done = node.apply_commit(&mut CounterStateMachine::new(), &mut storage, &block);
    assert_eq!(done, Committed { rejected: 0, snapshot_due: false, recorded: Ok(()) });
    let loaded = load_block_from_storage(&storage, &Fingerprints, &hash)
        .expect("storage lookup must not error")
        .expect("committed block must be persisted");
    assert_eq!(loaded, block);
    let raw = get(&storage, STORAGE_KEY_LAST_COMMITTED).expect("last_committed must be present");
    let lc = decode_last_committed(&raw).expect("decode");
    assert_eq!(lc.height, block.header.height);
    assert_eq!(lc.view, block.header.view);
    assert_eq!(lc.last_committed_hash, hash);
}

#[test]
fn recover_restores_last_committed_height_and_view() {
    let mut storage = MemoryStorage::new();
    {
        let mut node = make_node(nid(1));
        let mut sm = CounterStateMachine::new();
        for h in 1..=42u64 {
            let parent_hash = if h == 1 { genesis().hash() } else { [0u8; 32] };
            let b = block(parent_hash, h, if h == 42 { 57 } else { h }, nid(1));
            node.apply_commit(&mut sm, &mut storage, &b).recorded.unwrap();
        }
        assert_eq!(node.last_committed_height, 42);
        assert_eq!(node.last_committed_view, 57);
    }
    let recovered = recover(nid(1), &storage);
    assert_eq!(recovered.last_committed_height, 42);
    assert_eq!(recovered.last_committed_view, 57);
}

#[test]
fn a_commit_runs_the_commands_and_counts_the_rejected_ones() {
    let mut node = make_node(nid(1));
    let mut storage = MemoryStorage::new();
    let mut sm = CounterStateMachine::new();
    let mut b = sample_block();
    b.commands = vec![vec![1], vec![0], vec![0], vec![9, 9], vec![1]];
    let before = sm.state_commitment();
    let done = node.apply_commit(&mut sm, &mut storage, &b);
    assert_ne!(before, sm.state_commitment(), "state machine must advance on commit");
    assert_eq!(sm.value(), 1);
    assert_eq!(done.rejected, 2);
}

#[test]
fn a_commit_that_cannot_be_recorded_stands_all_the_same() {
    let mut node = make_node(nid(1));
    let mut sm = CounterStateMachine::new();
    let mut b = sample_block();
    b.commands = vec![vec![0]];
    let done = node.apply_commit(&mut sm, &mut ReadOnly, &b);
    assert_eq!(
        done,
        Committed { rejected: 0, snapshot_due: false, recorded: Err(NodeError::Write(Record::LastCommitted)) },
    );
    assert_eq!((sm.value(), node.last_committed_height, node.last_committed_view), (1, 1, 1));
}

#[test]
fn an_older_block_does_not_take_the_checkpoint_back() {
    let mut node = make_node(nid(1));
    let mut storage = MemoryStorage::new();
    let mut sm = CounterStateMachine::new();
    node.apply_commit(&mut sm, &mut storage, &block([0; 32], 9, 12, nid(1))).recorded.unwrap();
    node.apply_commit(&mut sm, &mut storage, &block([0; 32], 4, 5, nid(1))).recorded.unwrap();
    assert_eq!(node.last_committed_height, 9);
    assert_eq!(node.last_committed_view, 12);
}

#[test]
fn update_tags_are_stable() {
    assert_eq!(update_kind(&StateUpdate::VotedInView { view: 1 }), "VotedInView");
    assert_eq!(update_kind(&StateUpdate::Locked(sample_locked())), "Locked");
    assert_eq!(update_kind(&StateUpdate::HighQc(sample_full_qc())), "HighQc");
    assert_eq!(update_kind(&StateUpdate::ProposedInView { view: 1 }), "ProposedInView");
}

#[test]
fn recovery_of_an_empty_store_is_a_fresh_start_for_either_scheme() {
    for scheme in [SignatureSchemeChoice::Ed25519Collected, SignatureSchemeChoice::BlsAggregated] {
        let config = || {
            let mut config = test_config();
            config.signature_scheme = scheme;
            config
        };
        let fresh = ConsensusNode::new(nid(1), config());
        let recovered = ConsensusNode::recover(nid(1), config(), &MemoryStorage::new(), &Fingerprints).unwrap();
        assert_eq!(recovered.state.high_qc, fresh.state.high_qc);
        let expected = match scheme {
            SignatureSchemeChoice::Ed25519Collected => genesis_qc(&genesis(), 4),
            SignatureSchemeChoice::BlsAggregated => genesis_qc_bls(&genesis(), 4),
        };
        assert_eq!(recovered.state.high_qc, Some(expected));
        assert_eq!(recovered.state.last_voted_view, 0);
        assert_eq!(recovered.state.locked, None);
    }
}

#[test]
fn a_stored_certificate_wins_over_the_one_of_the_scheme() {
    let mut storage = MemoryStorage::new();
    let mut node = make_node(nid(1));
    node.persist_updates(&mut storage, &vec![StateUpdate::HighQc(sample_full_qc())]).unwrap();
    let mut config = test_config();
    config.signature_scheme = SignatureSchemeChoice::BlsAggregated;
    let recovered = ConsensusNode::recover(nid(1), config, &storage, &Fingerprints).unwrap();
    assert_eq!(recovered.state.high_qc, Some(sample_full_qc()));
}

#[test]
fn apply_commit_advances_state_machine_and_drains_mempool() {
    let cmd = CounterCommand::Increment.encode();
    let mut mempool = vec![cmd.clone()];
    assert_eq!(mempool.len(), 1);

    let mut sm = CounterStateMachine::new();
    let mut storage = MemoryStorage::new();
    let mut node = make_node(nid(1));
    let mut draft = draft_of(sample_block());
    draft.commands = vec![cmd];
    let b = draft.sealed_by(&Fingerprints);

    let sm_before = sm.state_commitment();
    let done = node.apply_commit(&mut sm, &mut storage, &b);
    let sm_after = sm.state_commitment();
    assert_ne!(sm_before, sm_after, "state machine must advance on commit");
    assert_eq!(done.rejected, 0);

    // What is on disk names the commands that the mempool lets go of.
    let stored = load_block_from_storage(&storage, &Fingerprints, &b.hash()).unwrap().expect("stored");
    mempool.retain(|c| !stored.commands.contains(c));
    assert_eq!(mempool.len(), 0, "committed commands must be drained from mempool");
}

#[test]
fn a_changed_block_comes_back_under_its_own_hash() {
    let mut storage = MemoryStorage::new();
    let mut node = make_node(nid(1));
    let b = sample_block();
    node.state.insert_pending(b.clone());
    let qc = QuorumCertificate::new(1, b.hash(), 4);
    node.persist_updates(&mut storage, &vec![StateUpdate::HighQc(qc)]).unwrap();
    assert!(recover(nid(1), &storage).state.pending_blocks.contains_key(&b.hash()));

    let mut other = draft_of(sample_block());
    other.commands = vec![vec![0]];
    let other = other.sealed_by(&Fingerprints);
    assert_ne!(other.hash(), b.hash());
    storage.put(&block_storage_key(&b.hash()), &encode_block(&other).unwrap());
    let loaded = load_block_from_storage(&storage, &Fingerprints, &b.hash()).unwrap();
    assert_eq!(loaded, Some(other.clone()));
    let recovered = recover(nid(1), &storage);
    assert!(!recovered.state.pending_blocks.contains_key(&b.hash()));
    assert!(recovered.state.pending_blocks.contains_key(&other.hash()));
}
