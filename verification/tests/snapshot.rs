use consensus_node::codec::Record;
use consensus_node::counter::{CounterCommand, CounterStateMachine};
use consensus_node::history_codec::{decode_key_history, encode_key_history, encode_validator_history};
use consensus_node::key_history::{BlsKeyHistory, KeyEntry, KeyHistory, KeyTimeline, ValidatorKeyHistory};
use consensus_node::digests::Fingerprints;
use consensus_node::node::commit::KeysStored;
use consensus_node::node::config::{NodeConfigForConsensus, SnapshotPolicy};
use consensus_node::node::consensus_node::ConsensusNode;
use consensus_node::node::error::NodeError;
use consensus_node::node::persist::StateUpdate;
use consensus_node::node::qc_cache::{RecentQcCache, RECENT_QC_CACHE_CAPACITY};
use consensus_node::node::snapshot::{HistoriesStored, SnapshotManifest};
use consensus_node::quorum::quorum_size;
use consensus_node::replication::StateMachine;
use consensus_node::storage::{
    MemoryStorage, Storage, StorageError, Write, STORAGE_KEY_VALIDATOR_HISTORY, STORAGE_KEY_VALIDATOR_KEY_HISTORY,
};
use consensus_node::types::{Block, BlockHeader, QuorumCertificate};
use consensus_node::validator_history::ValidatorSetHistory;
use consensus_node::validator_set::{NodeId, ValidatorId, ValidatorSet};

fn nid(b: u8) -> NodeId {
    [b; 32]
}

fn vid(b: u8) -> ValidatorId {
    ValidatorId::from_genesis_pubkey(nid(b))
}

fn four_validators() -> ValidatorSet {
    ValidatorSet::new(vec![vid(1), vid(2), vid(3), vid(4)])
}

fn genesis() -> Block {
    Block::genesis([0u8; 32], [0; 32], [0x60; 32])
}

fn config_with(policy: SnapshotPolicy) -> NodeConfigForConsensus {
    let mut cfg = NodeConfigForConsensus::for_testing(four_validators(), genesis());
    cfg.snapshot_policy = policy;
    cfg
}

fn every_five() -> SnapshotPolicy {
    SnapshotPolicy { interval_blocks: 5, retention_count: 3, chunk_size_bytes: 1024 }
}

fn block_at(height: u64, view: u64, state_commitment: [u8; 32], hash: [u8; 32]) -> Block {
    Block {
        header: BlockHeader {
            parent_hash: genesis().hash(),
            height,
            view,
            proposer: [0u8; 32],
            state_commitment,
            commands_commitment: [0u8; 32],
            validator_history_commitment: [0; 32],
        },
        commands: vec![],
        hash,
    }
}

fn qc_over(block: &Block, view: u64) -> QuorumCertificate {
    let mut qc = QuorumCertificate::new(view, block.hash(), 4);
    for i in 0..quorum_size(4) {
        qc.add_signature(i, [0u8; 64]);
    }
    qc
}

/// Commits the block and drafts a snapshot where the policy asks for one.
fn commit(node: &mut ConsensusNode, storage: &mut MemoryStorage, block: &Block) -> Option<SnapshotManifest> {
    let mut sm = CounterStateMachine::new();
    let committed = node.apply_commit(&mut sm, storage, block);
    if committed.snapshot_due {
        node.draft_snapshot(block)
    } else {
        None
    }
}

#[test]
fn snapshot_created_on_commit_at_interval() {
    let mut storage = MemoryStorage::new();
    let mut node = ConsensusNode::new(nid(1), config_with(every_five()));
    let block = block_at(5, 5, [0u8; 32], [0x65; 32]);
    let qc = qc_over(&block, 5);
    node.persist_updates(&mut storage, &vec![StateUpdate::HighQc(qc.copy())]).unwrap();

    let manifest = commit(&mut node, &mut storage, &block).expect("snapshot must have been created at height 5");
    assert_eq!(manifest.height, 5);
    assert_eq!(manifest.view, 5);
    assert_eq!(manifest.block_hash, block.hash());
    assert_eq!(manifest.commit_qc, qc);
    assert!(manifest.active_set.same_as(&four_validators()));
    assert_eq!(manifest.chunk_size, 1024);
    assert_eq!(manifest.state_commitment, block.header.state_commitment);
    assert_eq!(manifest.validator_history, encode_validator_history(&node.validator_history));
    assert_eq!(manifest.validator_key_history, encode_key_history(&node.validator_key_history));
    assert_eq!(manifest.bls_key_history, None);
}

#[test]
fn snapshot_not_created_when_disabled_default() {
    let mut storage = MemoryStorage::new();
    let mut node = ConsensusNode::new(nid(1), NodeConfigForConsensus::for_testing(four_validators(), genesis()));
    assert!(!node.snapshot_policy.is_enabled());
    let block = block_at(1, 1, [0u8; 32], [0x61; 32]);
    node.persist_updates(&mut storage, &vec![StateUpdate::HighQc(qc_over(&block, 1))]).unwrap();
    assert!(commit(&mut node, &mut storage, &block).is_none());
}

#[test]
fn snapshot_skipped_for_non_interval_height() {
    let mut storage = MemoryStorage::new();
    let mut node = ConsensusNode::new(nid(1), config_with(every_five()));
    let block = block_at(3, 3, [0u8; 32], [0x63; 32]);
    node.persist_updates(&mut storage, &vec![StateUpdate::HighQc(qc_over(&block, 3))]).unwrap();
    assert!(commit(&mut node, &mut storage, &block).is_none());
}

#[test]
fn snapshot_skipped_when_qc_not_in_cache() {
    let mut storage = MemoryStorage::new();
    let mut node = ConsensusNode::new(nid(1), config_with(every_five()));
    let block = block_at(5, 5, [0u8; 32], [0x65; 32]);
    assert!(commit(&mut node, &mut storage, &block).is_none());
    assert_eq!(node.last_committed_height, 5, "the chain keeps moving");
}

#[test]
fn snapshots_fall_due_at_every_interval() {
    let mut storage = MemoryStorage::new();
    let mut node = ConsensusNode::new(nid(1), config_with(every_five()));
    let mut taken = vec![];
    for height in 1..=25u64 {
        let block = block_at(height, height, [0u8; 32], [height as u8; 32]);
        node.persist_updates(&mut storage, &vec![StateUpdate::HighQc(qc_over(&block, height))]).unwrap();
        if let Some(m) = commit(&mut node, &mut storage, &block) {
            taken.push(m.height);
        }
    }
    assert_eq!(taken, vec![5, 10, 15, 20, 25]);
}

#[test]
fn snapshot_policy_edges() {
    let policy = every_five();
    assert!(policy.is_enabled());
    assert!(!policy.should_snapshot_at(0), "genesis needs no snapshot");
    assert!(!policy.should_snapshot_at(4));
    assert!(policy.should_snapshot_at(5));
    assert!(!SnapshotPolicy::disabled().should_snapshot_at(5));
}

/// A state machine at 5, and the manifest of a snapshot of it.
fn snapshot_at_fifty(keys: &ValidatorKeyHistory) -> (SnapshotManifest, Vec<u8>) {
    let mut sm = CounterStateMachine::new();
    for _ in 0..5 {
        sm.apply(&CounterCommand::Increment.encode()).unwrap();
    }
    let block = block_at(50, 50, sm.state_commitment(), [0x50; 32]);
    let manifest = SnapshotManifest {
        height: 50,
        view: 50,
        block_hash: block.hash(),
        state_commitment: sm.state_commitment(),
        active_set: four_validators(),
        chunk_size: 1024,
        commit_qc: qc_over(&block, 50),
        validator_history: encode_validator_history(&ValidatorSetHistory::from_genesis(four_validators())),
        validator_key_history: encode_key_history(keys),
        bls_key_history: None,
        block,
    };
    (manifest, sm.snapshot())
}

#[test]
fn joiner_restore_installs_rotated_validator_key_history() {
    let rotated_validator = nid(3);
    let new_pubkey: NodeId = [0xAB; 32];
    let v_eff = 30;
    let mut producer_key_hist = ValidatorKeyHistory::new(&four_validators());
    producer_key_hist
        .apply_rotation(&rotated_validator, new_pubkey, v_eff, 10)
        .expect("rotation applies cleanly");
    let (manifest, payload) = snapshot_at_fifty(&producer_key_hist);

    let mut storage = MemoryStorage::new();
    let mut sm = CounterStateMachine::new();
    let mut joiner = ConsensusNode::new(nid(2), config_with(every_five()));
    let stable = ValidatorId::from_genesis_pubkey(rotated_validator);
    assert_eq!(
        joiner.validator_key_history.key_at(&stable, v_eff),
        Some(rotated_validator),
        "the joiner starts with a genesis-only key history",
    );
    assert!(joiner.validator_key_history.validator_for(&new_pubkey).is_none());

    let stored = joiner
        .restore_from_snapshot(&mut sm, &mut storage, manifest, &payload)
        .expect("the manifest must be accepted");
    assert!(stored.committees && stored.keys.signing);
    assert_eq!(sm.value(), 5);

    assert_eq!(joiner.validator_key_history.key_at(&stable, v_eff - 1), Some(rotated_validator));
    assert_eq!(joiner.validator_key_history.key_at(&stable, v_eff), Some(new_pubkey));
    assert_eq!(joiner.validator_key_history.validator_for(&new_pubkey), Some(stable));

    let persisted = storage
        .get(STORAGE_KEY_VALIDATOR_KEY_HISTORY.as_bytes())
        .unwrap()
        .expect("the key history must be on disk after restore");
    let rebuilt: ValidatorKeyHistory = decode_key_history(&persisted, Record::ValidatorKeyHistory).unwrap();
    assert_eq!(rebuilt.key_at(&stable, v_eff), Some(new_pubkey), "the record must carry the rotation");
}

#[test]
fn restore_then_restart_preserves_locked_high_qc_and_last_voted_view() {
    let (manifest, payload) = snapshot_at_fifty(&ValidatorKeyHistory::new(&four_validators()));
    let snapshot_block_hash = manifest.block_hash;
    let expected_commit_qc = manifest.commit_qc.copy();

    let mut storage = MemoryStorage::new();
    let mut sm = CounterStateMachine::new();
    let mut joiner = ConsensusNode::new(nid(2), config_with(every_five()));
    joiner.restore_from_snapshot(&mut sm, &mut storage, manifest, &payload).expect("restore succeeds");
    assert_eq!(joiner.state.last_voted_view, 50);
    assert_eq!(joiner.state.locked.map(|l| l.view), Some(50));
    assert_eq!(joiner.state.high_qc.as_ref().map(|qc| qc.view), Some(50));
    assert_eq!(joiner.last_committed_height, 50);
    drop(joiner);

    let recovered = ConsensusNode::recover(nid(2), config_with(every_five()), &storage, &Fingerprints).expect("recover succeeds");
    assert_eq!(recovered.state.last_voted_view, 50);
    let recovered_locked = recovered.state.locked.expect("the lock survived");
    assert_eq!(recovered_locked.view, 50);
    assert_eq!(recovered_locked.height, 50);
    assert_eq!(recovered_locked.block_hash, snapshot_block_hash);
    assert_eq!(recovered.state.high_qc.as_ref().unwrap(), &expected_commit_qc);
    assert_eq!(recovered.last_committed_height, 50);
    assert_eq!(recovered.last_committed_view, 50);
}

#[test]
fn a_state_that_does_not_match_the_manifest_is_refused() {
    let (mut manifest, payload) = snapshot_at_fifty(&ValidatorKeyHistory::new(&four_validators()));
    manifest.state_commitment = [0x99; 32];
    let mut storage = MemoryStorage::new();
    let mut sm = CounterStateMachine::new();
    let mut joiner = ConsensusNode::new(nid(2), config_with(every_five()));
    let err = joiner.restore_from_snapshot(&mut sm, &mut storage, manifest, &payload).unwrap_err();
    assert_eq!(err, NodeError::CommitmentMismatch);
    assert_eq!(joiner.last_committed_height, 0);
    assert_eq!(joiner.state.last_voted_view, 0);

    let (manifest, _) = snapshot_at_fifty(&ValidatorKeyHistory::new(&four_validators()));
    let err = joiner.restore_from_snapshot(&mut sm, &mut storage, manifest, &[]).unwrap_err();
    assert_eq!(err, NodeError::RestoreFailed);
}

#[test]
fn histories_that_do_not_decode_are_refused() {
    let keys = ValidatorKeyHistory::new(&four_validators());
    let mut sm = CounterStateMachine::new();

    let (mut manifest, payload) = snapshot_at_fifty(&keys);
    manifest.validator_history = vec![0xFF];
    let mut joiner = ConsensusNode::new(nid(2), config_with(every_five()));
    let err = joiner.restore_from_snapshot(&mut sm, &mut MemoryStorage::new(), manifest, &payload).unwrap_err();
    assert_eq!(err, NodeError::Corrupt(Record::ValidatorHistory));

    let (mut manifest, payload) = snapshot_at_fifty(&keys);
    manifest.validator_key_history = vec![0xFF];
    let mut joiner = ConsensusNode::new(nid(2), config_with(every_five()));
    let err = joiner.restore_from_snapshot(&mut sm, &mut MemoryStorage::new(), manifest, &payload).unwrap_err();
    assert_eq!(err, NodeError::Corrupt(Record::ValidatorKeyHistory));

    let (mut manifest, payload) = snapshot_at_fifty(&keys);
    manifest.bls_key_history = Some(vec![0xFF]);
    let mut joiner = ConsensusNode::new(nid(2), config_with(every_five()));
    let err = joiner.restore_from_snapshot(&mut sm, &mut MemoryStorage::new(), manifest, &payload).unwrap_err();
    assert_eq!(err, NodeError::Corrupt(Record::BlsKeyHistory));
}

#[test]
fn boundaries_of_the_snapshot_reach_the_safety_state() {
    let mut history = ValidatorSetHistory::from_genesis(four_validators());
    let five = ValidatorSet::new(vec![vid(1), vid(2), vid(3), vid(4), vid(5)]);
    history.insert_boundary(40, five.copy()).unwrap();
    let bls: BlsKeyHistory = KeyHistory::from_timelines(vec![KeyTimeline {
        stable_id: vid(1),
        entries: vec![KeyEntry { v_eff: 0, key: [7; 48] }],
    }])
    .unwrap();
    let (mut manifest, payload) = snapshot_at_fifty(&ValidatorKeyHistory::new(&four_validators()));
    manifest.validator_history = encode_validator_history(&history);
    manifest.bls_key_history = Some(encode_key_history(&bls));
    manifest.active_set = five.copy();

    let mut storage = MemoryStorage::new();
    let mut sm = CounterStateMachine::new();
    let mut joiner = ConsensusNode::new(nid(2), config_with(every_five()));
    let stored = joiner.restore_from_snapshot(&mut sm, &mut storage, manifest, &payload).unwrap();
    assert_eq!(stored, HistoriesStored { committees: true, keys: KeysStored { signing: true, bls: true } });
    assert!(joiner.validator_history.same_as(&history));
    assert!(joiner.state.validator_history.set_at(40).same_as(&five));
    assert!(joiner.validator_set.same_as(&five));
    assert!(five.contains(&ValidatorId::from_genesis_pubkey(joiner.pacemaker.leader_for_view(41))));
    assert!(joiner.bls_key_history.as_ref().unwrap().same_as(&bls));
    assert!(storage.get(STORAGE_KEY_VALIDATOR_HISTORY.as_bytes()).unwrap().is_some());

    // The safety state knows the boundary now: it cannot be replayed.
    let (mut manifest, payload) = snapshot_at_fifty(&ValidatorKeyHistory::new(&four_validators()));
    manifest.validator_history = encode_validator_history(&history);
    let err = joiner.restore_from_snapshot(&mut sm, &mut storage, manifest, &payload).unwrap_err();
    assert_eq!(err, NodeError::BoundaryRefused { v_eff: 40 });
    assert_eq!(err.message(), "replay validator boundary at v_eff = 40");
}

#[test]
fn a_snapshot_that_cannot_be_written_is_not_adopted() {
    struct ReadOnly;
    impl Storage for ReadOnly {
        fn get(&self, _key: &[u8]) -> Result<Option<Vec<u8>>, StorageError> {
            Ok(None)
        }
        fn batch(&mut self, _writes: &Vec<Write>) -> Result<(), StorageError> {
            Err(StorageError)
        }
    }

    let (manifest, payload) = snapshot_at_fifty(&ValidatorKeyHistory::new(&four_validators()));
    let mut sm = CounterStateMachine::new();
    let mut joiner = ConsensusNode::new(nid(2), config_with(every_five()));
    let err = joiner.restore_from_snapshot(&mut sm, &mut ReadOnly, manifest, &payload).unwrap_err();
    assert!(matches!(err, NodeError::Write(_)), "got {err:?}");
}

#[test]
fn a_server_and_a_joiner_agree() {
    let mut server_storage = MemoryStorage::new();
    let mut server = ConsensusNode::new(nid(1), config_with(every_five()));
    let mut sm = CounterStateMachine::new();
    sm.apply(&CounterCommand::Increment.encode()).unwrap();
    let block = block_at(5, 5, sm.state_commitment(), [0x65; 32]);
    server.persist_updates(&mut server_storage, &vec![StateUpdate::HighQc(qc_over(&block, 5))]).unwrap();
    let manifest = commit(&mut server, &mut server_storage, &block).unwrap();

    let mut joiner_sm = CounterStateMachine::new();
    let mut joiner = ConsensusNode::new(nid(2), config_with(every_five()));
    joiner.restore_from_snapshot(&mut joiner_sm, &mut MemoryStorage::new(), manifest, &sm.snapshot()).unwrap();
    assert_eq!(joiner_sm.value(), 1);
    assert_eq!(joiner.last_committed_height, server.last_committed_height);
    assert!(joiner.validator_history.same_as(&server.validator_history));
    assert!(joiner.validator_key_history.same_as(&server.validator_key_history));
    assert_eq!(joiner.recent_qcs.get(&block.hash()).unwrap().view, 5);
}

#[test]
fn the_certificate_cache_forgets_the_oldest() {
    let mut cache = RecentQcCache::new();
    for i in 0..=(RECENT_QC_CACHE_CAPACITY as u8) {
        cache.insert([i; 32], QuorumCertificate::new(u64::from(i), [i; 32], 4), RECENT_QC_CACHE_CAPACITY);
    }
    assert_eq!(cache.len(), RECENT_QC_CACHE_CAPACITY);
    assert!(cache.get(&[0; 32]).is_none());
    assert_eq!(cache.get(&[1; 32]).unwrap().view, 1);
    // A certificate over a known block replaces the earlier one.
    cache.insert([1; 32], QuorumCertificate::new(99, [1; 32], 4), RECENT_QC_CACHE_CAPACITY);
    assert_eq!(cache.get(&[1; 32]).unwrap().view, 99);
    assert_eq!(cache.len(), RECENT_QC_CACHE_CAPACITY);
}
