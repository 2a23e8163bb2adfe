use consensus_node::bytes::Bytes32;
use consensus_node::counter::CounterStateMachine;
use consensus_node::digests::{Digests, Fingerprints};
use consensus_node::history_codec::{decode_validator_history, encode_key_history, encode_validator_history};
use consensus_node::key_history::{BlsKeyHistory, KeyEntry, KeyHistory, KeyTimeline, ValidatorKeyHistory};
use consensus_node::node::audit::BlockEvidence;
use consensus_node::node::config::{NodeConfigForConsensus, MIN_V_EFF_DELAY};
use consensus_node::node::consensus_node::ConsensusNode;
use consensus_node::node::error::NodeError;
use consensus_node::node::membership::{ReconfigInput, RotationInput};
use consensus_node::node::rebuild::{Histories, HistoryError};
use consensus_node::state::BlockMap;
use consensus_node::storage::{
    block_storage_key, MemoryStorage, Storage, StorageError, Write, STORAGE_KEY_BLS_KEY_HISTORY,
    STORAGE_KEY_LAST_COMMITTED, STORAGE_KEY_VALIDATOR_HISTORY, STORAGE_KEY_VALIDATOR_KEY_HISTORY,
};
use consensus_node::types::{Block, BlockDraft, BlockHash, BlockHeader, SignatureSchemeChoice};
use consensus_node::validator_history::ValidatorSetHistory;
use consensus_node::validator_set::{NodeId, ValidatorId, ValidatorSet};
use consensus_node::codec::{encode_block, Record};

const GENESIS_HASH: BlockHash = [0x60; 32];

fn nid(b: u8) -> NodeId {
    [b; 32]
}

fn vid(b: u8) -> ValidatorId {
    ValidatorId::from_genesis_pubkey(nid(b))
}

fn validators(ids: &[u8]) -> ValidatorSet {
    ValidatorSet::new(ids.iter().map(|b| vid(*b)).collect())
}

fn four_validators() -> ValidatorSet {
    validators(&[1, 2, 3, 4])
}

fn genesis_for(set: &ValidatorSet, bls: Option<BlsKeyHistory>) -> Block {
    let h = Histories {
        committees: ValidatorSetHistory::from_genesis(set.copy()),
        keys: ValidatorKeyHistory::new(set),
        bls,
    };
    Block::genesis([0u8; 32], Fingerprints.commit_histories(&h), GENESIS_HASH)
}

fn config(set: &ValidatorSet) -> NodeConfigForConsensus {
    NodeConfigForConsensus::for_testing(set.copy(), genesis_for(set, None))
}

fn block(parent_hash: BlockHash, height: u64, view: u64, commitment: Bytes32) -> Block {
    BlockDraft {
        header: BlockHeader {
            parent_hash,
            height,
            view,
            proposer: nid(1),
            state_commitment: [0u8; 32],
            commands_commitment: [0u8; 32],
            validator_history_commitment: commitment,
        },
        commands: vec![],
    }
    .sealed_by(&Fingerprints)
}

/// What the commands of a block ask for.
type Requests = (Vec<ReconfigInput>, Vec<RotationInput>);

fn nothing() -> Requests {
    (vec![], vec![])
}

fn add_five(v_eff: u64) -> Requests {
    (vec![ReconfigInput::Candidate { v_eff, members: (1..=5).map(|b| (vid(b), 1)).collect() }], vec![])
}

fn rotate_two(v_eff: u64) -> Requests {
    let rotation = RotationInput::Signed {
        validator: nid(2),
        new_key: nid(22),
        v_eff,
        new_bls_key: None,
        attested_under: vec![nid(2)],
        scheme_consistent: true,
    };
    (vec![], vec![rotation])
}

/// Proposes a block on top of `parent`, stamps it and commits it.
fn commit(
    node: &mut ConsensusNode,
    storage: &mut MemoryStorage,
    parent: BlockHash,
    height: u64,
    view: u64,
    requests: &Requests,
) -> BlockHash {
    let after = node.post_block_histories(view, &requests.0, &requests.1);
    let b = block(parent, height, view, Fingerprints.commit_histories(&after));
    let mut sm = CounterStateMachine::new();
    node.apply_commit(&mut sm, storage, &b).recorded.unwrap();
    node.apply_committed_reconfigs(storage, view, &requests.0).1.unwrap();
    node.apply_committed_rotations(storage, view, &requests.1);
    assert!(node.validator_history.same_as(&after.committees), "a commit leads where the proposal said");
    b.hash()
}

fn verify(node: &ConsensusNode, storage: &MemoryStorage, requests: Vec<Requests>) -> Result<(), HistoryError> {
    let evidence =
        requests.into_iter().map(|(reconfigs, rotations)| BlockEvidence { reconfigs, rotations }).collect();
    node.verify_persisted_history_consistency(storage, &Fingerprints, &evidence)
}

fn recover(storage: &MemoryStorage) -> ConsensusNode {
    ConsensusNode::recover(nid(1), config(&four_validators()), storage, &Fingerprints).expect("recover must succeed")
}

fn mentions_the_history(err: &HistoryError) {
    let msg = err.message();
    assert!(
        msg.contains("validator_history") || msg.contains("history_commitment"),
        "error message should mention the failing surface: {msg}",
    );
}

#[test]
fn verify_persisted_history_consistency_happy_path() {
    let mut storage = MemoryStorage::new();
    let mut node = ConsensusNode::new(nid(1), config(&four_validators()));
    let v_eff = MIN_V_EFF_DELAY + 5;
    commit(&mut node, &mut storage, GENESIS_HASH, 1, 0, &add_five(v_eff));
    assert_eq!(node.validator_history.boundary_count(), 2);
    drop(node);

    let recovered = recover(&storage);
    verify(&recovered, &storage, vec![nothing(), add_five(v_eff)])
        .expect("happy-path recovery must pass consistency check");
}

#[test]
fn a_chain_with_a_rotation_passes() {
    let mut storage = MemoryStorage::new();
    let mut node = ConsensusNode::new(nid(1), config(&four_validators()));
    let tip = commit(&mut node, &mut storage, GENESIS_HASH, 1, 1, &nothing());
    commit(&mut node, &mut storage, tip, 2, 3, &rotate_two(9));
    assert_eq!(node.validator_key_history.key_at(&vid(2), 9), Some(nid(22)));

    let recovered = recover(&storage);
    assert_eq!(verify(&recovered, &storage, vec![nothing(), nothing(), rotate_two(9)]), Ok(()));
    // Evidence that leaves the rotation out does not account for the block.
    let err = verify(&recovered, &storage, vec![nothing(), nothing(), nothing()]).unwrap_err();
    assert!(matches!(err, HistoryError::CommitmentMismatch { height: 2, view: 3, .. }));
}

#[test]
fn verify_persisted_history_consistency_rejects_byte_flip_in_v_eff() {
    let mut storage = MemoryStorage::new();
    let mut node = ConsensusNode::new(nid(1), config(&four_validators()));
    let v_eff = MIN_V_EFF_DELAY + 5;
    commit(&mut node, &mut storage, GENESIS_HASH, 1, 0, &add_five(v_eff));
    drop(node);

    let raw = storage.get(STORAGE_KEY_VALIDATOR_HISTORY.as_bytes()).unwrap().expect("the record must be there");
    let stored = decode_validator_history(&raw).unwrap();
    assert_eq!(stored.boundary_count(), 2);
    let mut tampered = ValidatorSetHistory::from_genesis(stored.set_of(0).copy());
    tampered.insert_boundary(stored.v_eff_of(1) + 1, stored.set_of(1).copy()).unwrap();
    storage.put(STORAGE_KEY_VALIDATOR_HISTORY.as_bytes(), &encode_validator_history(&tampered));

    let recovered = recover(&storage);
    let err = verify(&recovered, &storage, vec![nothing(), add_five(v_eff)])
        .expect_err("consistency check must reject tampered v_eff");
    assert_eq!(err, HistoryError::Committees);
    mentions_the_history(&err);
}

#[test]
fn verify_persisted_history_consistency_rejects_extra_boundary() {
    let mut storage = MemoryStorage::new();
    let mut node = ConsensusNode::new(nid(1), config(&four_validators()));
    commit(&mut node, &mut storage, GENESIS_HASH, 1, 1, &nothing());
    drop(node);

    let mut tampered = ValidatorSetHistory::from_genesis(four_validators());
    tampered.insert_boundary(999, validators(&[1, 2, 3, 4, 99])).unwrap();
    storage.put(STORAGE_KEY_VALIDATOR_HISTORY.as_bytes(), &encode_validator_history(&tampered));

    let recovered = recover(&storage);
    let err = verify(&recovered, &storage, vec![nothing(), nothing()])
        .expect_err("consistency check must reject extra boundary");
    mentions_the_history(&err);
}

#[test]
fn verify_persisted_history_consistency_rejects_tampered_genesis_member() {
    let mut storage = MemoryStorage::new();
    let mut node = ConsensusNode::new(nid(1), config(&four_validators()));
    commit(&mut node, &mut storage, GENESIS_HASH, 1, 1, &nothing());
    drop(node);

    let tampered = ValidatorSetHistory::from_genesis(validators(&[99, 2, 3, 4]));
    storage.put(STORAGE_KEY_VALIDATOR_HISTORY.as_bytes(), &encode_validator_history(&tampered));

    let recovered = recover(&storage);
    let err = verify(&recovered, &storage, vec![nothing(), nothing()])
        .expect_err("consistency check must reject wrong genesis member set");
    assert!(matches!(err, HistoryError::CommitmentMismatch { height: 0, .. }));
    mentions_the_history(&err);
}

fn bls_history() -> BlsKeyHistory {
    let timelines = (1..=4u8)
        .map(|b| KeyTimeline { stable_id: vid(b), entries: vec![KeyEntry { v_eff: 0, key: [0x9F + b; 48] }] })
        .collect();
    KeyHistory::from_timelines(timelines).unwrap()
}

fn bls_config() -> NodeConfigForConsensus {
    let set = four_validators();
    let genesis = genesis_for(&set, Some(bls_history()));
    let mut cfg = NodeConfigForConsensus::for_testing(set, genesis);
    cfg.signature_scheme = SignatureSchemeChoice::BlsAggregated;
    cfg
}

#[test]
fn verify_persisted_history_consistency_bls_happy_path() {
    let mut storage = MemoryStorage::new();
    let mut node = ConsensusNode::new(nid(1), bls_config()).with_bls_key_history(bls_history());
    commit(&mut node, &mut storage, GENESIS_HASH, 1, 1, &nothing());
    let bls_bytes = encode_key_history(node.bls_key_history.as_ref().unwrap());
    storage.put(STORAGE_KEY_BLS_KEY_HISTORY.as_bytes(), &bls_bytes);
    drop(node);

    let recovered = ConsensusNode::recover(nid(1), bls_config(), &storage, &Fingerprints)
        .expect("recover BLS chain")
        .with_bls_key_history(bls_history());
    verify(&recovered, &storage, vec![nothing(), nothing()]).expect("BLS happy-path consistency check must pass");
}

#[test]
fn a_tampered_bls_history_is_rejected() {
    let mut storage = MemoryStorage::new();
    let mut node = ConsensusNode::new(nid(1), bls_config()).with_bls_key_history(bls_history());
    commit(&mut node, &mut storage, GENESIS_HASH, 1, 1, &nothing());

    let mut tampered = bls_history();
    tampered.rotate(&nid(2), [0x77; 48], 40).unwrap();
    let recovered =
        ConsensusNode::recover(nid(1), bls_config(), &storage, &Fingerprints).unwrap().with_bls_key_history(tampered);
    assert_eq!(verify(&recovered, &storage, vec![nothing(), nothing()]), Err(HistoryError::BlsKeys));
}

#[test]
fn a_tampered_signing_key_is_rejected() {
    let mut storage = MemoryStorage::new();
    let mut node = ConsensusNode::new(nid(1), config(&four_validators()));
    commit(&mut node, &mut storage, GENESIS_HASH, 1, 1, &nothing());
    let mut tampered = ValidatorKeyHistory::new(&four_validators());
    tampered.apply_rotation(&nid(2), nid(22), 9, 1).unwrap();
    storage.put(STORAGE_KEY_VALIDATOR_KEY_HISTORY.as_bytes(), &encode_key_history(&tampered));

    let err = verify(&recover(&storage), &storage, vec![nothing(), nothing()]).unwrap_err();
    assert_eq!(err, HistoryError::SigningKeys);
    assert!(err.message().starts_with("validator_key_history_rebuild_mismatch"));
}

#[test]
fn a_node_without_a_chain_has_nothing_to_check() {
    let storage = MemoryStorage::new();
    let node = recover(&storage);
    assert_eq!(node.committed_chain(&storage, &Fingerprints), Ok(None));
    assert_eq!(node.verify_persisted_history_consistency(&storage, &Fingerprints, &vec![]), Ok(()));
}

#[test]
fn a_chain_with_holes_is_reported() {
    let mut storage = MemoryStorage::new();
    let mut node = ConsensusNode::new(nid(1), config(&four_validators()));
    // The parent of this block was never stored.
    commit(&mut node, &mut storage, [0xBB; 32], 1, 1, &nothing());
    let node = recover(&storage);
    let err = node.committed_chain(&storage, &Fingerprints).unwrap_err();
    assert_eq!(err, HistoryError::MissingBlock([0xBB; 32]));
    let mut expected = String::from("validator history rebuild: storage missing committed block: ");
    expected.push_str(&"bb".repeat(32));
    assert_eq!(err.message(), expected);
    assert_eq!(node.verify_persisted_history_consistency(&storage, &Fingerprints, &vec![]), Err(err));
}

#[test]
fn a_chain_that_ends_in_another_genesis_is_reported() {
    let mut storage = MemoryStorage::new();
    let mut node = ConsensusNode::new(nid(1), config(&four_validators()));
    let foreign = block([0; 32], 0, 0, [0; 32]);
    commit(&mut node, &mut storage, foreign.hash(), 1, 1, &nothing());
    storage.put(&block_storage_key(&foreign.hash()), &encode_block(&foreign).unwrap());
    let err = recover(&storage).committed_chain(&storage, &Fingerprints).unwrap_err();
    assert_eq!(err, HistoryError::ForeignGenesis { walked: foreign.hash(), configured: GENESIS_HASH });
    assert!(err.message().contains("does not match configured genesis hash 6060"));
}

#[test]
fn a_genesis_block_with_other_content_is_not_ours() {
    let mut storage = MemoryStorage::new();
    let mut node = ConsensusNode::new(nid(1), config(&four_validators()));
    commit(&mut node, &mut storage, GENESIS_HASH, 1, 1, &nothing());
    let foreign = block([0; 32], 0, 0, [0; 32]);
    storage.put(&block_storage_key(&GENESIS_HASH), &encode_block(&foreign).unwrap());
    let mut node = recover(&storage);
    // The genesis block in memory is preferred to the one in the store.
    assert!(node.committed_chain(&storage, &Fingerprints).is_ok());
    node.state.pending_blocks = BlockMap::new();
    let err = node.committed_chain(&storage, &Fingerprints).unwrap_err();
    assert_eq!(err, HistoryError::ForeignGenesis { walked: foreign.hash(), configured: GENESIS_HASH });
}

#[test]
fn a_weighted_genesis_committee_passes() {
    let set = ValidatorSet::with_weights(vec![(vid(1), 5), (vid(2), 1), (vid(3), 2), (vid(4), 2)]).unwrap();
    let mut storage = MemoryStorage::new();
    let mut node = ConsensusNode::new(nid(1), config(&set));
    commit(&mut node, &mut storage, GENESIS_HASH, 1, 1, &nothing());
    let recovered = ConsensusNode::recover(nid(1), config(&set), &storage, &Fingerprints).unwrap();
    assert_eq!(verify(&recovered, &storage, vec![nothing(), nothing()]), Ok(()));
}

#[test]
fn evidence_that_does_not_cover_the_chain_is_refused() {
    let mut storage = MemoryStorage::new();
    let mut node = ConsensusNode::new(nid(1), config(&four_validators()));
    commit(&mut node, &mut storage, GENESIS_HASH, 1, 1, &nothing());
    let node = recover(&storage);
    assert_eq!(
        node.verify_persisted_history_consistency(&storage, &Fingerprints, &vec![]),
        Err(HistoryError::Incomplete),
    );
}

#[test]
fn an_unreadable_checkpoint_is_reported() {
    let node = ConsensusNode::new(nid(1), config(&four_validators()));
    let mut storage = MemoryStorage::new();
    storage.put(STORAGE_KEY_LAST_COMMITTED.as_bytes(), &[0xFF]);
    let err = node.committed_chain(&storage, &Fingerprints).unwrap_err();
    assert_eq!(err, HistoryError::Storage(NodeError::Corrupt(Record::LastCommitted)));

    struct Broken;
    impl Storage for Broken {
        fn get(&self, _key: &[u8]) -> Result<Option<Vec<u8>>, StorageError> {
            Err(StorageError)
        }
        fn batch(&mut self, _writes: &Vec<Write>) -> Result<(), StorageError> {
            Ok(())
        }
    }
    let err = node.committed_chain(&Broken, &Fingerprints).unwrap_err();
    assert_eq!(err, HistoryError::Storage(NodeError::Read(Record::LastCommitted)));
}

#[test]
fn a_commitment_mismatch_names_the_block() {
    let err = HistoryError::CommitmentMismatch {
        height: 7,
        view: 12,
        hash: [0x11; 32],
        claimed: [0x22; 32],
        actual: [0x33; 32],
    };
    let expected = format!(
        "validator_history_commitment mismatch at block height=7 view=12 hash={}: block claims {} but rebuild from chain produces {}",
        "11".repeat(32),
        "22".repeat(32),
        "33".repeat(32),
    );
    assert_eq!(err.message(), expected);
}
