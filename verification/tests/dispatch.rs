use consensus_node::codec::encode_block;
use consensus_node::counter::CounterStateMachine;
use consensus_node::digests::Fingerprints;
use consensus_node::messages::{NewView, Proposal, SafetyEvent, Signed, Vote};
use consensus_node::node::admission::{admit_inbound, limiter_query, Admission, Decision, MessageKind};
use consensus_node::node::config::NodeConfigForConsensus;
use consensus_node::node::consensus_node::ConsensusNode;
use consensus_node::node::dispatch::{
    manifest_height, BlockDrop, BlockSource, Dispatch, DispatchStep, LagHint, LoopInput, LoopStep,
};
use consensus_node::pacemaker::state_machine::{Action, AdvanceCause, Event};
use consensus_node::storage::{block_storage_key, MemoryStorage, Storage, StorageError, Write};
use consensus_node::types::{Block, BlockDraft, BlockHash, BlockHeader, QuorumCertificate};
use consensus_node::validator_set::{NodeId, ValidatorId, ValidatorSet};
use consensus_node::wire::{encode_wire, WireMessage};

fn nid(b: u8) -> NodeId {
    [b; 32]
}

fn four_validators() -> ValidatorSet {
    ValidatorSet::new((1..=4).map(|b| ValidatorId::from_genesis_pubkey(nid(b))).collect())
}

fn genesis() -> Block {
    Block::genesis([0u8; 32], [0; 32], [0x60; 32])
}

fn test_config() -> NodeConfigForConsensus {
    NodeConfigForConsensus::for_testing(four_validators(), genesis())
}

fn make_node(self_id: NodeId) -> ConsensusNode {
    ConsensusNode::new(self_id, test_config())
}

fn sample_block() -> Block {
    BlockDraft {
        header: BlockHeader {
            parent_hash: genesis().hash(),
            height: 1,
            view: 1,
            proposer: nid(1),
            state_commitment: [0u8; 32],
            commands_commitment: [0u8; 32],
            validator_history_commitment: [0; 32],
        },
        commands: vec![],
    }
    .sealed_by(&Fingerprints)
}

fn receive(node: &mut ConsensusNode, requested_hash: BlockHash, block: Option<Block>) -> DispatchStep {
    let storage = MemoryStorage::new();
    node.apply_dispatch(&storage, &Fingerprints, Dispatch::ReceiveBlock { requested_hash, block, from: nid(2) })
}

#[test]
fn serve_block_falls_back_to_storage_when_pending_blocks_misses() {
    let mut storage = MemoryStorage::new();
    let block = sample_block();
    let hash = block.hash();
    {
        let mut node = make_node(nid(1));
        let mut sm = CounterStateMachine::new();
        node.apply_commit(&mut sm, &mut storage, &block).recorded.unwrap();
    }

    let mut node = ConsensusNode::recover(nid(1), test_config(), &storage, &Fingerprints).expect("recover");
    assert!(
        !node.state.pending_blocks.contains_key(&hash),
        "post-restart pending_blocks must not contain the committed block",
    );

    match node.apply_dispatch(&storage, &Fingerprints, Dispatch::ServeBlock { hash, to: nid(2) }) {
        DispatchStep::SendBlock { hash: requested, block: served, to, source } => {
            assert_eq!(to, nid(2));
            assert_eq!(requested, hash);
            assert_eq!(served, Some(block));
            assert_eq!(source, BlockSource::Storage);
        }
        other => panic!("expected a block response, got {other:?}"),
    }
}

#[test]
fn serve_block_returns_none_when_neither_pending_nor_storage_has_it() {
    let mut node = make_node(nid(1));
    let unknown_hash: BlockHash = [0xEE; 32];
    match node.apply_dispatch(&MemoryStorage::new(), &Fingerprints, Dispatch::ServeBlock { hash: unknown_hash, to: nid(2) }) {
        DispatchStep::SendBlock { hash, block, to, source } => {
            assert_eq!(to, nid(2));
            assert_eq!(hash, unknown_hash);
            assert!(block.is_none());
            assert_eq!(source, BlockSource::Nowhere);
        }
        other => panic!("expected a block response, got {other:?}"),
    }
}

#[test]
fn receive_block_drops_unsolicited_response() {
    let mut node = make_node(nid(1));
    let block = sample_block();
    let block_hash = block.hash();
    let pending_before = node.state.pending_blocks.len();

    let step = receive(&mut node, block_hash, Some(block));
    assert!(matches!(step, DispatchStep::BlockDropped(BlockDrop::Unrequested)));
    assert_eq!(
        node.state.pending_blocks.len(),
        pending_before,
        "an unsolicited response must not insert into pending_blocks",
    );
    assert!(!node.state.pending_blocks.contains_key(&block_hash));
}

#[test]
fn receive_block_drops_hash_mismatch() {
    let mut node = make_node(nid(1));
    let requested_hash: BlockHash = [0xAA; 32];
    node.block_requested(requested_hash);

    let block = sample_block();
    let block_hash = block.hash();
    assert_ne!(block_hash, requested_hash);
    let pending_before = node.state.pending_blocks.len();

    let step = receive(&mut node, requested_hash, Some(block));
    assert!(matches!(step, DispatchStep::BlockDropped(BlockDrop::HashMismatch)));
    assert_eq!(
        node.state.pending_blocks.len(),
        pending_before,
        "a hash-mismatched response must not insert into pending_blocks",
    );
    assert!(!node.state.pending_blocks.contains_key(&block_hash));
    assert!(node.block_sync_inflight.contains(&requested_hash), "the request must stay open so retries continue");
}

#[test]
fn receive_block_inserts_when_hash_matches_inflight() {
    let mut node = make_node(nid(1));
    let block = sample_block();
    let block_hash = block.hash();
    node.block_requested([0x77; 32]);
    node.block_requested(block_hash);
    node.block_requested(block_hash);
    assert_eq!(node.block_sync_inflight.len(), 2);

    match receive(&mut node, block_hash, Some(block)) {
        DispatchStep::BlockArrived { hash, current_view } => {
            assert_eq!(hash, block_hash);
            assert_eq!(current_view, 0);
        }
        other => panic!("expected the block to arrive, got {other:?}"),
    }
    assert!(node.state.pending_blocks.contains_key(&block_hash), "a matching response must insert the block");
    assert_eq!(node.block_sync_inflight, vec![[0x77u8; 32]], "only the answered request is closed");
}

#[test]
fn a_peer_that_has_no_block_leaves_the_request_open() {
    let mut node = make_node(nid(1));
    node.block_requested([0xAA; 32]);
    let step = receive(&mut node, [0xAA; 32], None);
    assert!(matches!(step, DispatchStep::BlockDropped(BlockDrop::NotFound)));
    assert_eq!(node.block_sync_inflight, vec![[0xAAu8; 32]]);
}

#[test]
fn pending_blocks_are_served_before_stored_ones() {
    let mut node = make_node(nid(1));
    let block = sample_block();
    node.state.insert_pending(block.clone());
    let (served, source) = node.serve_block(&MemoryStorage::new(), &Fingerprints, &block.hash());
    assert_eq!(served, Some(block));
    assert_eq!(source, BlockSource::Pending);
}

#[test]
fn a_block_that_cannot_be_read_is_not_served() {
    struct Unreadable;
    impl Storage for Unreadable {
        fn get(&self, _key: &[u8]) -> Result<Option<Vec<u8>>, StorageError> {
            Err(StorageError)
        }
        fn batch(&mut self, _writes: &Vec<Write>) -> Result<(), StorageError> {
            Ok(())
        }
    }

    let node = make_node(nid(1));
    let hash = sample_block().hash();
    assert_eq!(node.serve_block(&Unreadable, &Fingerprints, &hash), (None, BlockSource::Unreadable));

    let mut storage = MemoryStorage::new();
    storage.put(&block_storage_key(&hash), &[0xFF, 0xFF]);
    assert_eq!(node.serve_block(&storage, &Fingerprints, &hash), (None, BlockSource::Unreadable));
    storage.put(&block_storage_key(&hash), &encode_block(&sample_block()).unwrap());
    assert_eq!(node.serve_block(&storage, &Fingerprints, &hash), (Some(sample_block()), BlockSource::Storage));
}

fn signed<T>(payload: T) -> Signed<T> {
    Signed { payload, signer: nid(3), sig: [0; 64] }
}

#[test]
fn a_proposal_tells_how_far_behind_the_node_is() {
    let mut node = make_node(nid(1));
    node.last_committed_height = 4;
    let mut block = sample_block();
    block.header.height = 90;
    let justify = QuorumCertificate::new(0, genesis().hash(), 4);
    let event = SafetyEvent::ProposalReceived(signed(Proposal { block, justify: justify.copy() }));
    match node.apply_dispatch(&MemoryStorage::new(), &Fingerprints, Dispatch::Safety(event)) {
        DispatchStep::StepSafety { event: SafetyEvent::ProposalReceived(_), lag } => {
            assert_eq!(lag, Some(LagHint { committed_height: 4, proposal_height: 90, proposer: nid(3) }));
        }
        other => panic!("expected a step of the safety rules, got {other:?}"),
    }
    for event in [
        SafetyEvent::VoteReceived(signed(Vote { view: 3, block_hash: [0; 32] })),
        SafetyEvent::NewViewReceived(signed(NewView { high_qc: justify })),
        SafetyEvent::PacemakerAdvance(3),
    ] {
        match node.apply_dispatch(&MemoryStorage::new(), &Fingerprints, Dispatch::Safety(event)) {
            DispatchStep::StepSafety { lag, .. } => assert_eq!(lag, None),
            other => panic!("expected a step of the safety rules, got {other:?}"),
        }
    }
}

#[test]
fn pacemaker_events_go_to_the_pacemaker() {
    let mut node = make_node(nid(1));
    match node.apply_dispatch(&MemoryStorage::new(), &Fingerprints, Dispatch::Pacemaker(Event::OnQc(6))) {
        DispatchStep::Pacemaker(actions) => {
            assert_eq!(actions[0], Action::AdvanceToView { view: 7, cause: AdvanceCause::Qc });
        }
        other => panic!("expected pacemaker actions, got {other:?}"),
    }
    assert_eq!(node.current_view(), 7);
}

#[test]
fn snapshot_traffic_is_passed_on() {
    let mut node = make_node(nid(1));
    let store = MemoryStorage::new();
    assert!(matches!(
        node.apply_dispatch(&store, &Fingerprints, Dispatch::ServeSnapshotManifest { height: None, to: nid(2) }),
        DispatchStep::SendManifest { height: None, to } if to == nid(2)
    ));
    assert!(matches!(
        node.apply_dispatch(&store, &Fingerprints, Dispatch::ServeSnapshotChunk { height: 10, chunk_idx: 3, to: nid(2) }),
        DispatchStep::SendChunk { height: 10, chunk_idx: 3, .. }
    ));
    assert!(matches!(
        node.apply_dispatch(&store, &Fingerprints, Dispatch::ReceiveSnapshotManifest { manifest: None, from: nid(2) }),
        DispatchStep::ManifestArrived { manifest: None, .. }
    ));
    let chunk =
        Dispatch::ReceiveSnapshotChunk { height: 10, chunk_idx: 3, payload: Some(vec![1]), from: nid(2) };
    match node.apply_dispatch(&store, &Fingerprints, chunk) {
        DispatchStep::ChunkArrived { height, chunk_idx, payload, from } => {
            assert_eq!((height, chunk_idx, payload, from), (10, 3, Some(vec![1]), nid(2)));
        }
        other => panic!("expected the chunk, got {other:?}"),
    }
}

#[test]
fn the_latest_manifest_is_served_unless_a_height_was_asked_for() {
    assert_eq!(manifest_height(None, Some(30)), Some(30));
    assert_eq!(manifest_height(Some(20), Some(30)), Some(20));
    assert_eq!(manifest_height(Some(20), None), Some(20));
    assert_eq!(manifest_height(None, None), None);
}

#[test]
fn the_run_loop_acts_on_every_input() {
    let mut node = make_node(nid(1));
    assert!(matches!(node.on_input(LoopInput::Stop), LoopStep::Stop));
    assert!(matches!(node.on_input(LoopInput::InboundClosed), LoopStep::Stop));
    assert!(matches!(node.on_input(LoopInput::Other), LoopStep::Nothing));

    assert!(matches!(node.on_input(LoopInput::PeerAdded(nid(2))), LoopStep::CandidateAdded(p) if p == nid(2)));
    assert!(matches!(node.on_input(LoopInput::PeerAdded(nid(2))), LoopStep::CandidateAdded(_)));
    assert!(matches!(node.on_input(LoopInput::PeerAdded(nid(3))), LoopStep::CandidateAdded(_)));
    assert_eq!(node.peers_connected, vec![nid(2), nid(3)]);
    assert!(matches!(node.on_input(LoopInput::PeerRemoved(nid(2))), LoopStep::CandidateRemoved(p) if p == nid(2)));
    assert_eq!(node.peers_connected, vec![nid(3)]);
    assert!(matches!(node.on_input(LoopInput::PeersLagged(vec![nid(4), nid(2), nid(4)])), LoopStep::Nothing));
    assert_eq!(node.peers_connected, vec![nid(4), nid(2)]);

    assert!(matches!(node.on_input(LoopInput::Disconnected(nid(4))), LoopStep::Forget(p) if p == nid(4)));
    for (admission, expected) in [(Admission::Dispatch, 0), (Admission::Drop, 1), (Admission::Disconnect, 2)] {
        let step = node.on_input(LoopInput::Message { from: nid(2), admission });
        match expected {
            0 => assert!(matches!(step, LoopStep::Ingest(p) if p == nid(2))),
            1 => assert!(matches!(step, LoopStep::Nothing)),
            _ => assert!(matches!(step, LoopStep::Disconnect(p) if p == nid(2))),
        }
    }

    // The timer of the current view asks for a timeout vote; a late one does nothing.
    node.step_pacemaker(Event::OnQc(4));
    match node.on_input(LoopInput::Timer(5)) {
        LoopStep::Pacemaker(actions) => assert!(actions.contains(&Action::SendTimeout(5))),
        other => panic!("expected pacemaker actions, got {other:?}"),
    }
    match node.on_input(LoopInput::Timer(4)) {
        LoopStep::Pacemaker(actions) => assert!(actions.is_empty()),
        other => panic!("expected pacemaker actions, got {other:?}"),
    }
}

#[test]
fn the_limiter_is_asked_about_known_tags_only() {
    let payload = encode_wire(&WireMessage::BlockRequest([0; 32]));
    assert_eq!(limiter_query(true, &payload), Some(MessageKind::BlockRequest));
    assert_eq!(limiter_query(false, &payload), None);
    assert_eq!(limiter_query(true, &[]), None);
    assert_eq!(limiter_query(true, &[10]), None);
    assert_eq!(limiter_query(true, &[255, 1]), None);

    assert_eq!(admit_inbound(None), Admission::Dispatch);
    assert_eq!(admit_inbound(Some(Decision::Allow)), Admission::Dispatch);
    assert_eq!(admit_inbound(Some(Decision::Drop)), Admission::Drop);
    assert_eq!(admit_inbound(Some(Decision::Disconnect)), Admission::Disconnect);
}

#[test]
fn message_kinds_and_tags_correspond() {
    for tag in 0..10u8 {
        assert_eq!(MessageKind::from_wire_tag(tag).unwrap().wire_tag(), tag);
    }
    for tag in 10..=255u8 {
        assert_eq!(MessageKind::from_wire_tag(tag), None);
    }
    assert_eq!(MessageKind::Proposal.wire_tag(), 0);
    assert_eq!(MessageKind::SnapshotChunkResponse.wire_tag(), 9);
}

#[test]
fn a_block_is_judged_by_its_content_not_by_the_hash_it_carries() {
    let mut node = make_node(nid(1));
    let hash = sample_block().hash();
    node.block_requested(hash);
    // Other content under the hash that was asked for.
    let mut forged = sample_block();
    forged.commands = vec![vec![1]];
    assert_eq!(forged.hash, hash);
    let step = receive(&mut node, hash, Some(forged));
    assert!(matches!(step, DispatchStep::BlockDropped(BlockDrop::HashMismatch)));
    assert!(!node.state.pending_blocks.contains_key(&hash));
    assert_eq!(node.block_sync_inflight, vec![hash]);
    // The right content under some other hash.
    let mut mislabelled = sample_block();
    mislabelled.hash = [0x77; 32];
    let step = receive(&mut node, hash, Some(mislabelled));
    assert!(matches!(step, DispatchStep::BlockArrived { .. }));
    assert_eq!(node.state.pending_blocks.get(&hash), Some(&sample_block()));
}
