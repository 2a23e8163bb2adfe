use consensus_node::bls_partial::{deserialize, serialize, PartialError};
use consensus_node::codec::Record;
use consensus_node::messages::{NewView, Signed, Vote};
use consensus_node::types::{BlockDraft, BlockHash, BlockHeader, QuorumCertificate, TimeoutVote};
use consensus_node::validator_set::NodeId;
use consensus_node::wire::{decode_wire, encode_wire, BlockResponsePayload, ProposalPayload, WireMessage};

fn nid(b: u8) -> NodeId {
    [b; 32]
}

fn genesis_hash() -> BlockHash {
    [0x60; 32]
}

fn sample_draft() -> BlockDraft {
    BlockDraft {
        header: BlockHeader {
            parent_hash: genesis_hash(),
            height: 1,
            view: 1,
            proposer: nid(1),
            state_commitment: [0u8; 32],
            commands_commitment: [0u8; 32],
            validator_history_commitment: [0; 32],
        },
        commands: vec![],
    }
}

fn sample_qc() -> QuorumCertificate {
    QuorumCertificate::new(0, genesis_hash(), 4)
}

fn signed<T>(payload: T, signer: NodeId) -> Signed<T> {
    Signed { payload, signer, sig: [0u8; 64] }
}

fn vote(partial: Option<[u8; 96]>) -> WireMessage {
    WireMessage::Vote(signed(Vote { view: 7, block_hash: [0xAB; 32] }, nid(2)), partial)
}

fn roundtrip(msg: WireMessage) {
    let encoded = encode_wire(&msg);
    let decoded = decode_wire(&encoded).unwrap();
    assert_eq!(decoded, msg);
}

#[test]
fn wire_message_proposal_roundtrip() {
    roundtrip(WireMessage::Proposal(signed(ProposalPayload { block: sample_draft(), justify: sample_qc() }, nid(1))));
}

#[test]
fn wire_message_vote_roundtrip() {
    roundtrip(vote(None));
}

#[test]
fn wire_message_vote_with_bls_partial_roundtrip() {
    roundtrip(vote(Some([0xCDu8; 96])));
}

#[test]
fn wire_message_new_view_roundtrip() {
    roundtrip(WireMessage::NewView(signed(NewView { high_qc: sample_qc() }, nid(3))));
}

#[test]
fn wire_message_timeout_vote_roundtrip() {
    roundtrip(WireMessage::TimeoutVote(signed(TimeoutVote { view: 9, high_qc: Some(sample_qc()) }, nid(2))));
    // Very early on, no certificate has been seen yet.
    roundtrip(WireMessage::TimeoutVote(signed(TimeoutVote { view: 1, high_qc: None }, nid(3))));
}

#[test]
fn wire_message_block_request_roundtrip() {
    roundtrip(WireMessage::BlockRequest([0xCDu8; 32]));
}

#[test]
fn wire_message_block_response_some_roundtrip() {
    roundtrip(WireMessage::BlockResponse(signed(
        BlockResponsePayload { requested_hash: [0x61; 32], block: Some(sample_draft()) },
        [0u8; 32],
    )));
}

#[test]
fn wire_message_block_response_none_roundtrip() {
    roundtrip(WireMessage::BlockResponse(signed(
        BlockResponsePayload { requested_hash: [0xAA; 32], block: None },
        [0u8; 32],
    )));
}

#[test]
fn snapshot_messages_roundtrip() {
    roundtrip(WireMessage::SnapshotManifestRequest { height: None });
    roundtrip(WireMessage::SnapshotManifestRequest { height: Some(300) });
    roundtrip(WireMessage::SnapshotManifestResponse(None));
    roundtrip(WireMessage::SnapshotManifestResponse(Some(vec![1, 2, 3])));
    roundtrip(WireMessage::SnapshotChunkRequest { at: u64::MAX, chunk_idx: u32::MAX });
    roundtrip(WireMessage::SnapshotChunkResponse { at: 10, chunk_idx: 0, payload: None });
    roundtrip(WireMessage::SnapshotChunkResponse { at: 10, chunk_idx: 128, payload: Some(vec![0xEE; 300]) });
}

#[test]
fn a_block_request_is_its_tag_and_the_hash() {
    let mut expected = vec![4u8];
    expected.extend_from_slice(&[0xCD; 32]);
    assert_eq!(encode_wire(&WireMessage::BlockRequest([0xCD; 32])), expected);
}

#[test]
fn a_vote_is_laid_out_field_by_field() {
    let mut expected = vec![1u8, 7];
    expected.extend_from_slice(&[0xAB; 32]);
    expected.extend_from_slice(&[2; 32]);
    expected.extend_from_slice(&[0; 64]);
    expected.push(0);
    assert_eq!(encode_wire(&vote(None)), expected);

    expected.pop();
    expected.push(1);
    expected.push(96);
    expected.extend_from_slice(&[0xCD; 96]);
    assert_eq!(encode_wire(&vote(Some([0xCD; 96]))), expected);
}

#[test]
fn snapshot_requests_are_laid_out_as_postcard_does() {
    // An enum variant is its index, then its fields.
    let manifest = encode_wire(&WireMessage::SnapshotManifestRequest { height: Some(300) });
    assert_eq!(manifest, postcard::to_stdvec(&(6u32, Some(300u64))).unwrap());

    let chunk = encode_wire(&WireMessage::SnapshotChunkRequest { at: 300, chunk_idx: 70_000 });
    assert_eq!(chunk, postcard::to_stdvec(&(8u32, 300u64, 70_000u32)).unwrap());

    let response = encode_wire(&WireMessage::SnapshotChunkResponse {
        at: 1,
        chunk_idx: u32::MAX,
        payload: Some(vec![5, 6]),
    });
    assert_eq!(response, postcard::to_stdvec(&(9u32, 1u64, u32::MAX, Some(vec![5u8, 6u8]))).unwrap());
}

#[test]
fn the_first_byte_of_a_message_is_its_tag() {
    let messages = vec![
        WireMessage::Proposal(signed(ProposalPayload { block: sample_draft(), justify: sample_qc() }, nid(1))),
        vote(None),
        WireMessage::NewView(signed(NewView { high_qc: sample_qc() }, nid(3))),
        WireMessage::TimeoutVote(signed(TimeoutVote { view: 1, high_qc: None }, nid(3))),
        WireMessage::BlockRequest([0; 32]),
        WireMessage::BlockResponse(signed(BlockResponsePayload { requested_hash: [0; 32], block: None }, nid(0))),
        WireMessage::SnapshotManifestRequest { height: None },
        WireMessage::SnapshotManifestResponse(None),
        WireMessage::SnapshotChunkRequest { at: 0, chunk_idx: 0 },
        WireMessage::SnapshotChunkResponse { at: 0, chunk_idx: 0, payload: None },
    ];
    for (i, m) in messages.iter().enumerate() {
        assert_eq!(encode_wire(m)[0] as usize, i);
    }
}

#[test]
fn unknown_tags_and_empty_payloads_are_refused() {
    for bytes in [vec![], vec![10u8], vec![0xFFu8, 0, 0, 0]] {
        let err = decode_wire(&bytes).unwrap_err();
        assert_eq!(err.record, Record::WireMessage);
    }
}

#[test]
fn truncated_messages_are_refused() {
    let encoded = encode_wire(&vote(Some([0xCD; 96])));
    for n in 0..encoded.len() {
        assert!(decode_wire(&encoded[..n]).is_err(), "a prefix of {n} bytes must not decode");
    }
}

#[test]
fn a_partial_signature_of_the_wrong_length_is_refused() {
    let mut short = vec![1u8, 95];
    short.extend_from_slice(&[0xCD; 95]);
    assert_eq!(deserialize(&short).unwrap_err(), PartialError::WrongLength);

    let mut long = vec![1u8, 97];
    long.extend_from_slice(&[0xCD; 97]);
    assert_eq!(deserialize(&long).unwrap_err(), PartialError::WrongLength);

    assert_eq!(deserialize(&[]).unwrap_err(), PartialError::Unreadable);
    assert_eq!(deserialize(&[1u8]).unwrap_err(), PartialError::Unreadable);
    assert_eq!(deserialize(&[1u8, 96, 0]).unwrap_err(), PartialError::Unreadable);
    assert_eq!(deserialize(&[2u8]).unwrap_err(), PartialError::Unreadable);
    assert_ne!(PartialError::WrongLength.message(), PartialError::Unreadable.message());
}

#[test]
fn partial_signatures_read_back_and_leave_the_rest() {
    let mut out = vec![];
    serialize(&Some([7u8; 96]), &mut out);
    serialize(&None, &mut out);
    out.push(9);
    assert_eq!(out.len(), 98 + 1 + 1);

    let (first, rest) = deserialize(&out).unwrap();
    assert_eq!(first, Some([7u8; 96]));
    let (second, rest) = deserialize(rest).unwrap();
    assert_eq!(second, None);
    assert_eq!(rest, &[9u8][..]);
}
