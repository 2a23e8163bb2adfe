use consensus_node::codec::{
    decode_block, decode_high_qc, decode_last_committed, decode_locked, decode_proposed_in_view, decode_timeout_vote,
    decode_voted_view, encode_block, encode_high_qc, encode_last_committed, encode_locked, encode_proposed_in_view,
    encode_timeout_vote, encode_voted_view, CodecError, Record,
};
use consensus_node::history_codec::{
    decode_key_history, decode_validator_history, encode_key_history, encode_validator_history,
};
use consensus_node::key_history::{BlsKeyHistory, KeyEntry, KeyHistory, KeyTimeline};
use consensus_node::storage::{block_storage_key, MemoryStorage, Storage, Write};
use consensus_node::types::{
    genesis_qc, genesis_qc_bls, Block, BlockHeader, LastCommitted, Locked, QuorumCertificate, TimeoutVote,
};
use consensus_node::validator_history::ValidatorSetHistory;
use consensus_node::validator_set::{ValidatorId, ValidatorSet};

fn vid(b: u8) -> ValidatorId {
    ValidatorId::from_genesis_pubkey([b; 32])
}

fn sample_locked() -> Locked {
    Locked { view: 40, height: 5, block_hash: [0xABu8; 32] }
}

fn sample_full_qc() -> QuorumCertificate {
    let mut qc = QuorumCertificate::new(41, [0xCDu8; 32], 4);
    qc.add_signature(0, [0x11u8; 64]);
    qc.add_signature(2, [0x22u8; 64]);
    qc.add_signature(3, [0x33u8; 64]);
    qc
}

fn block_with_commands(commands: Vec<Vec<u8>>) -> Block {
    Block {
        header: BlockHeader {
            parent_hash: [1u8; 32],
            height: 300,
            view: 70_000,
            proposer: [2u8; 32],
            state_commitment: [3u8; 32],
            commands_commitment: [4u8; 32],
            validator_history_commitment: [5u8; 32],
        },
        commands,
        hash: [6u8; 32],
    }
}

#[test]
fn encode_decode_voted_view_roundtrips() {
    let cases = [0u64, 1, 42, u64::MAX];
    for v in cases {
        let bytes = encode_voted_view(v).unwrap();
        assert_eq!(decode_voted_view(&bytes).unwrap(), v);
    }
}

#[test]
fn encode_decode_locked_roundtrips() {
    let l = sample_locked();
    let bytes = encode_locked(&l).unwrap();
    assert_eq!(decode_locked(&bytes).unwrap(), l);
}

#[test]
fn encode_decode_high_qc_roundtrips() {
    let qc = sample_full_qc();
    let bytes = encode_high_qc(&qc).unwrap();
    assert_eq!(decode_high_qc(&bytes).unwrap(), qc);
}

#[test]
fn encode_decode_proposed_in_view_roundtrips() {
    let cases = [0u64, 1, 42, u64::MAX];
    for v in cases {
        let bytes = encode_proposed_in_view(v).unwrap();
        assert_eq!(decode_proposed_in_view(&bytes).unwrap(), v);
    }
}

#[test]
fn decode_voted_view_surfaces_error_on_garbage() {
    assert!(decode_voted_view(&[0xFFu8; 64]).is_err());
}

#[test]
fn decode_proposed_in_view_surfaces_error_on_garbage() {
    assert!(decode_proposed_in_view(&[0xFFu8; 64]).is_err());
}

#[test]
fn integers_are_written_as_postcard_writes_them() {
    for v in [0u64, 1, 127, 128, 300, 16_383, 16_384, 1 << 35, u64::MAX - 1, u64::MAX] {
        assert_eq!(encode_voted_view(v).unwrap(), postcard::to_stdvec(&v).unwrap());
    }
    assert_eq!(encode_voted_view(300).unwrap(), vec![0xAC, 0x02]);
}

#[test]
fn integers_are_refused_as_postcard_refuses_them() {
    let mut too_large = vec![0xFFu8; 9];
    too_large.push(2);
    let mut largest = vec![0xFFu8; 9];
    largest.push(1);
    let cases: Vec<Vec<u8>> =
        vec![vec![], vec![0x80], vec![0x80; 10], vec![0xFF; 11], too_large, largest, vec![0x80, 0x00], vec![5, 9, 9]];
    for c in cases {
        let ours = decode_voted_view(&c).ok();
        let theirs = postcard::take_from_bytes::<u64>(&c).ok().map(|(v, _)| v);
        assert_eq!(ours, theirs, "on {c:?}");
    }
}

#[test]
fn locks_and_checkpoints_are_laid_out_as_tuples() {
    let l = sample_locked();
    assert_eq!(encode_locked(&l).unwrap(), postcard::to_stdvec(&(l.view, l.height, l.block_hash)).unwrap());
    let c = LastCommitted { height: 1 << 20, view: 77, last_committed_hash: [9u8; 32] };
    assert_eq!(
        encode_last_committed(&c).unwrap(),
        postcard::to_stdvec(&(c.height, c.view, c.last_committed_hash)).unwrap()
    );
    assert_eq!(decode_last_committed(&encode_last_committed(&c).unwrap()).unwrap(), c);
}

#[test]
fn certificates_are_laid_out_as_tuples() {
    let qc = sample_full_qc();
    let signers = vec![true, false, true, true];
    let mut signatures: Vec<u8> = Vec::new();
    signatures.extend([0x11u8; 64]);
    signatures.extend([0x22u8; 64]);
    signatures.extend([0x33u8; 64]);
    assert_eq!(qc.signers, signers);
    assert_eq!(qc.signatures, signatures);
    assert_eq!(
        encode_high_qc(&qc).unwrap(),
        postcard::to_stdvec(&(41u64, [0xCDu8; 32], signers, signatures)).unwrap()
    );
}

#[test]
fn blocks_are_laid_out_as_tuples_and_read_back() {
    let b = block_with_commands(vec![vec![], vec![1, 2, 3], vec![0xEE; 200]]);
    let h = &b.header;
    let bytes = encode_block(&b).unwrap();
    let expected = postcard::to_stdvec(&(
        (
            h.parent_hash,
            h.height,
            h.view,
            h.proposer,
            h.state_commitment,
            h.commands_commitment,
            h.validator_history_commitment,
        ),
        vec![vec![], vec![1u8, 2, 3], vec![0xEEu8; 200]],
    ))
    .unwrap();
    assert_eq!(bytes, expected);
    assert_eq!(decode_block(&bytes).unwrap().seal(b.hash()), b);
    // what stands behind the block is ignored
    let mut longer = bytes.clone();
    longer.push(0);
    assert_eq!(decode_block(&longer).unwrap().seal(b.hash()), b);
}

#[test]
fn a_block_that_is_cut_short_is_refused() {
    let bytes = encode_block(&block_with_commands(vec![vec![1, 2, 3]])).unwrap();
    for n in 0..bytes.len() {
        assert_eq!(
            decode_block(&bytes[..n]),
            Err(CodecError { record: Record::Block }),
            "{n} bytes of {}",
            bytes.len()
        );
    }
}

#[test]
fn each_record_names_itself_when_it_cannot_be_read() {
    let junk = [0xFFu8; 64];
    assert_eq!(decode_voted_view(&junk), Err(CodecError { record: Record::LastVotedView }));
    assert_eq!(decode_proposed_in_view(&junk), Err(CodecError { record: Record::ProposedInView }));
    assert_eq!(decode_locked(&junk), Err(CodecError { record: Record::Locked }));
    assert_eq!(decode_high_qc(&junk), Err(CodecError { record: Record::HighQc }));
    assert_eq!(decode_last_committed(&junk), Err(CodecError { record: Record::LastCommitted }));
    assert_eq!(decode_timeout_vote(&junk), Err(CodecError { record: Record::TimeoutVote }));
    assert!(matches!(
        decode_validator_history(&junk),
        Err(CodecError { record: Record::ValidatorHistory })
    ));
    assert!(matches!(
        decode_key_history::<32>(&junk, Record::ValidatorKeyHistory),
        Err(CodecError { record: Record::ValidatorKeyHistory })
    ));
    assert_eq!(Record::LastVotedView.name(), "last_voted_view");
    assert_eq!(Record::BlsKeyHistory.name(), "bls_key_history");
}

#[test]
fn timeout_votes_read_back_with_and_without_a_certificate() {
    for high_qc in [None, Some(sample_full_qc())] {
        let t = TimeoutVote { view: 9, high_qc };
        let bytes = encode_timeout_vote(&t).unwrap();
        assert_eq!(decode_timeout_vote(&bytes).unwrap(), t);
    }
    // a mark other than zero and one is refused
    assert!(decode_timeout_vote(&[9, 2]).is_err());
    assert_eq!(decode_timeout_vote(&[9, 0]).unwrap(), TimeoutVote { view: 9, high_qc: None });
}

#[test]
fn a_flag_other_than_zero_and_one_is_refused() {
    let mut bytes = encode_high_qc(&QuorumCertificate::new(1, [0u8; 32], 1)).unwrap();
    let at = bytes.len() - 2;
    assert_eq!(bytes[at], 0);
    bytes[at] = 2;
    assert!(decode_high_qc(&bytes).is_err());
}

#[test]
fn committee_histories_read_back() {
    let mut h = ValidatorSetHistory::from_genesis(ValidatorSet::new(vec![vid(1), vid(2)]));
    h.insert_boundary(7, ValidatorSet::with_weights(vec![(vid(3), 5), (vid(2), 300)]).unwrap()).unwrap();
    let back = decode_validator_history(&encode_validator_history(&h)).unwrap();
    assert!(back.same_as(&h));
    assert_eq!(back.boundary_count(), 2);
    assert_eq!(back.v_eff_of(1), 7);
    assert_eq!(back.set_of(1).weights(), vec![300, 5]);
}

#[test]
fn unsound_committee_histories_are_refused() {
    // two boundaries at view zero
    let empty: Vec<([u8; 32], u64)> = Vec::new();
    let twice = postcard::to_stdvec(&vec![(0u64, empty.clone()), (0u64, empty.clone())]).unwrap();
    assert!(decode_validator_history(&twice).is_err());
    // no boundary at view zero
    let late = postcard::to_stdvec(&vec![(3u64, empty)]).unwrap();
    assert!(decode_validator_history(&late).is_err());
    // nothing at all
    assert!(decode_validator_history(&[0]).is_err());
    // a weight of zero
    let zero = postcard::to_stdvec(&vec![(0u64, vec![([1u8; 32], 0u64)])]).unwrap();
    assert!(decode_validator_history(&zero).is_err());
    // members out of order
    let order = postcard::to_stdvec(&vec![(0u64, vec![([2u8; 32], 1u64), ([1u8; 32], 1u64)])]).unwrap();
    assert!(decode_validator_history(&order).is_err());
    let fine = postcard::to_stdvec(&vec![(0u64, vec![([1u8; 32], 1u64), ([2u8; 32], 1u64)])]).unwrap();
    assert_eq!(decode_validator_history(&fine).unwrap().current_set().len(), 2);
}

#[test]
fn key_histories_read_back() {
    let mut keys = KeyHistory::<32>::new(&ValidatorSet::new(vec![vid(1), vid(2)]));
    keys.apply_rotation(&[1u8; 32], [77u8; 32], 9, 3).unwrap();
    let back = decode_key_history::<32>(&encode_key_history(&keys), Record::ValidatorKeyHistory).unwrap();
    assert!(back.same_as(&keys));
    assert_eq!(back.key_at(&vid(1), 8), Some([1u8; 32]));
    assert_eq!(back.key_at(&vid(1), 9), Some([77u8; 32]));
    let bls = BlsKeyHistory::from_timelines(vec![KeyTimeline {
        stable_id: vid(1),
        entries: vec![KeyEntry { v_eff: 0, key: [8u8; 48] }],
    }])
    .unwrap();
    let again = decode_key_history::<48>(&encode_key_history(&bls), Record::BlsKeyHistory).unwrap();
    assert!(again.same_as(&bls));
}

#[test]
fn block_keys_carry_the_hash_behind_a_prefix() {
    let hash = [0x5Au8; 32];
    let key = block_storage_key(&hash);
    assert_eq!(&key[..16], b"consensus/block/");
    assert_eq!(&key[16..], &hash[..]);
}

#[test]
fn the_last_write_to_a_key_stays() {
    let mut s = MemoryStorage::new();
    s.put(b"k", b"old");
    s.batch(&vec![
        Write { key: b"k".to_vec(), value: b"a".to_vec() },
        Write { key: b"other".to_vec(), value: b"x".to_vec() },
        Write { key: b"k".to_vec(), value: b"b".to_vec() },
    ])
    .unwrap();
    assert_eq!(s.get(b"k").unwrap(), Some(b"b".to_vec()));
    assert_eq!(s.get(b"other").unwrap(), Some(b"x".to_vec()));
    assert_eq!(s.get(b"missing").unwrap(), None);
}

#[test]
fn genesis_certificates_differ_by_scheme() {
    let g = Block::genesis([0u8; 32], [0u8; 32], [7u8; 32]);
    let collected = genesis_qc(&g, 4);
    assert_eq!(collected.view, 0);
    assert_eq!(collected.block_hash, [7u8; 32]);
    assert_eq!(collected.signer_count(), 4);
    assert_eq!(collected.signatures, vec![0u8; 256]);
    let aggregated = genesis_qc_bls(&g, 4);
    assert_eq!(aggregated.signer_count(), 0);
    assert!(aggregated.signatures.is_empty());
    assert_eq!(aggregated.signers.len(), 4);
}
