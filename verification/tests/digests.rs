use consensus_node::digests::{Digests, Fingerprints};
use consensus_node::key_history::ValidatorKeyHistory;
use consensus_node::node::membership::{ReconfigInput, RotationInput};
use consensus_node::node::rebuild::Histories;
use consensus_node::types::{BlockDraft, BlockHeader, SignatureSchemeChoice};
use consensus_node::validator_history::ValidatorSetHistory;
use consensus_node::validator_set::{NodeId, ValidatorId, ValidatorSet};

fn nid(b: u8) -> NodeId {
    [b; 32]
}

fn vid(b: u8) -> ValidatorId {
    ValidatorId::from_genesis_pubkey(nid(b))
}

fn draft(view: u64, commands: Vec<Vec<u8>>) -> BlockDraft {
    BlockDraft {
        header: BlockHeader {
            parent_hash: [1; 32],
            height: 3,
            view,
            proposer: nid(2),
            state_commitment: [0; 32],
            commands_commitment: [0; 32],
            validator_history_commitment: [0; 32],
        },
        commands,
    }
}

fn histories() -> Histories {
    let set = ValidatorSet::new((1..=4).map(vid).collect());
    Histories {
        committees: ValidatorSetHistory::from_genesis(set.copy()),
        keys: ValidatorKeyHistory::new(&set),
        bls: None,
    }
}

#[test]
fn a_fingerprint_has_its_known_value() {
    // No command at all is written as a single zero byte.
    let mut expected = [0u8; 32];
    expected[..8].copy_from_slice(&0xaf63_bd4c_8601_b7df_u64.to_le_bytes());
    assert_eq!(Fingerprints.commit_commands(&vec![]), expected);
}

#[test]
fn a_sealed_block_goes_by_the_hash_of_its_content() {
    let d = draft(4, vec![vec![7]]);
    let hash = Fingerprints.hash_block(&d.header, &d.commands);
    let b = d.sealed_by(&Fingerprints);
    assert_eq!(b.hash(), hash);
    assert_eq!((b.header.view, b.commands), (4, vec![vec![7u8]]));
}

#[test]
fn digests_follow_the_content() {
    let base = draft(4, vec![vec![7]]).sealed_by(&Fingerprints).hash();
    assert_eq!(draft(4, vec![vec![7]]).sealed_by(&Fingerprints).hash(), base);
    assert_ne!(draft(5, vec![vec![7]]).sealed_by(&Fingerprints).hash(), base);
    assert_ne!(draft(4, vec![vec![8]]).sealed_by(&Fingerprints).hash(), base);
    assert_ne!(draft(4, vec![vec![], vec![7]]).sealed_by(&Fingerprints).hash(), base);
    let mut changed = histories();
    changed.keys.apply_rotation(&nid(2), nid(22), 9, 1).unwrap();
    assert_ne!(Fingerprints.commit_histories(&changed), Fingerprints.commit_histories(&histories()));
}

#[test]
fn a_block_is_taken_over_at_once_or_in_two_steps() {
    let reconfigs = vec![ReconfigInput::Candidate { v_eff: 40, members: (1..=5).map(|b| (vid(b), 1)).collect() }];
    let rotations = vec![RotationInput::Signed {
        validator: nid(5),
        new_key: nid(55),
        v_eff: 60,
        new_bls_key: None,
        attested_under: vec![nid(5)],
        scheme_consistent: true,
    }];
    let scheme = SignatureSchemeChoice::Ed25519Collected;
    let mut at_once = histories();
    at_once.apply_block(scheme, 8, 3, &reconfigs, &rotations);
    let mut in_steps = histories();
    in_steps.apply_block(scheme, 8, 3, &reconfigs, &vec![]);
    assert_ne!(Fingerprints.commit_histories(&at_once), Fingerprints.commit_histories(&in_steps));
    in_steps.apply_block(scheme, 8, 3, &vec![], &rotations);
    assert_eq!(Fingerprints.commit_histories(&at_once), Fingerprints.commit_histories(&in_steps));
    assert_eq!(at_once.keys.key_at(&vid(5), 60), Some(nid(55)));
}
