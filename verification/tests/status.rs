use consensus_node::decimal::decimal_string;
use consensus_node::node::config::NodeConfigForConsensus;
use consensus_node::node::consensus_node::ConsensusNode;
use consensus_node::node::listing::{sorted_ids, sorted_names};
use consensus_node::node::status::{order_of, self_role_string, ParkedProposal, VoteBucket};
use consensus_node::pacemaker::state_machine::Event;
use consensus_node::types::{Block, Locked, QuorumCertificate, TimeoutVote};
use consensus_node::validator_set::{NodeId, ValidatorId, ValidatorSet};

fn nid(b: u8) -> NodeId {
    [b; 32]
}

fn four_validators() -> ValidatorSet {
    ValidatorSet::new((1..=4).map(|b| ValidatorId::from_genesis_pubkey(nid(b))).collect())
}

fn genesis() -> Block {
    Block::genesis([0u8; 32], [0; 32], [0x60; 32])
}

fn make_node() -> ConsensusNode {
    ConsensusNode::new(nid(1), NodeConfigForConsensus::for_testing(four_validators(), genesis()))
}

#[test]
fn the_role_follows_the_view() {
    let set = four_validators();
    assert_eq!(self_role_string(&set, &nid(1), 0), "leader(view=0)");
    assert_eq!(self_role_string(&set, &nid(1), 1), "replica");
    assert_eq!(self_role_string(&set, &nid(2), 1), "leader(view=1)");
    assert_eq!(self_role_string(&set, &nid(3), 1_000_002), "leader(view=1000002)");
    assert_eq!(self_role_string(&set, &nid(9), 0), "replica");
    assert_eq!(self_role_string(&ValidatorSet::new(vec![]), &nid(1), 0), "replica");
}

#[test]
fn a_fresh_node_reports_genesis() {
    let status = make_node().build_status(16, &vec![], &vec![], 3);
    assert_eq!(status.node_id, nid(1));
    assert_eq!(status.self_role, "leader(view=0)");
    assert_eq!(status.current_view, 0);
    assert_eq!(status.last_voted_view, 0);
    assert!(status.locked.is_none());
    let high_qc = status.high_qc.unwrap();
    assert_eq!((high_qc.view, high_qc.height), (0, Some(0)));
    assert_eq!(high_qc.block_hash, "60".repeat(32));
    assert_eq!(status.pending_blocks_count, 1);
    assert_eq!(status.validator_set, vec![nid(1), nid(2), nid(3), nid(4)]);
    assert_eq!(status.mempool_size, 3);
    assert_eq!(status.dropped_commands, 0);
}

#[test]
fn a_busy_node_reports_all_there_is() {
    let mut node = make_node();
    node.step_pacemaker(Event::OnQc(99));
    node.state.last_voted_view = 98;
    node.state.locked = Some(Locked { view: 97, height: 40, block_hash: [0xAB; 32] });
    node.state.high_qc = Some(QuorumCertificate::new(99, [0xCD; 32], 4));
    node.last_committed_height = 39;
    node.last_committed_view = 96;
    node.dropped_commands = 5;
    node.equivocations_detected = 2;
    node.peer_connected(nid(2));
    node.on_timeout_vote(nid(2), TimeoutVote { view: 103, high_qc: None }, true);
    node.on_timeout_vote(nid(3), TimeoutVote { view: 101, high_qc: None }, true);
    node.on_timeout_vote(nid(2), TimeoutVote { view: 500, high_qc: None }, true);

    let status = node.build_status(16, &vec![], &vec![], 0);
    assert_eq!(status.current_view, 100);
    assert_eq!(status.last_voted_view, 98);
    assert_eq!((status.last_committed_height, status.last_committed_view), (39, 96));
    let locked = status.locked.unwrap();
    assert_eq!((locked.view, locked.height, locked.block_hash), (97, 40, "ab".repeat(32)));
    assert_eq!(status.high_qc.unwrap().height, None, "the certified block is not known");
    // Near the current view only, and in view order.
    let timeouts: Vec<(u64, usize, usize)> =
        status.timeout_buckets.iter().map(|b| (b.view, b.signers, b.quorum)).collect();
    assert_eq!(timeouts, vec![(101, 1, 3), (103, 1, 3)]);
    assert_eq!(status.peers_connected, vec![nid(2)]);
    assert_eq!((status.dropped_commands, status.equivocations_detected), (5, 2));
}

#[test]
fn vote_buckets_are_filtered_and_sorted() {
    let mut node = make_node();
    node.step_pacemaker(Event::OnQc(99));
    let bucket = |view, hash: u8, signers| VoteBucket { view, block_hash: [hash; 32], signers };
    let buckets = vec![
        bucket(117, 1, 1),
        bucket(116, 9, 2),
        bucket(100, 8, 3),
        bucket(100, 7, 4),
        bucket(84, 5, 1),
        bucket(83, 6, 1),
    ];
    let status = node.build_status(16, &buckets, &vec![], 0);
    let seen: Vec<(u64, String, usize, usize)> = status
        .vote_buckets
        .iter()
        .map(|b| (b.view, b.block_hash.clone(), b.signers, b.quorum))
        .collect();
    assert_eq!(
        seen,
        vec![
            (84, "05".repeat(32), 1, 3),
            (100, "07".repeat(32), 4, 3),
            (100, "08".repeat(32), 3, 3),
            (116, "09".repeat(32), 2, 3),
        ],
    );
}

#[test]
fn parked_proposals_are_sorted() {
    let parked = |view, hash: u8| ParkedProposal { view, block_hash: [hash; 32], parent_hash: [0xEE; 32] };
    let status = make_node().build_status(16, &vec![], &vec![parked(9, 2), parked(7, 1), parked(9, 1)], 0);
    let seen: Vec<(u64, String)> =
        status.parked_proposals.iter().map(|p| (p.view, p.block_hash.clone())).collect();
    assert_eq!(seen, vec![(7, "01".repeat(32)), (9, "01".repeat(32)), (9, "02".repeat(32))]);
    assert_eq!(status.parked_proposals[0].parent_hash, "ee".repeat(32));
}

#[test]
fn views_near_the_ends_of_the_range_do_not_wrap() {
    let node = make_node();
    let buckets = vec![VoteBucket { view: u64::MAX, block_hash: [1; 32], signers: 1 }];
    assert!(node.build_status(16, &buckets, &vec![], 0).vote_buckets.is_empty());
    assert_eq!(node.build_status(u64::MAX, &buckets, &vec![], 0).vote_buckets.len(), 1);
}

#[test]
fn an_order_lists_every_place_once() {
    let keys = vec![(3, [0u8; 32]), (1, [9; 32]), (1, [2; 32]), (3, [0; 32])];
    let order = order_of(&keys);
    assert_eq!(order[..2], [2, 1]);
    let mut rest = order[2..].to_vec();
    rest.sort();
    assert_eq!(rest, vec![0, 3]);
    assert!(order_of(&vec![]).is_empty());
}

#[test]
fn connected_peers_are_sorted() {
    let mut node = make_node();
    for b in [9, 2, 200, 2, 4] {
        node.peer_connected(nid(b));
    }
    let status = node.build_status(16, &vec![], &vec![], 0);
    assert_eq!(status.peers_connected, vec![nid(2), nid(4), nid(9), nid(200)]);
    node.peer_disconnected(&nid(4));
    let status = node.build_status(16, &vec![], &vec![], 0);
    assert_eq!(status.peers_connected, vec![nid(2), nid(9), nid(200)]);
}

#[test]
fn ids_are_sorted_by_their_bytes() {
    let mut late = [1u8; 32];
    late[31] = 2;
    let ids = vec![nid(3), late, nid(1), nid(3)];
    assert_eq!(sorted_ids(&ids), vec![nid(1), late, nid(3), nid(3)]);
    assert!(sorted_ids(&vec![]).is_empty());
}

#[test]
fn names_are_sorted_as_in_a_dictionary() {
    let names = |list: &[&str]| list.iter().map(|s| s.to_string()).collect::<Vec<String>>();
    let mixed = names(&["9xb", "9x", "Zz", "aa", "", "9x", "\u{1F600}", "\u{FFFD}"]);
    let mut expected = mixed.clone();
    expected.sort();
    assert_eq!(sorted_names(mixed), expected);
    assert_eq!(expected[..4], names(&["", "9x", "9x", "9xb"])[..]);
    assert!(sorted_names(vec![]).is_empty());
}

#[test]
fn numbers_are_written_in_decimal() {
    for n in [0, 7, 9, 10, 42, 100, 909, 1_000_000, u64::MAX - 1, u64::MAX] {
        assert_eq!(decimal_string(n), n.to_string());
    }
}
