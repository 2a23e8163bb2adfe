use consensus_node::bytes::Bytes32;
use consensus_node::counter::{CounterCommand, CounterStateMachine};
use consensus_node::digests::{Digests, Fingerprints};
use consensus_node::node::builder::{uncommitted_ancestor_chain, BuildError, MempoolBlockBuilder};
use consensus_node::replication::{CommandError, RestoreError, StateMachine};
use consensus_node::state::BlockMap;
use consensus_node::types::{Block, BlockDraft, BlockHash, BlockHeader};
use consensus_node::validator_set::NodeId;

fn nid(b: u8) -> NodeId {
    [b; 32]
}

fn genesis() -> Block {
    Block::genesis([0u8; 32], [0; 32], [0x60; 32])
}

fn commands_commitment(commands: &[Vec<u8>]) -> Bytes32 {
    Fingerprints.commit_commands(&commands.to_vec())
}

fn make_builder(self_id: NodeId) -> MempoolBlockBuilder {
    MempoolBlockBuilder::new(self_id, 10)
}

fn build<S: StateMachine>(
    builder: &MempoolBlockBuilder,
    parent: &Block,
    view: u64,
    pending: &BlockMap,
    committed_height: u64,
    commands: &[Vec<u8>],
    sm: &mut S,
    dropped: &mut u64,
) -> Result<BlockDraft, BuildError> {
    builder.build(&Fingerprints, parent, view, pending, committed_height, commands.to_vec(), sm, dropped)
}

fn build_on_genesis(view: u64, commands: &[Vec<u8>], sm: &mut CounterStateMachine) -> BlockDraft {
    let mut dropped = 0;
    build(&make_builder(nid(1)), &genesis(), view, &BlockMap::new(), 0, commands, sm, &mut dropped)
        .expect("test builder must not fail")
}

fn make_inflight(parent_hash: BlockHash, height: u64, view: u64, hash: BlockHash) -> Block {
    let commands = vec![CounterCommand::Increment.encode()];
    Block {
        header: BlockHeader {
            parent_hash,
            height,
            view,
            proposer: nid(1),
            state_commitment: [0u8; 32],
            commands_commitment: commands_commitment(&commands),
            validator_history_commitment: [0; 32],
        },
        commands,
        hash,
    }
}

#[test]
fn builder_sets_header_fields_from_parent_and_view() {
    let mut sm = CounterStateMachine::new();
    let block = build_on_genesis(3, &[], &mut sm);
    assert_eq!(block.header.parent_hash, genesis().hash());
    assert_eq!(block.header.height, 1);
    assert_eq!(block.header.view, 3);
    assert_eq!(block.header.proposer, nid(1));
}

#[test]
fn builder_pulls_commands_from_mempool() {
    let mut sm = CounterStateMachine::new();
    let commands = [CounterCommand::Increment.encode(), CounterCommand::Decrement.encode()];
    let block = build_on_genesis(1, &commands, &mut sm);
    assert_eq!(block.commands.len(), 2);
    assert_eq!(block.commands, commands.to_vec());
    assert_eq!(make_builder(nid(1)).propose_limit(), 10);
}

#[test]
fn builder_is_deterministic_for_same_inputs() {
    let mut sm = CounterStateMachine::new();
    let commands = [CounterCommand::Increment.encode()];
    let b1 = build_on_genesis(1, &commands, &mut sm);
    let b2 = build_on_genesis(1, &commands, &mut sm);
    assert_eq!(b1, b2, "build must be deterministic");
}

#[test]
fn builder_does_not_mutate_state_machine() {
    let mut sm = CounterStateMachine::new();
    let before = sm.state_commitment();
    let commands =
        [CounterCommand::Increment.encode(), CounterCommand::Increment.encode(), CounterCommand::Increment.encode()];
    build_on_genesis(1, &commands, &mut sm);
    let after = sm.state_commitment();
    assert_eq!(before, after, "build must not leave the state machine mutated");
}

#[test]
fn builder_state_commitment_matches_applying_commands() {
    let mut sm = CounterStateMachine::new();
    let cmd = CounterCommand::Increment.encode();
    let block = build_on_genesis(1, &[cmd.clone()], &mut sm);

    let mut reference_sm = CounterStateMachine::new();
    reference_sm.apply(&cmd).unwrap();
    assert_eq!(block.header.state_commitment, reference_sm.state_commitment());
}

#[test]
fn builder_commands_commitment_matches_commands() {
    let mut sm = CounterStateMachine::new();
    let commands = [CounterCommand::Increment.encode(), CounterCommand::Decrement.encode()];
    let block = build_on_genesis(1, &commands, &mut sm);
    assert_eq!(block.header.commands_commitment, commands_commitment(&block.commands));
}

/// A state machine whose `restore` always fails.
struct FailingRestoreSm;

impl StateMachine for FailingRestoreSm {
    type Model = ();

    fn apply(&mut self, _cmd: &[u8]) -> Result<Vec<u8>, CommandError> {
        Ok(vec![])
    }

    fn state_commitment(&self) -> Bytes32 {
        [0xAB; 32]
    }

    fn snapshot(&self) -> Vec<u8> {
        b"snap-bytes".to_vec()
    }

    fn restore(&mut self, _snap: &[u8]) -> Result<(), RestoreError> {
        Err(RestoreError { reason: String::from("simulated restore failure") })
    }
}

#[test]
fn builder_propagates_state_machine_restore_failure() {
    let mut sm = FailingRestoreSm;
    let mut dropped = 0;
    let result = build(&make_builder(nid(1)), &genesis(), 1, &BlockMap::new(), 0, &[], &mut sm, &mut dropped);
    let err = result.expect_err("builder must propagate restore failure as Err");
    let msg = err.message();
    assert!(
        msg.contains("simulated restore failure"),
        "error must surface the underlying state-machine failure, got {msg}",
    );
}

#[test]
fn builder_state_commitment_walks_uncommitted_ancestor_chain() {
    let mut sm = CounterStateMachine::new();
    let before = sm.state_commitment();

    // genesis -> b1 -> b2 -> b3, each with one increment.
    let g = genesis();
    let b1 = make_inflight(g.hash(), 1, 1, [0x61; 32]);
    let b2 = make_inflight(b1.hash(), 2, 2, [0x62; 32]);
    let b3 = make_inflight(b2.hash(), 3, 3, [0x63; 32]);
    let mut pending = BlockMap::new();
    pending.insert(g);
    pending.insert(b1.clone());
    pending.insert(b2.clone());
    pending.insert(b3.clone());

    let mut dropped = 0;
    let proposal = build(
        &make_builder(nid(1)),
        &b3,
        4,
        &pending,
        0,
        &[CounterCommand::Increment.encode()],
        &mut sm,
        &mut dropped,
    )
    .expect("test builder must not fail");

    assert_eq!(sm.state_commitment(), before, "build must not leave the state machine mutated");

    let mut reference = CounterStateMachine::new();
    for ancestor in [&b1, &b2, &b3] {
        for cmd in &ancestor.commands {
            reference.apply(cmd).unwrap();
        }
    }
    for cmd in &proposal.commands {
        reference.apply(cmd).unwrap();
    }
    assert_eq!(
        proposal.header.state_commitment,
        reference.state_commitment(),
        "state_commitment must reflect b1+b2+b3+candidate, not just candidate",
    );
    assert_eq!(reference.value(), 4, "1 + 1 + 1 + 1 = 4 increments applied");
}

#[test]
fn builder_state_commitment_stops_at_last_committed_boundary() {
    // b1 is committed: the state machine has applied it.
    let mut sm = CounterStateMachine::new();
    sm.apply(&CounterCommand::Increment.encode()).unwrap();
    let post_b1_commitment = sm.state_commitment();

    let g = genesis();
    let b1 = make_inflight(g.hash(), 1, 1, [0x61; 32]);
    let b2 = make_inflight(b1.hash(), 2, 2, [0x62; 32]);
    let mut pending = BlockMap::new();
    pending.insert(g);
    pending.insert(b1);
    pending.insert(b2.clone());

    let mut dropped = 0;
    let proposal = build(
        &make_builder(nid(1)),
        &b2,
        3,
        &pending,
        1,
        &[CounterCommand::Increment.encode()],
        &mut sm,
        &mut dropped,
    )
    .expect("test builder must not fail");

    assert_eq!(sm.state_commitment(), post_b1_commitment);

    let mut reference = CounterStateMachine::new();
    reference.apply(&CounterCommand::Increment.encode()).unwrap();
    for cmd in &b2.commands {
        reference.apply(cmd).unwrap();
    }
    for cmd in &proposal.commands {
        reference.apply(cmd).unwrap();
    }
    assert_eq!(
        proposal.header.state_commitment,
        reference.state_commitment(),
        "commitment must reflect b2 + candidate on top of committed b1",
    );
    assert_eq!(reference.value(), 3);
}

#[test]
fn builder_skips_failing_commands_and_commitment_matches_partial_apply() {
    let good = CounterCommand::Increment.encode();
    let bad_underflow = CounterCommand::Decrement.encode();
    let bad_decode: Vec<u8> = vec![0xFFu8, 0x00, 0x00, 0x00];
    let commands = [bad_underflow, good.clone(), bad_decode];

    let mut sm = CounterStateMachine::new();
    let mut dropped = 0;
    let builder = make_builder(nid(1));
    let block = build(&builder, &genesis(), 1, &BlockMap::new(), 0, &commands, &mut sm, &mut dropped)
        .expect("builder must skip rather than fail the proposal");

    // All three commands ride the block.
    assert_eq!(block.commands.len(), 3);

    let mut reference = CounterStateMachine::new();
    reference.apply(&good).unwrap();
    assert_eq!(
        block.header.state_commitment,
        reference.state_commitment(),
        "state_commitment must reflect only the commands that applied",
    );
    assert_eq!(
        sm.state_commitment(),
        CounterStateMachine::new().state_commitment(),
        "build must not mutate the state machine, even when some commands fail to apply",
    );
    assert_eq!(dropped, 2, "dropped must reflect both the underflow and the decode error");

    build(&builder, &genesis(), 2, &BlockMap::new(), 0, &commands, &mut sm, &mut dropped)
        .expect("second build must also succeed");
    assert_eq!(dropped, 4, "dropped must accumulate across builds");
}

#[test]
fn the_ancestor_chain_runs_from_the_parent_to_the_oldest() {
    let g = genesis();
    let b1 = make_inflight(g.hash(), 1, 1, [0x61; 32]);
    let b2 = make_inflight(b1.hash(), 2, 2, [0x62; 32]);
    let b3 = make_inflight(b2.hash(), 3, 3, [0x63; 32]);
    let mut pending = BlockMap::new();
    pending.insert(g.clone());
    pending.insert(b1.clone());
    pending.insert(b2.clone());

    let chain = uncommitted_ancestor_chain(&b3, &pending, 0).unwrap();
    assert_eq!(chain, vec![b3.clone(), b2.clone(), b1.clone()]);
    let chain = uncommitted_ancestor_chain(&b3, &pending, 2).unwrap();
    assert_eq!(chain, vec![b3.clone()]);
    assert_eq!(uncommitted_ancestor_chain(&b3, &pending, 3).unwrap(), vec![]);
    assert_eq!(uncommitted_ancestor_chain(&g, &pending, 0).unwrap(), vec![]);
    // A parent that is not pending ends the walk.
    assert_eq!(uncommitted_ancestor_chain(&b2, &BlockMap::new(), 0).unwrap(), vec![b2.clone()]);
}

#[test]
fn circular_parent_links_are_refused() {
    let a = make_inflight([0x72; 32], 5, 5, [0x71; 32]);
    let b = make_inflight([0x71; 32], 6, 6, [0x72; 32]);
    let mut pending = BlockMap::new();
    pending.insert(a.clone());
    pending.insert(b);
    assert_eq!(uncommitted_ancestor_chain(&a, &pending, 0), None);

    let mut sm = CounterStateMachine::new();
    let mut dropped = 0;
    let err = build(&make_builder(nid(1)), &a, 7, &pending, 0, &[], &mut sm, &mut dropped).unwrap_err();
    assert_eq!(err, BuildError::CircularAncestry);
    assert_eq!(err.message(), "parent links of pending blocks go in circles");
    assert_eq!(dropped, 0);
}
