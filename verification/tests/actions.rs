use consensus_node::codec::Record;
use consensus_node::counter::CounterStateMachine;
use consensus_node::digests::{Digests, Fingerprints};
use consensus_node::messages::{
    msg_kind, pacemaker_event_kind, ConsensusMsg, NewView, Proposal, SafetyEvent, Signed, Vote,
};
use consensus_node::node::actions::{
    stamped, step_context, summarize_step, Recipients, SafetyAction, SafetyEffect, StepSummary,
};
use consensus_node::node::config::{NodeConfigForConsensus, MIN_V_EFF_DELAY};
use consensus_node::node::consensus_node::ConsensusNode;
use consensus_node::node::error::NodeError;
use consensus_node::node::membership::ReconfigInput;
use consensus_node::node::persist::StateUpdate;
use consensus_node::node::trace::TraceMessage;
use consensus_node::pacemaker::state_machine::Event;
use consensus_node::storage::{Storage, StorageError, Write};
use consensus_node::types::{genesis_qc, Block, BlockHeader, Locked, QuorumCertificate};
use consensus_node::validator_set::{NodeId, ValidatorId, ValidatorSet};

fn nid(b: u8) -> NodeId {
    [b; 32]
}

fn vid(b: u8) -> ValidatorId {
    ValidatorId::from_genesis_pubkey(nid(b))
}

fn genesis() -> Block {
    Block::genesis([0u8; 32], [0; 32], [0x60; 32])
}

fn make_node() -> ConsensusNode {
    let set = ValidatorSet::new(vec![vid(1), vid(2), vid(3), vid(4)]);
    ConsensusNode::new(nid(1), NodeConfigForConsensus::for_testing(set, genesis()))
}

fn sample_qc() -> QuorumCertificate {
    QuorumCertificate::new(0, genesis().hash(), 4)
}

fn sample_block() -> Block {
    Block {
        header: BlockHeader {
            parent_hash: genesis().hash(),
            height: 1,
            view: 1,
            proposer: nid(1),
            state_commitment: [0u8; 32],
            commands_commitment: [0u8; 32],
            validator_history_commitment: [0; 32],
        },
        commands: vec![],
        hash: [0x61; 32],
    }
}

fn proposal() -> ConsensusMsg {
    ConsensusMsg::Proposal(Proposal { block: sample_block(), justify: sample_qc() })
}

fn vote(view: u64) -> ConsensusMsg {
    ConsensusMsg::Vote(Vote { view, block_hash: [0x42; 32] })
}

#[test]
fn request_block_from_self_is_dropped() {
    let node = make_node();
    let request = |peer: NodeId| SafetyAction::RequestBlock {
        hash: [0xCD; 32],
        peer,
        expected_height: 7,
        reason: "test",
    };
    let effects = node.plan_safety_actions(vec![request(nid(1))]);
    assert_eq!(effects.len(), 0, "a request to ourselves must not go on the wire");
    let effects = node.plan_safety_actions(vec![request(nid(2))]);
    assert_eq!(
        effects,
        vec![SafetyEffect::RequestBlock { hash: [0xCD; 32], peer: nid(2), expected_height: 7, reason: "test" }],
    );
}

#[test]
fn broadcast_proposal_is_delivered_locally_to_leader() {
    let node = make_node();
    let actions = vec![
        SafetyAction::Persist(StateUpdate::ProposedInView { view: 1 }),
        SafetyAction::Broadcast(proposal()),
    ];
    let effects = node.plan_safety_actions(actions);
    assert_eq!(
        effects,
        vec![
            SafetyEffect::Flush(vec![StateUpdate::ProposedInView { view: 1 }]),
            SafetyEffect::Deliver { msg: proposal(), wire: Recipients::Everyone, local: true },
        ],
    );
}

#[test]
fn outbound_proposal_carries_validator_history_commitment() {
    let expected = [0x5A; 32];
    match stamped(proposal(), expected, [0x99; 32]) {
        ConsensusMsg::Proposal(p) => {
            assert_eq!(p.block.header.validator_history_commitment, expected);
            assert_ne!(p.block.header.validator_history_commitment, [0u8; 32]);
            assert_eq!(p.block.hash(), [0x99; 32]);
            assert_eq!(p.block.header.height, 1);
            assert_eq!(p.justify, sample_qc());
        }
        other => panic!("expected a proposal, got {other:?}"),
    }
    assert_eq!(stamped(vote(3), expected, [0x99; 32]), vote(3));
}

#[test]
fn a_stamped_proposal_commits_to_what_its_block_leads_to() {
    let node = make_node();
    let v_eff = MIN_V_EFF_DELAY + 5;
    let reconfigs =
        vec![ReconfigInput::Candidate { v_eff, members: (1..=5).map(|b| (vid(b), 1)).collect() }];
    let expected = Fingerprints.commit_histories(&node.post_block_histories(1, &reconfigs, &vec![]));
    let unchanged = Fingerprints.commit_histories(&node.post_block_histories(1, &vec![], &vec![]));
    assert_ne!(expected, unchanged);
    match node.stamp(&Fingerprints, proposal(), &reconfigs, &vec![]) {
        ConsensusMsg::Proposal(p) => {
            assert_eq!(p.block.header.validator_history_commitment, expected);
            assert_eq!(p.block.hash(), Fingerprints.hash_block(&p.block.header, &p.block.commands));
            assert_ne!(p.block.hash(), sample_block().hash());
            assert_eq!(p.justify, sample_qc());
        }
        other => panic!("expected a proposal, got {other:?}"),
    }
    assert_eq!(node.stamp(&Fingerprints, vote(3), &vec![], &vec![]), vote(3));
}

#[test]
fn send_to_self_vote_loops_back_without_wire_traffic() {
    let effects = make_node().plan_safety_actions(vec![SafetyAction::SendTo(nid(1), vote(7))]);
    assert_eq!(effects, vec![SafetyEffect::Deliver { msg: vote(7), wire: Recipients::Nobody, local: true }]);
}

#[test]
fn send_to_peer_vote_goes_on_the_wire_unchanged() {
    let effects = make_node().plan_safety_actions(vec![SafetyAction::SendTo(nid(2), vote(3))]);
    assert_eq!(effects, vec![SafetyEffect::Deliver { msg: vote(3), wire: Recipients::Peer(nid(2)), local: false }]);
}

fn position(effects: &[SafetyEffect], p: impl Fn(&SafetyEffect) -> bool) -> usize {
    effects.iter().position(p).expect("the effect must be there")
}

#[test]
fn vote_persist_returns_before_send_called() {
    let effects = make_node().plan_safety_actions(vec![
        SafetyAction::Persist(StateUpdate::VotedInView { view: 5 }),
        SafetyAction::Broadcast(vote(5)),
    ]);
    let persisted = position(&effects, |e| {
        matches!(e, SafetyEffect::Flush(u) if u.contains(&StateUpdate::VotedInView { view: 5 }))
    });
    let sent = position(&effects, |e| matches!(e, SafetyEffect::Deliver { msg: ConsensusMsg::Vote(_), .. }));
    assert!(persisted < sent, "the vote must be durable before it leaves");
}

#[test]
fn lock_persist_returns_before_send_called_for_two_chain_promotion() {
    let lock = StateUpdate::Locked(Locked { view: 4, height: 2, block_hash: [0x62; 32] });
    let effects = make_node().plan_safety_actions(vec![
        SafetyAction::Persist(StateUpdate::HighQc(sample_qc())),
        SafetyAction::Persist(StateUpdate::Locked(Locked { view: 4, height: 2, block_hash: [0x62; 32] })),
        SafetyAction::Persist(StateUpdate::VotedInView { view: 6 }),
        SafetyAction::Broadcast(vote(6)),
    ]);
    let persisted = position(&effects, |e| matches!(e, SafetyEffect::Flush(u) if u.contains(&lock)));
    let sent = position(&effects, |e| matches!(e, SafetyEffect::Deliver { msg: ConsensusMsg::Vote(_), .. }));
    assert!(persisted < sent, "the lock must be durable before the vote leaves");
    // All three go into one batch.
    assert_eq!(effects.len(), 2);
}

#[test]
fn updates_after_the_last_message_are_flushed_at_the_end() {
    let effects = make_node().plan_safety_actions(vec![
        SafetyAction::Persist(StateUpdate::VotedInView { view: 5 }),
        SafetyAction::Commit(sample_block()),
        SafetyAction::EquivocationEvidence { voter: vid(3), view: 5, block_a: [1; 32], block_b: [2; 32] },
        SafetyAction::Persist(StateUpdate::VotedInView { view: 6 }),
        SafetyAction::Persist(StateUpdate::ProposedInView { view: 6 }),
    ]);
    assert_eq!(
        effects,
        vec![
            SafetyEffect::Flush(vec![StateUpdate::VotedInView { view: 5 }]),
            SafetyEffect::Commit(sample_block()),
            SafetyEffect::Equivocation { voter: vid(3), view: 5, block_a: [1; 32], block_b: [2; 32] },
            SafetyEffect::Flush(vec![
                StateUpdate::VotedInView { view: 6 },
                StateUpdate::ProposedInView { view: 6 },
            ]),
        ],
    );
    assert!(make_node().plan_safety_actions(vec![]).is_empty());
}

#[test]
fn new_seeds_genesis_qc_so_view_one_leader_can_propose() {
    let mut node = make_node();
    let expected = genesis_qc(&genesis(), 4);
    assert_eq!(node.state.high_qc.as_ref(), Some(&expected));
    assert_eq!(node.proposed_in_view, 0);

    // The leader of view one extends the block that the certificate is for.
    let justify = node.state.high_qc.clone().unwrap();
    let parent = node.state.pending_blocks.get(&justify.block_hash).expect("the certified block is pending");
    let mut sm = CounterStateMachine::new();
    let draft = node
        .builder
        .build(&Fingerprints, parent, 1, &node.state.pending_blocks, 0, vec![], &mut sm, &mut node.dropped_commands)
        .expect("the leader can build");
    assert_eq!((draft.header.parent_hash, draft.header.height, draft.header.view), (genesis().hash(), 1, 1));
    let msg = || ConsensusMsg::Proposal(Proposal { block: sample_block(), justify: genesis_qc(&genesis(), 4) });

    // The view is on disk before the proposal leaves.
    let effects = node.plan_safety_actions(vec![
        SafetyAction::Persist(StateUpdate::ProposedInView { view: 1 }),
        SafetyAction::Broadcast(msg()),
    ]);
    assert_eq!(effects.len(), 2);
    assert_eq!(effects[0], SafetyEffect::Flush(vec![StateUpdate::ProposedInView { view: 1 }]));
    assert_eq!(effects[1], SafetyEffect::Deliver { msg: msg(), wire: Recipients::Everyone, local: true });
}

#[test]
fn equivocations_are_counted() {
    let mut node = make_node();
    node.count_equivocation();
    node.count_equivocation();
    assert_eq!(node.equivocations_detected, 2);
    node.equivocations_detected = u64::MAX;
    node.count_equivocation();
    assert_eq!(node.equivocations_detected, 0);
}

fn signed<T>(payload: T) -> Signed<T> {
    Signed { payload, signer: nid(3), sig: [0; 64] }
}

#[test]
fn steps_are_summed_up() {
    let ev = SafetyEvent::ProposalReceived(signed(Proposal { block: sample_block(), justify: sample_qc() }));
    let ctx = step_context(&ev);
    let summary = |voted, parked| StepSummary::Proposal { proposer: nid(3), view: 1, height: 1, voted, parked };
    assert_eq!(summarize_step(ctx, &vec![]), summary(false, false));
    assert_eq!(summarize_step(ctx, &vec![SafetyAction::Broadcast(vote(1))]), summary(true, false));
    let request = SafetyAction::RequestBlock { hash: [0; 32], peer: nid(2), expected_height: 0, reason: "test" };
    assert_eq!(summarize_step(ctx, &vec![request]), summary(false, true));

    let ctx = step_context(&SafetyEvent::VoteReceived(signed(Vote { view: 8, block_hash: [0; 32] })));
    assert_eq!(
        summarize_step(ctx, &vec![SafetyAction::Broadcast(vote(8))]),
        StepSummary::Vote { voter: nid(3), view: 8, formed_qc: false },
    );
    assert_eq!(
        summarize_step(ctx, &vec![SafetyAction::Broadcast(proposal())]),
        StepSummary::Vote { voter: nid(3), view: 8, formed_qc: true },
    );

    let ctx = step_context(&SafetyEvent::NewViewReceived(signed(NewView { high_qc: sample_qc() })));
    assert_eq!(summarize_step(ctx, &vec![]), StepSummary::NewView { sender: nid(3), high_qc_view: 0 });
    let ctx = step_context(&SafetyEvent::PacemakerAdvance(4));
    assert_eq!(summarize_step(ctx, &vec![SafetyAction::Broadcast(proposal())]), StepSummary::Silent);
}

#[test]
fn messages_and_events_have_names() {
    assert_eq!(msg_kind(&proposal()), "Proposal");
    assert_eq!(msg_kind(&vote(1)), "Vote");
    assert_eq!(msg_kind(&ConsensusMsg::NewView(NewView { high_qc: sample_qc() })), "NewView");
    assert_eq!(pacemaker_event_kind(&Event::OnQc(1)), "OnQc");
    assert_eq!(pacemaker_event_kind(&Event::OnTimeoutCert(1)), "OnTimeoutCert");
    assert_eq!(pacemaker_event_kind(&Event::OnTimeout(1)), "OnTimeout");
    assert_eq!(pacemaker_event_kind(&Event::OnProposalReceived(1)), "OnProposalReceived");
}

const EXPECTED_OPERATOR_TRACE_MESSAGES: &[&str] = &[
    "pacemaker_event",
    "pacemaker_action",
    "view_advanced",
    "outbound_broadcast",
    "new_view_received",
    "proposal_received",
    "persisted",
    "vote_received",
];

#[test]
fn integration_layer_keeps_emitting_operator_trace_messages() {
    let emitted = [
        TraceMessage::PacemakerEvent,
        TraceMessage::PacemakerAction,
        TraceMessage::ViewAdvanced,
        TraceMessage::OutboundBroadcast,
        TraceMessage::NewViewReceived,
        TraceMessage::ProposalReceived,
        TraceMessage::Persisted,
        TraceMessage::VoteReceived,
    ];
    let names: Vec<&str> = emitted.iter().map(|m| m.name()).collect();
    assert_eq!(names, EXPECTED_OPERATOR_TRACE_MESSAGES);
}

#[test]
fn steps_are_logged_under_their_message() {
    let silent = summarize_step(step_context(&SafetyEvent::PacemakerAdvance(4)), &vec![]);
    assert_eq!(TraceMessage::of_step(&silent), None);
    let vote = SafetyEvent::VoteReceived(signed(Vote { view: 8, block_hash: [0; 32] }));
    let summary = summarize_step(step_context(&vote), &vec![]);
    assert_eq!(TraceMessage::of_step(&summary), Some(TraceMessage::VoteReceived));
    let nv = SafetyEvent::NewViewReceived(signed(NewView { high_qc: sample_qc() }));
    let summary = summarize_step(step_context(&nv), &vec![]);
    assert_eq!(TraceMessage::of_step(&summary), Some(TraceMessage::NewViewReceived));
    let proposal = SafetyEvent::ProposalReceived(signed(Proposal { block: sample_block(), justify: sample_qc() }));
    let summary = summarize_step(step_context(&proposal), &vec![]);
    assert_eq!(TraceMessage::of_step(&summary), Some(TraceMessage::ProposalReceived));
}

/// A store that takes so many batches and then refuses.
struct Failing {
    left: usize,
    batches: Vec<usize>,
}

impl Storage for Failing {
    fn get(&self, _key: &[u8]) -> Result<Option<Vec<u8>>, StorageError> {
        Ok(None)
    }

    fn batch(&mut self, writes: &Vec<Write>) -> Result<(), StorageError> {
        if self.left == 0 {
            return Err(StorageError);
        }
        self.left -= 1;
        self.batches.push(writes.len());
        Ok(())
    }
}

fn two_flushes() -> Vec<SafetyAction> {
    vec![
        SafetyAction::Persist(StateUpdate::VotedInView { view: 5 }),
        SafetyAction::Persist(StateUpdate::ProposedInView { view: 5 }),
        SafetyAction::Broadcast(vote(5)),
        SafetyAction::SendTo(nid(2), vote(6)),
        SafetyAction::Persist(StateUpdate::VotedInView { view: 7 }),
        SafetyAction::Commit(sample_block()),
        SafetyAction::Broadcast(vote(8)),
    ]
}

/// Runs a plan until it ends or fails, and says what was handed out.
fn drive(storage: &mut Failing, actions: Vec<SafetyAction>) -> (Vec<SafetyEffect>, Result<(), NodeError>) {
    let mut node = make_node();
    let mut plan = node.plan_safety_actions(actions);
    let mut handed = vec![];
    while !plan.is_empty() {
        match node.advance(storage, &mut plan) {
            Ok(step) => handed.extend(step.handed),
            Err(e) => {
                assert!(plan.is_empty(), "nothing is left of a plan that failed");
                return (handed, Err(e));
            }
        }
    }
    (handed, Ok(()))
}

#[test]
fn every_effect_is_handed_out_after_its_flush() {
    let mut storage = Failing { left: 9, batches: vec![] };
    let (handed, r) = drive(&mut storage, two_flushes());
    assert_eq!(r, Ok(()));
    assert_eq!(storage.batches, vec![2, 1]);
    assert_eq!(
        handed,
        vec![
            SafetyEffect::Deliver { msg: vote(5), wire: Recipients::Everyone, local: true },
            SafetyEffect::Deliver { msg: vote(6), wire: Recipients::Peer(nid(2)), local: false },
            SafetyEffect::Commit(sample_block()),
            SafetyEffect::Deliver { msg: vote(8), wire: Recipients::Everyone, local: true },
        ],
    );
}

#[test]
fn a_failed_flush_stops_every_later_effect() {
    let failed = Err(NodeError::Write(Record::SafetyUpdates));
    let mut storage = Failing { left: 0, batches: vec![] };
    assert_eq!(drive(&mut storage, two_flushes()), (vec![], failed));
    assert!(storage.batches.is_empty());

    let mut storage = Failing { left: 1, batches: vec![] };
    let (handed, r) = drive(&mut storage, two_flushes());
    assert_eq!(r, failed);
    assert_eq!(
        handed,
        vec![
            SafetyEffect::Deliver { msg: vote(5), wire: Recipients::Everyone, local: true },
            SafetyEffect::Deliver { msg: vote(6), wire: Recipients::Peer(nid(2)), local: false },
        ],
    );
    assert_eq!(storage.batches, vec![2]);
}

#[test]
fn updates_at_the_end_are_flushed_too() {
    let actions = || vec![
        SafetyAction::Broadcast(vote(5)),
        SafetyAction::Persist(StateUpdate::VotedInView { view: 5 }),
    ];
    let mut storage = Failing { left: 1, batches: vec![] };
    let (handed, r) = drive(&mut storage, actions());
    assert_eq!((handed.len(), r), (1, Ok(())));
    assert_eq!(storage.batches, vec![1]);
    let mut storage = Failing { left: 0, batches: vec![] };
    let (handed, r) = drive(&mut storage, actions());
    assert_eq!((handed.len(), r), (1, Err(NodeError::Write(Record::SafetyUpdates))));
}
