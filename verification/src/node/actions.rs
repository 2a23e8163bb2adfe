//! Turning what the safety rules ask for into effects, in an order that
//! makes every durable update land before anything that depends on it leaves
//! the node.

use vstd::prelude::*;

use crate::bytes::{same, Bytes32};
use crate::codec::Record;
use crate::digests::{genuine, Digests};
use crate::messages::{ConsensusMsg, SafetyEvent};
use crate::node::audit::histories_of;
use crate::node::consensus_node::{ConsensusNode, NodeView};
use crate::node::error::NodeError;
use crate::node::membership::{
    all_carry_bls, reconfigs_view, reconfigs_wf, rotations_view, ReconfigInput, RotationInput,
};
use crate::node::persist::{batch_writes, remembered, updates_view, StateUpdate};
use crate::node::rebuild::after_block;
use crate::storage::{apply_writes, Storage};
use crate::types::{Block, BlockHash, SignatureSchemeChoice};
use crate::validator_set::{NodeId, ValidatorId};

verus! {

/// What the safety rules ask for.
#[derive(Debug, PartialEq, Eq)]
pub enum SafetyAction {
    /// Make an update durable.
    Persist(StateUpdate),
    /// Say it to everyone.
    Broadcast(ConsensusMsg),
    /// Say it to one replica.
    SendTo(NodeId, ConsensusMsg),
    /// Ask a peer for a block that is missing. `reason` is for logs.
    RequestBlock { hash: BlockHash, peer: NodeId, expected_height: u64, reason: &'static str },
    /// Commit a block.
    Commit(Block),
    /// A validator voted for two blocks in one view.
    EquivocationEvidence { voter: ValidatorId, view: u64, block_a: BlockHash, block_b: BlockHash },
}

/// Where on the network a message goes.
#[derive(Clone, Copy, Debug, PartialEq, Eq)]
pub enum Recipients {
    Everyone,
    Peer(NodeId),
    Nobody,
}

/// What the driver of the node has to do.
#[derive(Debug, PartialEq, Eq)]
pub enum SafetyEffect {
    /// Make the updates durable, all at once, before doing anything else.
    Flush(Vec<StateUpdate>),
    /// Sign a message, send it, and with `local` feed it back as if a peer
    /// had sent it: the network does not deliver to the sender.
    Deliver { msg: ConsensusMsg, wire: Recipients, local: bool },
    RequestBlock { hash: BlockHash, peer: NodeId, expected_height: u64, reason: &'static str },
    Commit(Block),
    Equivocation { voter: ValidatorId, view: u64, block_a: BlockHash, block_b: BlockHash },
}

/// An effect as a value.
pub enum EffectView {
    Flush(Seq<StateUpdate>),
    Deliver { msg: ConsensusMsg, wire: Recipients, local: bool },
    RequestBlock { hash: BlockHash, peer: NodeId, expected_height: u64, reason: &'static str },
    Commit(Block),
    Equivocation { voter: ValidatorId, view: u64, block_a: BlockHash, block_b: BlockHash },
}

impl View for SafetyEffect {
    type V = EffectView;

    open spec fn view(&self) -> EffectView {
        match *self {
            SafetyEffect::Flush(u) => EffectView::Flush(u@),
            SafetyEffect::Deliver { msg, wire, local } => EffectView::Deliver { msg, wire, local },
            SafetyEffect::RequestBlock { hash, peer, expected_height, reason } => EffectView::RequestBlock {
                hash,
                peer,
                expected_height,
                reason,
            },
            SafetyEffect::Commit(b) => EffectView::Commit(b),
            SafetyEffect::Equivocation { voter, view, block_a, block_b } => EffectView::Equivocation {
                voter,
                view,
                block_a,
                block_b,
            },
        }
    }
}

pub open spec fn effects_view(e: Seq<SafetyEffect>) -> Seq<EffectView> {
    Seq::new(e.len(), |i: int| e[i]@)
}

/// The effect of one action other than a durable update. A broadcast is fed
/// back as well as sent; a message to this replica is fed back only; a
/// request to this replica is pointless and dropped.
pub open spec fn effect_of(a: SafetyAction, self_id: NodeId) -> Seq<EffectView> {
    match a {
        SafetyAction::Persist(_) => seq![],
        SafetyAction::Broadcast(msg) => seq![EffectView::Deliver { msg, wire: Recipients::Everyone, local: true }],
        SafetyAction::SendTo(to, msg) => if to == self_id {
            seq![EffectView::Deliver { msg, wire: Recipients::Nobody, local: true }]
        } else {
            seq![EffectView::Deliver { msg, wire: Recipients::Peer(to), local: false }]
        },
        SafetyAction::RequestBlock { hash, peer, expected_height, reason } => if peer == self_id {
            seq![]
        } else {
            seq![EffectView::RequestBlock { hash, peer, expected_height, reason }]
        },
        SafetyAction::Commit(b) => seq![EffectView::Commit(b)],
        SafetyAction::EquivocationEvidence { voter, view, block_a, block_b } => seq![
            EffectView::Equivocation { voter, view, block_a, block_b },
        ],
    }
}

/// The updates that are waiting, as a flush; none where nothing waits.
pub open spec fn flush_of(waiting: Seq<StateUpdate>) -> Seq<EffectView> {
    if waiting.len() == 0 {
        seq![]
    } else {
        seq![EffectView::Flush(waiting)]
    }
}

/// The effects of the actions, with the updates that wait to be flushed.
pub open spec fn plan(actions: Seq<SafetyAction>, waiting: Seq<StateUpdate>, self_id: NodeId) -> Seq<EffectView>
    decreases actions.len(),
{
    if actions.len() == 0 {
        flush_of(waiting)
    } else {
        match actions[0] {
            SafetyAction::Persist(u) => plan(actions.skip(1), waiting.push(u), self_id),
            a => flush_of(waiting) + effect_of(a, self_id) + plan(actions.skip(1), seq![], self_id),
        }
    }
}

/// The durable updates among the actions, in order.
pub open spec fn persists(actions: Seq<SafetyAction>) -> Seq<StateUpdate>
    decreases actions.len(),
{
    if actions.len() == 0 {
        seq![]
    } else {
        match actions[0] {
            SafetyAction::Persist(u) => seq![u] + persists(actions.skip(1)),
            _ => persists(actions.skip(1)),
        }
    }
}

/// The updates that the effects make durable, in order.
pub open spec fn flushed(effects: Seq<EffectView>) -> Seq<StateUpdate>
    decreases effects.len(),
{
    if effects.len() == 0 {
        seq![]
    } else {
        match effects[0] {
            EffectView::Flush(u) => u + flushed(effects.skip(1)),
            _ => flushed(effects.skip(1)),
        }
    }
}

/// Puts the updates that wait into the list of effects.
fn push_flush(out: &mut Vec<SafetyEffect>, waiting: Vec<StateUpdate>)
    ensures
        effects_view(final(out)@) == effects_view(old(out)@) + flush_of(waiting@),
{
    let ghost before = effects_view(out@);
    if waiting.len() > 0 {
        let e = SafetyEffect::Flush(waiting);
        let ghost ev = e@;
        out.push(e);
        assert(effects_view(out@) =~= before.push(ev));
        assert(effects_view(out@) =~= before + flush_of(waiting@));
    } else {
        assert(before + flush_of(waiting@) =~= before);
    }
}

/// What a step of a plan came to: the updates that are durable now, and the
/// effect to perform next, if the step leads up to one.
#[derive(Debug, PartialEq, Eq)]
pub struct Advance {
    pub flushed: Vec<StateUpdate>,
    pub handed: Option<SafetyEffect>,
}

pub open spec fn opt_effect(o: Option<SafetyEffect>) -> Option<EffectView> {
    match o {
        Some(e) => Some(e@),
        None => None,
    }
}

/// A step of a plan.
pub struct PlanStep {
    /// The updates that are made durable.
    pub flushed: Seq<StateUpdate>,
    /// The effect that is handed out after that.
    pub handed: Option<EffectView>,
    /// What is left of the plan.
    pub rest: Seq<EffectView>,
}

/// The next step of a plan: the flush at its front, if there is one, and then
/// the effect that comes next, unless that is another flush.
pub open spec fn next_step(effects: Seq<EffectView>) -> PlanStep {
    let flushes = effects.len() > 0 && effects[0] is Flush;
    let flushed = if flushes {
        effects[0]->Flush_0
    } else {
        seq![]
    };
    let after = if flushes {
        effects.skip(1)
    } else {
        effects
    };
    if after.len() > 0 && !(after[0] is Flush) {
        PlanStep { flushed, handed: Some(after[0]), rest: after.skip(1) }
    } else {
        PlanStep { flushed, handed: None, rest: after }
    }
}

impl ConsensusNode {
    /// The effects of the actions, in the order in which they have to
    /// happen: updates are gathered and flushed before the next action that
    /// is something else, and at the end.
    pub fn plan_safety_actions(&self, actions: Vec<SafetyAction>) -> (r: Vec<SafetyEffect>)
        ensures
            effects_view(r@) == plan(actions@, seq![], self@.self_id),
    {
        let ghost all = plan(actions@, seq![], self.self_id);
        let mut rest = actions;
        let mut waiting: Vec<StateUpdate> = Vec::new();
        let mut out: Vec<SafetyEffect> = Vec::new();
        assert(effects_view(out@) =~= seq![]);
        assert(seq![] + all =~= all);
        while rest.len() > 0
            invariant
                effects_view(out@) + plan(rest@, waiting@, self.self_id) == all,
            decreases rest.len(),
        {
            let ghost seen = rest@;
            let ghost done = effects_view(out@);
            let ghost held = waiting@;
            let action = rest.remove(0);
            assert(rest@ =~= seen.skip(1));
            if let SafetyAction::Persist(u) = action {
                waiting.push(u);
            } else {
                push_flush(&mut out, waiting);
                waiting = Vec::new();
                let ghost mid = effects_view(out@);
                let effect = match action {
                    SafetyAction::Persist(_) => None,
                    SafetyAction::Broadcast(msg) => Some(
                        SafetyEffect::Deliver { msg, wire: Recipients::Everyone, local: true },
                    ),
                    SafetyAction::SendTo(to, msg) => if same(&to, &self.self_id) {
                        Some(SafetyEffect::Deliver { msg, wire: Recipients::Nobody, local: true })
                    } else {
                        Some(SafetyEffect::Deliver { msg, wire: Recipients::Peer(to), local: false })
                    },
                    SafetyAction::RequestBlock { hash, peer, expected_height, reason } => if same(
                        &peer,
                        &self.self_id,
                    ) {
                        None
                    } else {
                        Some(SafetyEffect::RequestBlock { hash, peer, expected_height, reason })
                    },
                    SafetyAction::Commit(block) => Some(SafetyEffect::Commit(block)),
                    SafetyAction::EquivocationEvidence { voter, view, block_a, block_b } => Some(
                        SafetyEffect::Equivocation { voter, view, block_a, block_b },
                    ),
                };
                match effect {
                    Some(e) => {
                        let ghost ev = e@;
                        assert(effect_of(action, self.self_id) =~= seq![ev]);
                        out.push(e);
                        assert(effects_view(out@) =~= mid + seq![ev]);
                    },
                    None => {
                        assert(effect_of(action, self.self_id) =~= seq![]);
                        assert(effects_view(out@) =~= mid + seq![]);
                    },
                }
                proof {
                    let tail = plan(rest@, seq![], self.self_id);
                    assert(waiting@ =~= seq![]);
                    assert(done + (flush_of(held) + effect_of(action, self.self_id) + tail) =~= effects_view(out@)
                        + tail);
                }
            }
        }
        push_flush(&mut out, waiting);
        out
    }

    /// Takes the next step of a plan: makes the updates at its front durable,
    /// and only when that has worked hands out the effect that comes next.
    /// Where the updates cannot be made durable nothing is handed out, now or
    /// later: the rest of the plan is dropped.
    pub fn advance<S: Storage>(&mut self, storage: &mut S, effects: &mut Vec<SafetyEffect>) -> (r: Result<
        Advance,
        NodeError,
    >)
        requires
            old(self).wf(),
        ensures
            final(self).wf(),
            ({
                let step = next_step(effects_view(old(effects)@));
                let u = updates_view(step.flushed);
                match r {
                    Ok(a) => {
                        &&& opt_effect(a.handed) == step.handed
                        &&& a.flushed@ == step.flushed
                        &&& effects_view(final(effects)@) == step.rest
                        &&& final(storage).contents() == apply_writes(
                            old(storage).contents(),
                            batch_writes(u, old(self)@.state.pending_blocks),
                        )
                        &&& final(self)@ == (NodeView {
                            recent_qcs: remembered(old(self)@.recent_qcs, u),
                            ..old(self)@
                        })
                    },
                    Err(e) => {
                        &&& e == NodeError::Write(Record::SafetyUpdates)
                        &&& step.flushed.len() > 0
                        &&& !old(storage).steady()
                        &&& final(effects)@.len() == 0
                        &&& final(storage).contents() == old(storage).contents()
                        &&& final(self)@ == old(self)@
                    },
                }
            }),
    {
        let ghost all = effects_view(effects@);
        let mut flushed: Vec<StateUpdate> = Vec::new();
        if effects.len() > 0 {
            assert(all[0] == effects@[0]@);
            if matches!(effects[0], SafetyEffect::Flush(_)) {
                let ghost seen = effects@;
                let front = effects.remove(0);
                proof {
                    assert(effects_view(effects@) =~= all.skip(1));
                }
                if let SafetyEffect::Flush(u) = front {
                    flushed = u;
                }
            }
        }
        match self.persist_updates(storage, &flushed) {
            Ok(_) => {},
            Err(e) => {
                *effects = Vec::new();
                return Err(e);
            },
        }
        let ghost after = effects_view(effects@);
        let mut handed: Option<SafetyEffect> = None;
        if effects.len() > 0 {
            assert(after[0] == effects@[0]@);
            if !matches!(effects[0], SafetyEffect::Flush(_)) {
                handed = Some(effects.remove(0));
                assert(effects_view(effects@) =~= after.skip(1));
            }
        }
        Ok(Advance { flushed, handed })
    }

    /// One more equivocation was seen.
    pub fn count_equivocation(&mut self)
        requires
            old(self).wf(),
        ensures
            final(self).wf(),
            final(self)@ == (NodeView {
                equivocations_detected: old(self)@.equivocations_detected.wrapping_add(1),
                ..old(self)@
            }),
    {
        self.equivocations_detected = self.equivocations_detected.wrapping_add(1);
    }
}

// ---- laws ----------------------------------------------------------------

proof fn lemma_flushed_concat(a: Seq<EffectView>, b: Seq<EffectView>)
    ensures
        flushed(a + b) == flushed(a) + flushed(b),
    decreases a.len(),
{
    if a.len() == 0 {
        assert(a + b =~= b);
        assert(flushed(a) + flushed(b) =~= flushed(b));
    } else {
        assert((a + b).skip(1) =~= a.skip(1) + b);
        lemma_flushed_concat(a.skip(1), b);
        match a[0] {
            EffectView::Flush(u) => {
                assert(u + (flushed(a.skip(1)) + flushed(b)) =~= u + flushed(a.skip(1)) + flushed(b));
            },
            _ => {},
        }
    }
}

proof fn lemma_flushed_flush(waiting: Seq<StateUpdate>)
    ensures
        flushed(flush_of(waiting)) == waiting,
{
    reveal_with_fuel(flushed, 2);
    if waiting.len() > 0 {
        let f = flush_of(waiting);
        assert(f.skip(1) =~= seq![]);
        assert(waiting + seq![] =~= waiting);
    } else {
        assert(waiting =~= seq![]);
    }
}

proof fn lemma_acts_do_not_flush(a: SafetyAction, self_id: NodeId)
    ensures
        flushed(effect_of(a, self_id)) == Seq::<StateUpdate>::empty(),
{
    reveal_with_fuel(flushed, 2);
    let e = effect_of(a, self_id);
    if e.len() > 0 {
        assert(e.skip(1) =~= seq![]);
    }
}

proof fn lemma_all_flushed(actions: Seq<SafetyAction>, waiting: Seq<StateUpdate>, self_id: NodeId)
    ensures
        flushed(plan(actions, waiting, self_id)) == waiting + persists(actions),
    decreases actions.len(),
{
    lemma_flushed_flush(waiting);
    if actions.len() == 0 {
        assert(waiting + seq![] =~= waiting);
    } else {
        let rest = actions.skip(1);
        match actions[0] {
            SafetyAction::Persist(u) => {
                lemma_all_flushed(rest, waiting.push(u), self_id);
                assert(waiting.push(u) + persists(rest) =~= waiting + (seq![u] + persists(rest)));
            },
            a => {
                lemma_all_flushed(rest, seq![], self_id);
                lemma_acts_do_not_flush(a, self_id);
                let tail = plan(rest, seq![], self_id);
                lemma_flushed_concat(flush_of(waiting) + effect_of(a, self_id), tail);
                lemma_flushed_concat(flush_of(waiting), effect_of(a, self_id));
                assert(waiting + seq![] + (seq![] + persists(rest)) =~= waiting + persists(rest));
            },
        }
    }
}

/// Every durable update is flushed, once and in order.
pub proof fn every_update_is_flushed_in_order(actions: Seq<SafetyAction>, self_id: NodeId)
    ensures
        flushed(plan(actions, seq![], self_id)) == persists(actions),
{
    lemma_all_flushed(actions, seq![], self_id);
    assert(seq![] + persists(actions) =~= persists(actions));
}

proof fn lemma_split(
    before: Seq<SafetyAction>,
    a: SafetyAction,
    after: Seq<SafetyAction>,
    waiting: Seq<StateUpdate>,
    self_id: NodeId,
) -> (head: Seq<EffectView>)
    requires
        !(a is Persist),
    ensures
        plan(before + seq![a] + after, waiting, self_id) == head + effect_of(a, self_id) + plan(after, seq![], self_id),
        flushed(head) == waiting + persists(before),
    decreases before.len(),
{
    let whole = before + seq![a] + after;
    if before.len() == 0 {
        assert(whole[0] == a);
        assert(whole.skip(1) =~= after);
        lemma_flushed_flush(waiting);
        assert(waiting + persists(before) =~= waiting);
        flush_of(waiting)
    } else {
        let rest = before.skip(1);
        assert(whole[0] == before[0]);
        assert(whole.skip(1) =~= rest + seq![a] + after);
        match before[0] {
            SafetyAction::Persist(u) => {
                let head = lemma_split(rest, a, after, waiting.push(u), self_id);
                assert(waiting.push(u) + persists(rest) =~= waiting + (seq![u] + persists(rest)));
                head
            },
            b => {
                let tail = lemma_split(rest, a, after, seq![], self_id);
                let first = flush_of(waiting) + effect_of(b, self_id);
                let head = first + tail;
                let end = effect_of(a, self_id);
                let last = plan(after, seq![], self_id);
                assert(first + (tail + end + last) =~= head + end + last);
                lemma_flushed_concat(first, tail);
                lemma_flushed_concat(flush_of(waiting), effect_of(b, self_id));
                lemma_flushed_flush(waiting);
                lemma_acts_do_not_flush(b, self_id);
                assert(waiting + seq![] + (seq![] + persists(rest)) =~= waiting + persists(rest));
                head
            },
        }
    }
}

/// Nothing leaves the node before the updates that were asked for ahead of
/// it are durable: when the effect of an action comes up, exactly the
/// updates that precede the action have been flushed.
pub proof fn updates_are_durable_before_anything_leaves(
    before: Seq<SafetyAction>,
    a: SafetyAction,
    after: Seq<SafetyAction>,
    self_id: NodeId,
)
    requires
        !(a is Persist),
    ensures
        exists|head: Seq<EffectView>|
            {
                &&& #[trigger] flushed(head) == persists(before)
                &&& plan(before + seq![a] + after, seq![], self_id) == head + effect_of(a, self_id) + plan(
                    after,
                    seq![],
                    self_id,
                )
            },
{
    let head = lemma_split(before, a, after, seq![], self_id);
    assert(seq![] + persists(before) =~= persists(before));
    assert(flushed(head) == persists(before));
}

/// The effects that are handed out, step by step, where all flushes work but
/// the one with number `failing`. From that one on there is nothing.
pub open spec fn handed_out(effects: Seq<EffectView>, failing: nat) -> Seq<EffectView>
    decreases effects.len(),
{
    let step = next_step(effects);
    if effects.len() == 0 {
        seq![]
    } else if step.flushed.len() > 0 && failing == 0 {
        seq![]
    } else {
        let first = match step.handed {
            Some(e) => seq![e],
            None => seq![],
        };
        first + handed_out(
            step.rest,
            if step.flushed.len() > 0 {
                (failing - 1) as nat
            } else {
                failing
            },
        )
    }
}

/// The effects other than flushes, in order.
pub open spec fn outward(effects: Seq<EffectView>) -> Seq<EffectView>
    decreases effects.len(),
{
    if effects.len() == 0 {
        seq![]
    } else if effects[0] is Flush {
        outward(effects.skip(1))
    } else {
        seq![effects[0]] + outward(effects.skip(1))
    }
}

/// How many flushes there are.
pub open spec fn flush_count(effects: Seq<EffectView>) -> nat
    decreases effects.len(),
{
    if effects.len() == 0 {
        0
    } else {
        flush_count(effects.skip(1)) + (if effects[0] is Flush {
            1nat
        } else {
            0nat
        })
    }
}

/// Nothing is flushed that is empty.
pub open spec fn flushes_something(effects: Seq<EffectView>) -> bool {
    forall|i: int| 0 <= i < effects.len() ==> (#[trigger] effects[i] matches EffectView::Flush(u) ==> u.len() > 0)
}

proof fn lemma_plan_flushes_something(actions: Seq<SafetyAction>, waiting: Seq<StateUpdate>, self_id: NodeId)
    ensures
        flushes_something(plan(actions, waiting, self_id)),
    decreases actions.len(),
{
    if actions.len() > 0 {
        match actions[0] {
            SafetyAction::Persist(u) => {
                lemma_plan_flushes_something(actions.skip(1), waiting.push(u), self_id);
            },
            a => {
                lemma_plan_flushes_something(actions.skip(1), seq![], self_id);
            },
        }
    }
}

/// Where the flush after `head` fails, what is handed out is what comes in
/// `head`.
proof fn lemma_handed_before_failure(head: Seq<EffectView>, u: Seq<StateUpdate>, tail: Seq<EffectView>)
    requires
        flushes_something(head),
        u.len() > 0,
    ensures
        handed_out(head + seq![EffectView::Flush(u)] + tail, flush_count(head)) == outward(head),
    decreases head.len(),
{
    let all = head + seq![EffectView::Flush(u)] + tail;
    if head.len() == 0 {
        assert(all[0] == EffectView::Flush(u));
    } else {
        let rest = head.skip(1);
        assert(all[0] == head[0]);
        assert(all.skip(1) =~= rest + seq![EffectView::Flush(u)] + tail);
        assert forall|i: int| 0 <= i < rest.len() implies (#[trigger] rest[i] matches EffectView::Flush(w) ==> w.len()
            > 0) by {
            assert(rest[i] == head[i + 1]);
        }
        lemma_handed_before_failure(rest, u, tail);
        if head[0] is Flush {
            if rest.len() > 0 && !(rest[0] is Flush) {
                let more = rest.skip(1);
                let after = all.skip(1);
                assert(after[0] == rest[0]);
                assert(after.skip(1) =~= more + seq![EffectView::Flush(u)] + tail);
                assert forall|i: int| 0 <= i < more.len() implies (#[trigger] more[i] matches EffectView::Flush(w)
                    ==> w.len() > 0) by {
                    assert(more[i] == head[i + 2]);
                }
                lemma_handed_before_failure(more, u, tail);
            } else {
                assert(all.skip(1)[0] is Flush);
                assert(seq![] + outward(rest) =~= outward(rest));
            }
        }
    }
}

proof fn lemma_all_handed_out(effects: Seq<EffectView>, failing: nat)
    requires
        flushes_something(effects),
        failing >= flush_count(effects),
    ensures
        handed_out(effects, failing) == outward(effects),
    decreases effects.len(),
{
    if effects.len() > 0 {
        let step = next_step(effects);
        reveal_with_fuel(flush_count, 3);
        reveal_with_fuel(outward, 3);
        assert(effects[0] is Flush ==> step.flushed.len() > 0);
        assert forall|i: int| 0 <= i < step.rest.len() implies (#[trigger] step.rest[i] matches EffectView::Flush(w)
            ==> w.len() > 0) by {
            let k = effects.len() - step.rest.len();
            assert(step.rest[i] == effects[i + k]);
        }
        lemma_all_handed_out(
            step.rest,
            if step.flushed.len() > 0 {
                (failing - 1) as nat
            } else {
                failing
            },
        );
        if step.handed is None {
            assert(seq![] + outward(step.rest) =~= outward(step.rest));
        }
    }
}

/// Where every flush works, every effect of the plan is handed out, once and
/// in order.
pub proof fn every_effect_is_handed_out(actions: Seq<SafetyAction>, self_id: NodeId)
    ensures
        ({
            let p = plan(actions, seq![], self_id);
            forall|failing: nat| failing >= flush_count(p) ==> #[trigger] handed_out(p, failing) == outward(p)
        }),
{
    let p = plan(actions, seq![], self_id);
    lemma_plan_flushes_something(actions, seq![], self_id);
    assert forall|failing: nat| failing >= flush_count(p) implies #[trigger] handed_out(p, failing) == outward(p) by {
        lemma_all_handed_out(p, failing);
    }
}

/// The actions that ask for these updates.
pub open spec fn asking(updates: Seq<StateUpdate>) -> Seq<SafetyAction> {
    Seq::new(updates.len(), |i: int| SafetyAction::Persist(updates[i]))
}

proof fn lemma_plan_waiting(updates: Seq<StateUpdate>, after: Seq<SafetyAction>, waiting: Seq<StateUpdate>, self_id: NodeId)
    ensures
        plan(asking(updates) + after, waiting, self_id) == plan(after, waiting + updates, self_id),
    decreases updates.len(),
{
    let all = asking(updates) + after;
    if updates.len() == 0 {
        assert(all =~= after);
        assert(waiting + updates =~= waiting);
    } else {
        assert(all[0] == SafetyAction::Persist(updates[0]));
        assert(all.skip(1) =~= asking(updates.skip(1)) + after);
        assert(waiting.push(updates[0]) + updates.skip(1) =~= waiting + updates);
        lemma_plan_waiting(updates.skip(1), after, waiting.push(updates[0]), self_id);
    }
}

proof fn lemma_plan_run(updates: Seq<StateUpdate>, after: Seq<SafetyAction>, self_id: NodeId)
    requires
        updates.len() > 0,
        after.len() > 0 ==> !(after[0] is Persist),
    ensures
        plan(asking(updates) + after, seq![], self_id) == seq![EffectView::Flush(updates)] + plan(
            after,
            seq![],
            self_id,
        ),
{
    lemma_plan_waiting(updates, after, seq![], self_id);
    assert(seq![] + updates =~= updates);
    if after.len() == 0 {
        let none: Seq<StateUpdate> = seq![];
        assert(flush_of(none) =~= seq![]);
        assert(seq![EffectView::Flush(updates)] + plan(after, seq![], self_id) =~= flush_of(updates));
    } else {
        let e = effect_of(after[0], self_id);
        let tail = plan(after.skip(1), seq![], self_id);
        let none: Seq<StateUpdate> = seq![];
        assert(flush_of(none) + e + tail =~= e + tail);
        assert(seq![EffectView::Flush(updates)] + (e + tail) =~= flush_of(updates) + e + tail);
    }
}

proof fn lemma_plan_concat(
    before: Seq<SafetyAction>,
    after: Seq<SafetyAction>,
    waiting: Seq<StateUpdate>,
    self_id: NodeId,
)
    requires
        before.len() > 0 ==> !(before.last() is Persist),
        before.len() == 0 ==> waiting.len() == 0,
    ensures
        plan(before + after, waiting, self_id) == plan(before, waiting, self_id) + plan(after, seq![], self_id),
    decreases before.len(),
{
    let all = before + after;
    if before.len() == 0 {
        assert(all =~= after);
        assert(waiting =~= seq![]);
        assert(seq![] + plan(after, seq![], self_id) =~= plan(after, seq![], self_id));
    } else {
        let rest = before.skip(1);
        assert(all[0] == before[0]);
        assert(all.skip(1) =~= rest + after);
        if rest.len() > 0 {
            assert(rest.last() == before.last());
        } else {
            assert(before[0] == before.last());
        }
        match before[0] {
            SafetyAction::Persist(u) => {
                lemma_plan_concat(rest, after, waiting.push(u), self_id);
            },
            a => {
                lemma_plan_concat(rest, after, seq![], self_id);
                let first = flush_of(waiting) + effect_of(a, self_id);
                let mid = plan(rest, seq![], self_id);
                let tail = plan(after, seq![], self_id);
                assert(first + (mid + tail) =~= first + mid + tail);
            },
        }
    }
}

/// A flush that fails stops the action behind it and every later one.
///
/// `updates` are the updates that are asked for directly before the first of
/// `after`, or at the very end where `after` is empty. They are one flush, in
/// order, ahead of anything that comes of `after`. If that flush fails, what
/// was handed out is what came of `before`, and no more.
pub proof fn a_failed_flush_stops_what_follows(
    before: Seq<SafetyAction>,
    updates: Seq<StateUpdate>,
    after: Seq<SafetyAction>,
    self_id: NodeId,
)
    requires
        before.len() > 0 ==> !(before.last() is Persist),
        updates.len() > 0,
        after.len() > 0 ==> !(after[0] is Persist),
    ensures
        ({
            let head = plan(before, seq![], self_id);
            let all = plan(before + (asking(updates) + after), seq![], self_id);
            &&& all == head + seq![EffectView::Flush(updates)] + plan(after, seq![], self_id)
            &&& handed_out(all, flush_count(head)) == outward(head)
        }),
{
    let head = plan(before, seq![], self_id);
    let tail = plan(after, seq![], self_id);
    lemma_plan_concat(before, asking(updates) + after, seq![], self_id);
    lemma_plan_run(updates, after, self_id);
    assert(head + (seq![EffectView::Flush(updates)] + tail) =~= head + seq![EffectView::Flush(updates)] + tail);
    lemma_plan_flushes_something(before, seq![], self_id);
    lemma_handed_before_failure(head, updates, tail);
}

/// A broadcast also reaches the replica that makes it, and what a replica
/// sends to itself stays off the network.
pub proof fn own_messages_come_back(msg: ConsensusMsg, to: NodeId, self_id: NodeId)
    ensures
        effect_of(SafetyAction::Broadcast(msg), self_id) == seq![
            EffectView::Deliver { msg, wire: Recipients::Everyone, local: true },
        ],
        to == self_id ==> effect_of(SafetyAction::SendTo(to, msg), self_id) == seq![
            EffectView::Deliver { msg, wire: Recipients::Nobody, local: true },
        ],
        to != self_id ==> effect_of(SafetyAction::SendTo(to, msg), self_id) == seq![
            EffectView::Deliver { msg, wire: Recipients::Peer(to), local: false },
        ],
{
}

// ---- what a step of the safety rules amounted to ------------------------

/// What the log says of a step of the safety rules.
#[derive(Clone, Copy, Debug, PartialEq, Eq)]
pub enum StepSummary {
    /// A proposal came: the replica voted, or asked for a missing parent.
    Proposal { proposer: NodeId, view: u64, height: u64, voted: bool, parked: bool },
    /// A vote came: it completed a certificate, and the next block went out.
    Vote { voter: NodeId, view: u64, formed_qc: bool },
    NewView { sender: NodeId, high_qc_view: u64 },
    /// Nothing worth a line.
    Silent,
}

/// The part of the summary that is known before the step.
#[derive(Clone, Copy, Debug, PartialEq, Eq)]
pub enum StepContext {
    Proposal { proposer: NodeId, view: u64, height: u64 },
    Vote { voter: NodeId, view: u64 },
    NewView { sender: NodeId, high_qc_view: u64 },
    Silent,
}

/// What to remember of an event before the safety rules consume it.
pub fn step_context(ev: &SafetyEvent) -> (r: StepContext)
    ensures
        r == match *ev {
            SafetyEvent::ProposalReceived(s) => StepContext::Proposal {
                proposer: s.signer,
                view: s.payload.block.header.view,
                height: s.payload.block.header.height,
            },
            SafetyEvent::VoteReceived(s) => StepContext::Vote { voter: s.signer, view: s.payload.view },
            SafetyEvent::NewViewReceived(s) => StepContext::NewView {
                sender: s.signer,
                high_qc_view: s.payload.high_qc.view,
            },
            SafetyEvent::PacemakerAdvance(_) => StepContext::Silent,
        },
{
    match ev {
        SafetyEvent::ProposalReceived(s) => StepContext::Proposal {
            proposer: s.signer,
            view: s.payload.block.header.view,
            height: s.payload.block.header.height,
        },
        SafetyEvent::VoteReceived(s) => StepContext::Vote { voter: s.signer, view: s.payload.view },
        SafetyEvent::NewViewReceived(s) => StepContext::NewView {
            sender: s.signer,
            high_qc_view: s.payload.high_qc.view,
        },
        SafetyEvent::PacemakerAdvance(_) => StepContext::Silent,
    }
}

pub open spec fn casts_vote(a: SafetyAction) -> bool {
    a matches SafetyAction::Broadcast(ConsensusMsg::Vote(_))
}

pub open spec fn proposes(a: SafetyAction) -> bool {
    a matches SafetyAction::Broadcast(ConsensusMsg::Proposal(_))
}

pub open spec fn asks_for_block(a: SafetyAction) -> bool {
    a is RequestBlock
}

pub open spec fn some_action(actions: Seq<SafetyAction>, p: spec_fn(SafetyAction) -> bool) -> bool {
    exists|i: int| 0 <= i < actions.len() && p(#[trigger] actions[i])
}

/// What a step amounted to, from what was known before and the actions that
/// it led to.
pub open spec fn summary(ctx: StepContext, actions: Seq<SafetyAction>) -> StepSummary {
    match ctx {
        StepContext::Proposal { proposer, view, height } => StepSummary::Proposal {
            proposer,
            view,
            height,
            voted: some_action(actions, |a: SafetyAction| casts_vote(a)),
            parked: some_action(actions, |a: SafetyAction| asks_for_block(a)),
        },
        StepContext::Vote { voter, view } => StepSummary::Vote {
            voter,
            view,
            formed_qc: some_action(actions, |a: SafetyAction| proposes(a)),
        },
        StepContext::NewView { sender, high_qc_view } => StepSummary::NewView { sender, high_qc_view },
        StepContext::Silent => StepSummary::Silent,
    }
}

/// Sums up a step for the log.
pub fn summarize_step(ctx: StepContext, actions: &Vec<SafetyAction>) -> (r: StepSummary)
    ensures
        r == summary(ctx, actions@),
{
    let mut voted = false;
    let mut proposed = false;
    let mut parked = false;
    let ghost v = |a: SafetyAction| casts_vote(a);
    let ghost p = |a: SafetyAction| proposes(a);
    let ghost q = |a: SafetyAction| asks_for_block(a);
    let mut i: usize = 0;
    assert(actions@.take(0) =~= seq![]);
    while i < actions.len()
        invariant
            i <= actions.len(),
            v == (|a: SafetyAction| casts_vote(a)),
            p == (|a: SafetyAction| proposes(a)),
            q == (|a: SafetyAction| asks_for_block(a)),
            voted == exists|k: int| 0 <= k < i && v(#[trigger] actions@[k]),
            proposed == exists|k: int| 0 <= k < i && p(#[trigger] actions@[k]),
            parked == exists|k: int| 0 <= k < i && q(#[trigger] actions@[k]),
        decreases actions.len() - i,
    {
        let ghost a = actions@[i as int];
        match &actions[i] {
            SafetyAction::Broadcast(ConsensusMsg::Vote(_)) => {
                voted = true;
                assert(v(actions@[i as int]));
            },
            SafetyAction::Broadcast(ConsensusMsg::Proposal(_)) => {
                proposed = true;
                assert(p(actions@[i as int]));
            },
            SafetyAction::RequestBlock { .. } => {
                parked = true;
                assert(q(actions@[i as int]));
            },
            _ => {},
        }
        i = i + 1;
    }
    match ctx {
        StepContext::Proposal { proposer, view, height } => StepSummary::Proposal {
            proposer,
            view,
            height,
            voted,
            parked,
        },
        StepContext::Vote { voter, view } => StepSummary::Vote { voter, view, formed_qc: proposed },
        StepContext::NewView { sender, high_qc_view } => StepSummary::NewView { sender, high_qc_view },
        StepContext::Silent => StepSummary::Silent,
    }
}

/// A message with the commitment to the histories after its block filled in.
/// `hash` is the content hash of the block so completed. Messages other than
/// proposals stay as they are.
pub fn stamped(msg: ConsensusMsg, commitment: Bytes32, hash: BlockHash) -> (r: ConsensusMsg)
    ensures
        match msg {
            ConsensusMsg::Proposal(p) => {
                &&& r is Proposal
                &&& r->Proposal_0.justify == p.justify
                &&& r->Proposal_0.block.commands == p.block.commands
                &&& r->Proposal_0.block.hash == hash
                &&& r->Proposal_0.block.header == (crate::types::BlockHeader {
                    validator_history_commitment: commitment,
                    ..p.block.header
                })
            },
            _ => r == msg,
        },
{
    match msg {
        ConsensusMsg::Proposal(p) => {
            let mut p = p;
            p.block.header.validator_history_commitment = commitment;
            p.block.hash = hash;
            ConsensusMsg::Proposal(p)
        },
        m => m,
    }
}

impl ConsensusNode {
    /// A message as it leaves the node. A proposal commits to the histories
    /// that its block leads to, given what the commands of the block ask for,
    /// and the block goes by the hash of what it then says. Other messages
    /// stay as they are.
    pub fn stamp<D: Digests>(
        &self,
        digests: &D,
        msg: ConsensusMsg,
        reconfigs: &Vec<ReconfigInput>,
        rotations: &Vec<RotationInput>,
    ) -> (r: ConsensusMsg)
        requires
            self.wf(),
            msg is Proposal ==> {
                &&& reconfigs_wf(reconfigs@)
                &&& all_carry_bls(rotations_view(rotations@), self.signature_scheme)
                &&& self.signature_scheme == SignatureSchemeChoice::BlsAggregated ==> self.bls_key_history is Some
            },
        ensures
            match msg {
                ConsensusMsg::Proposal(p) => {
                    &&& r is Proposal
                    &&& r->Proposal_0.justify == p.justify
                    &&& r->Proposal_0.block.commands == p.block.commands
                    &&& r->Proposal_0.block.header == (crate::types::BlockHeader {
                        validator_history_commitment: digests.history_digest(
                            after_block(
                                histories_of(self@),
                                self@.signature_scheme,
                                self@.min_v_eff_delay,
                                p.block.header.view,
                                reconfigs_view(reconfigs@),
                                rotations_view(rotations@),
                            ),
                        ),
                        ..p.block.header
                    })
                    &&& genuine(digests, r->Proposal_0.block@)
                },
                _ => r == msg,
            },
    {
        match msg {
            ConsensusMsg::Proposal(p) => {
                let after = self.post_block_histories(p.block.header.view, reconfigs, rotations);
                let commitment = digests.commit_histories(&after);
                let mut header = p.block.header;
                header.validator_history_commitment = commitment;
                let hash = digests.hash_block(&header, &p.block.commands);
                stamped(ConsensusMsg::Proposal(p), commitment, hash)
            },
            m => m,
        }
    }
}

} // verus!
