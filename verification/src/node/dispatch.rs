//! What the node does about each input: messages that have been verified,
//! peers that come and go, the view timer.

use vstd::prelude::*;

use crate::bytes::same;
use crate::digests::{genuine, sealed, Digests};
use crate::messages::SafetyEvent;
use crate::node::admission::Admission;
use crate::node::consensus_node::{ConsensusNode, NodeView};
use crate::node::driving::{after_timeout_vote, steps_view, timeout_steps, TimeoutStep};
use crate::node::error::NodeError;
use crate::node::recovery::{load_block_from_storage, opt_block, read_block};
use crate::node::snapshot::SnapshotManifest;
use crate::node::timeouts::contains_id;
use crate::pacemaker::state_machine::{advance_target, next_state, step_actions, Action, Event};
use crate::state::StateView;
use crate::storage::{block_key, lookup, Storage};
use crate::types::{Block, BlockHash, BlockView, TimeoutVote};
use crate::validator_set::NodeId;

verus! {

/// An input that has passed all checks on the way in.
#[allow(inconsistent_fields)]
#[derive(Debug)]
pub enum Dispatch {
    /// For the safety rules.
    Safety(SafetyEvent),
    /// For the pacemaker.
    Pacemaker(Event),
    /// A peer asks for a block.
    ServeBlock { hash: BlockHash, to: NodeId },
    /// A peer answers a request for a block.
    ReceiveBlock { requested_hash: BlockHash, block: Option<Block>, from: NodeId },
    /// A timeout vote; whether its certificate was verified.
    TimeoutVote { signer: NodeId, vote: TimeoutVote, high_qc_trusted: bool },
    /// A peer asks for the manifest of a snapshot, the latest or one.
    ServeSnapshotManifest { height: Option<u64>, to: NodeId },
    /// A peer asks for a piece of a snapshot.
    ServeSnapshotChunk { height: u64, chunk_idx: u32, to: NodeId },
    /// A peer answers a request for a manifest.
    ReceiveSnapshotManifest { manifest: Option<SnapshotManifest>, from: NodeId },
    /// A peer answers a request for a piece of a snapshot.
    ReceiveSnapshotChunk { height: u64, chunk_idx: u32, payload: Option<Vec<u8>>, from: NodeId },
}

/// Where a block was found.
#[derive(Clone, Copy, Debug, PartialEq, Eq, Structural)]
pub enum BlockSource {
    Pending,
    Storage,
    Nowhere,
    /// The store could not be read, or what it holds cannot.
    Unreadable,
}

/// Why the answer to a request for a block was dropped.
#[derive(Clone, Copy, Debug, PartialEq, Eq, Structural)]
pub enum BlockDrop {
    /// It is not the block that the answer is about.
    HashMismatch,
    /// Nobody asked.
    Unrequested,
    /// The peer does not have it.
    NotFound,
}

/// How far a proposal is ahead of what this replica has committed.
#[derive(Clone, Copy, Debug, PartialEq, Eq)]
pub struct LagHint {
    pub committed_height: u64,
    pub proposal_height: u64,
    pub proposer: NodeId,
}

/// What the driver has to do about an input.
#[allow(inconsistent_fields)]
#[derive(Debug)]
pub enum DispatchStep {
    /// Let snapshot sync see how far behind the node is, where there is a
    /// hint, and then step the safety rules.
    StepSafety { event: SafetyEvent, lag: Option<LagHint> },
    /// Perform the actions of the pacemaker.
    Pacemaker(Vec<Action>),
    /// Answer a request for a block.
    SendBlock { hash: BlockHash, block: Option<Block>, to: NodeId, source: BlockSource },
    /// A block that was asked for is there: let the safety rules look again.
    BlockArrived { hash: BlockHash, current_view: u64 },
    BlockDropped(BlockDrop),
    /// Perform the steps that a timeout vote calls for.
    Timeout(Vec<TimeoutStep>),
    /// Look up a manifest and answer.
    SendManifest { height: Option<u64>, to: NodeId },
    /// Look up a piece of a snapshot and answer.
    SendChunk { height: u64, chunk_idx: u32, to: NodeId },
    /// Hand a manifest to snapshot sync.
    ManifestArrived { manifest: Option<SnapshotManifest>, from: NodeId },
    /// Hand a piece of a snapshot to snapshot sync.
    ChunkArrived { height: u64, chunk_idx: u32, payload: Option<Vec<u8>>, from: NodeId },
}

/// The hint that an event gives of how far the node is behind.
pub open spec fn lag_of(event: SafetyEvent, committed_height: u64) -> Option<LagHint> {
    match event {
        SafetyEvent::ProposalReceived(s) => Some(
            LagHint {
                committed_height,
                proposal_height: s.payload.block.header.height,
                proposer: s.signer,
            },
        ),
        _ => None,
    }
}

/// The answer to a request for a block: from the pending blocks, or else
/// from the store.
pub open spec fn serves<D: Digests>(
    digests: &D,
    n: NodeView,
    m: Map<Seq<u8>, Seq<u8>>,
    steady: bool,
    hash: BlockHash,
    block: Option<BlockView>,
    source: BlockSource,
) -> bool {
    if n.state.pending_blocks.contains_key(hash) {
        source == BlockSource::Pending && block == Some(n.state.pending_blocks[hash])
    } else {
        match source {
            BlockSource::Pending => false,
            BlockSource::Storage => block is Some && read_block(digests, lookup(m, block_key(hash))) == Ok::<
                Option<BlockView>,
                NodeError,
            >(block),
            BlockSource::Nowhere => block is None && read_block(digests, lookup(m, block_key(hash))) == Ok::<
                Option<BlockView>,
                NodeError,
            >(None),
            BlockSource::Unreadable => block is None && (steady ==> read_block(digests, lookup(m, block_key(hash))) is Err),
        }
    }
}

/// What becomes of the answer to a request for a block. The block that came
/// goes by the hash of its content, whatever hash it came with.
pub open spec fn block_verdict<D: Digests>(
    digests: &D,
    n: NodeView,
    requested: BlockHash,
    block: Option<Block>,
) -> Option<BlockDrop> {
    match block {
        None => Some(BlockDrop::NotFound),
        Some(b) => if digests.block_digest(b@.content()) != requested {
            Some(BlockDrop::HashMismatch)
        } else if !n.block_sync_inflight.contains(requested) {
            Some(BlockDrop::Unrequested)
        } else {
            None
        },
    }
}

pub open spec fn other_than(hash: BlockHash) -> spec_fn(BlockHash) -> bool {
    |h: BlockHash| h != hash
}

/// The requests that are left when `hash` has been answered.
pub open spec fn answered(inflight: Seq<BlockHash>, hash: BlockHash) -> Seq<BlockHash> {
    inflight.filter(other_than(hash))
}

/// The node after the answer to a request for a block.
pub open spec fn after_block_response<D: Digests>(
    digests: &D,
    n: NodeView,
    requested: BlockHash,
    block: Option<Block>,
) -> NodeView {
    if block_verdict(digests, n, requested, block) is None {
        NodeView {
            state: StateView {
                pending_blocks: n.state.pending_blocks.insert(requested, sealed(digests, block->0@.content())),
                ..n.state
            },
            block_sync_inflight: answered(n.block_sync_inflight, requested),
            ..n
        }
    } else {
        n
    }
}

/// The node after an input.
pub open spec fn after_dispatch<D: Digests>(digests: &D, n: NodeView, d: Dispatch) -> NodeView {
    match d {
        Dispatch::Pacemaker(ev) => NodeView { pacemaker: next_state(n.pacemaker, ev), ..n },
        Dispatch::ReceiveBlock { requested_hash, block, .. } => after_block_response(
            digests,
            n,
            requested_hash,
            block,
        ),
        Dispatch::TimeoutVote { signer, vote, high_qc_trusted } => after_timeout_vote(
            n,
            signer,
            vote@,
            high_qc_trusted,
        ),
        _ => n,
    }
}

/// `r` is what the driver has to do about the input.
pub open spec fn dispatched<D: Digests>(
    digests: &D,
    pre: &ConsensusNode,
    m: Map<Seq<u8>, Seq<u8>>,
    steady: bool,
    d: Dispatch,
    r: DispatchStep,
) -> bool {
    let n = pre@;
    match d {
        Dispatch::Safety(event) => r == (DispatchStep::StepSafety {
            event,
            lag: lag_of(event, n.last_committed_height),
        }),
        Dispatch::Pacemaker(ev) => r matches DispatchStep::Pacemaker(a) && a@ == step_actions(&pre.pacemaker, ev),
        Dispatch::ServeBlock { hash, to } => r matches DispatchStep::SendBlock { hash: h, block, to: t, source } && h
            == hash && t == to && serves(digests, n, m, steady, hash, opt_block(block), source),
        Dispatch::ReceiveBlock { requested_hash, block, .. } => match block_verdict(
            digests,
            n,
            requested_hash,
            block,
        ) {
            Some(why) => r == DispatchStep::BlockDropped(why),
            None => r == (DispatchStep::BlockArrived {
                hash: requested_hash,
                current_view: n.pacemaker.current_view,
            }),
        },
        Dispatch::TimeoutVote { signer, vote, high_qc_trusted } => r matches DispatchStep::Timeout(s) && steps_view(s@)
            == timeout_steps(n, signer, vote@, high_qc_trusted),
        Dispatch::ServeSnapshotManifest { height, to } => r == (DispatchStep::SendManifest { height, to }),
        Dispatch::ServeSnapshotChunk { height, chunk_idx, to } => r == (DispatchStep::SendChunk {
            height,
            chunk_idx,
            to,
        }),
        Dispatch::ReceiveSnapshotManifest { manifest, from } => r == (DispatchStep::ManifestArrived {
            manifest,
            from,
        }),
        Dispatch::ReceiveSnapshotChunk { height, chunk_idx, payload, from } => r == (DispatchStep::ChunkArrived {
            height,
            chunk_idx,
            payload,
            from,
        }),
    }
}

impl ConsensusNode {
    /// The answer to a request for a block. A block that this replica has
    /// committed is served from the store, even if it was committed before
    /// the replica started.
    pub fn serve_block<S: Storage, D: Digests>(&self, storage: &S, digests: &D, hash: &BlockHash) -> (r: (
        Option<Block>,
        BlockSource,
    ))
        requires
            self.wf(),
        ensures
            serves(digests, self@, storage.contents(), storage.steady(), *hash, opt_block(r.0), r.1),
    {
        if let Some(b) = self.state.pending_blocks.get(hash) {
            return (Some(b.copy()), BlockSource::Pending);
        }
        match load_block_from_storage(storage, digests, hash) {
            Ok(Some(b)) => (Some(b), BlockSource::Storage),
            Ok(None) => (None, BlockSource::Nowhere),
            Err(_) => (None, BlockSource::Unreadable),
        }
    }

    /// A block has been asked for.
    pub fn block_requested(&mut self, hash: BlockHash)
        requires
            old(self).wf(),
        ensures
            final(self).wf(),
            final(self)@ == (NodeView {
                block_sync_inflight: if old(self)@.block_sync_inflight.contains(hash) {
                    old(self)@.block_sync_inflight
                } else {
                    old(self)@.block_sync_inflight.push(hash)
                },
                ..old(self)@
            }),
    {
        if !contains_id(&self.block_sync_inflight, &hash) {
            self.block_sync_inflight.push(hash);
        }
    }

    /// Takes in the answer to a request for a block. Only the block that was
    /// asked for is filed, going by the hash of its content; everything else
    /// is dropped, and the request stays open.
    pub fn receive_block<D: Digests>(
        &mut self,
        digests: &D,
        requested_hash: BlockHash,
        block: Option<Block>,
    ) -> (r: Option<BlockDrop>)
        requires
            old(self).wf(),
        ensures
            final(self).wf(),
            r == block_verdict(digests, old(self)@, requested_hash, block),
            final(self)@ == after_block_response(digests, old(self)@, requested_hash, block),
    {
        let ghost n = self@;
        let b = match block {
            Some(b) => b,
            None => {
                return Some(BlockDrop::NotFound);
            },
        };
        let hash = digests.hash_block(&b.header, &b.commands);
        if !same(&hash, &requested_hash) {
            return Some(BlockDrop::HashMismatch);
        }
        if !contains_id(&self.block_sync_inflight, &requested_hash) {
            return Some(BlockDrop::Unrequested);
        }
        self.state.insert_pending(Block { header: b.header, commands: b.commands, hash });
        let mut left: Vec<BlockHash> = Vec::new();
        let ghost p = other_than(requested_hash);
        let mut i: usize = 0;
        while i < self.block_sync_inflight.len()
            invariant
                i <= self.block_sync_inflight.len(),
                p == other_than(requested_hash),
                left@ == self.block_sync_inflight@.take(i as int).filter(p),
            decreases self.block_sync_inflight.len() - i,
        {
            let h = self.block_sync_inflight[i];
            let ghost s = self.block_sync_inflight@;
            proof {
                reveal(Seq::filter);
                assert(s.take(i + 1).drop_last() =~= s.take(i as int));
                assert(s.take(i + 1).last() == h);
            }
            if !same(&h, &requested_hash) {
                left.push(h);
            }
            i = i + 1;
        }
        assert(self.block_sync_inflight@.take(i as int) =~= self.block_sync_inflight@);
        self.block_sync_inflight = left;
        None
    }

    /// Takes in an input and says what to do about it.
    pub fn apply_dispatch<S: Storage, D: Digests>(&mut self, storage: &S, digests: &D, d: Dispatch) -> (r:
        DispatchStep)
        requires
            old(self).wf(),
            d matches Dispatch::Pacemaker(ev) ==> (advance_target(old(self)@.pacemaker, ev) matches Some((view, _)) ==> view
                <= u64::MAX),
        ensures
            final(self).wf(),
            final(self)@ == after_dispatch(digests, old(self)@, d),
            dispatched(digests, old(self), storage.contents(), storage.steady(), d, r),
    {
        match d {
            Dispatch::Safety(event) => {
                let lag = match &event {
                    SafetyEvent::ProposalReceived(s) => Some(
                        LagHint {
                            committed_height: self.last_committed_height,
                            proposal_height: s.payload.block.header.height,
                            proposer: s.signer,
                        },
                    ),
                    _ => None,
                };
                DispatchStep::StepSafety { event, lag }
            },
            Dispatch::Pacemaker(ev) => DispatchStep::Pacemaker(self.step_pacemaker(ev)),
            Dispatch::ServeBlock { hash, to } => {
                let (block, source) = self.serve_block(storage, digests, &hash);
                DispatchStep::SendBlock { hash, block, to, source }
            },
            Dispatch::ReceiveBlock { requested_hash, block, from } => match self.receive_block(
                digests,
                requested_hash,
                block,
            ) {
                Some(why) => DispatchStep::BlockDropped(why),
                None => DispatchStep::BlockArrived {
                    hash: requested_hash,
                    current_view: self.pacemaker.current_view(),
                },
            },
            Dispatch::TimeoutVote { signer, vote, high_qc_trusted } => DispatchStep::Timeout(
                self.on_timeout_vote(signer, vote, high_qc_trusted),
            ),
            Dispatch::ServeSnapshotManifest { height, to } => DispatchStep::SendManifest { height, to },
            Dispatch::ServeSnapshotChunk { height, chunk_idx, to } => DispatchStep::SendChunk {
                height,
                chunk_idx,
                to,
            },
            Dispatch::ReceiveSnapshotManifest { manifest, from } => DispatchStep::ManifestArrived { manifest, from },
            Dispatch::ReceiveSnapshotChunk { height, chunk_idx, payload, from } => DispatchStep::ChunkArrived {
                height,
                chunk_idx,
                payload,
                from,
            },
        }
    }
}

/// The height of the manifest to serve: the one that was asked for, or the
/// latest there is.
pub fn manifest_height(requested: Option<u64>, latest: Option<u64>) -> (r: Option<u64>)
    ensures
        r == match requested {
            Some(h) => Some(h),
            None => latest,
        },
{
    match requested {
        Some(h) => Some(h),
        None => latest,
    }
}

// ---- the run loop --------------------------------------------------------

/// What the run loop waits for.
#[derive(Debug)]
pub enum LoopInput {
    /// Somebody wants the node to stop.
    Stop,
    /// The channel that frames come in by is closed: nothing can come any
    /// more.
    InboundClosed,
    /// The view timer ran out.
    Timer(u64),
    /// Discovery found a peer.
    PeerAdded(NodeId),
    /// Discovery lost a peer.
    PeerRemoved(NodeId),
    /// Discovery went too fast; these are the peers it knows now.
    PeersLagged(Vec<NodeId>),
    /// A frame came in; what the rate limiter made of it.
    Message { from: NodeId, admission: Admission },
    /// A connection went away.
    Disconnected(NodeId),
    /// Something that does not matter here.
    Other,
}

/// What the run loop does next.
#[derive(Debug)]
pub enum LoopStep {
    /// Cancel the timer and leave.
    Stop,
    Pacemaker(Vec<Action>),
    /// Tell snapshot sync of a peer.
    CandidateAdded(NodeId),
    /// Tell snapshot sync that a peer is gone.
    CandidateRemoved(NodeId),
    /// Verify the frame and dispatch what is in it.
    Ingest(NodeId),
    /// Disconnect a peer and drop its frame.
    Disconnect(NodeId),
    /// Tell the rate limiter that a peer is gone.
    Forget(NodeId),
    Nothing,
}

impl ConsensusNode {
    /// What to do about what the run loop received.
    pub fn on_input(&mut self, input: LoopInput) -> (r: LoopStep)
        requires
            old(self).wf(),
        ensures
            final(self).wf(),
            match input {
                LoopInput::Stop => r is Stop && final(self)@ == old(self)@,
                LoopInput::InboundClosed => r is Stop && final(self)@ == old(self)@,
                LoopInput::Timer(view) => {
                    let ev = Event::OnTimeout(view);
                    &&& r matches LoopStep::Pacemaker(a) && a@ == step_actions(&old(self).pacemaker, ev)
                    &&& final(self)@ == (NodeView { pacemaker: next_state(old(self)@.pacemaker, ev), ..old(self)@ })
                },
                LoopInput::PeerAdded(p) => {
                    &&& r == LoopStep::CandidateAdded(p)
                    &&& final(self)@ == (NodeView { peers_connected: final(self)@.peers_connected, ..old(self)@ })
                    &&& forall|q: NodeId|
                        final(self)@.peers_connected.contains(q) <==> old(self)@.peers_connected.contains(q) || q == p
                },
                LoopInput::PeerRemoved(p) => {
                    &&& r == LoopStep::CandidateRemoved(p)
                    &&& final(self)@ == (NodeView { peers_connected: final(self)@.peers_connected, ..old(self)@ })
                    &&& forall|q: NodeId|
                        final(self)@.peers_connected.contains(q) <==> old(self)@.peers_connected.contains(q) && q != p
                },
                LoopInput::PeersLagged(peers) => {
                    &&& r is Nothing
                    &&& final(self)@ == (NodeView { peers_connected: final(self)@.peers_connected, ..old(self)@ })
                    &&& forall|q: NodeId| final(self)@.peers_connected.contains(q) <==> peers@.contains(q)
                },
                LoopInput::Message { from, admission } => {
                    &&& final(self)@ == old(self)@
                    &&& r == match admission {
                        Admission::Dispatch => LoopStep::Ingest(from),
                        Admission::Drop => LoopStep::Nothing,
                        Admission::Disconnect => LoopStep::Disconnect(from),
                    }
                },
                LoopInput::Disconnected(p) => r == LoopStep::Forget(p) && final(self)@ == old(self)@,
                LoopInput::Other => r is Nothing && final(self)@ == old(self)@,
            },
    {
        match input {
            LoopInput::Stop => LoopStep::Stop,
            LoopInput::InboundClosed => LoopStep::Stop,
            LoopInput::Timer(view) => LoopStep::Pacemaker(self.step_pacemaker(Event::OnTimeout(view))),
            LoopInput::PeerAdded(p) => {
                self.peer_connected(p);
                LoopStep::CandidateAdded(p)
            },
            LoopInput::PeerRemoved(p) => {
                self.peer_disconnected(&p);
                LoopStep::CandidateRemoved(p)
            },
            LoopInput::PeersLagged(peers) => {
                self.set_peers(&peers);
                LoopStep::Nothing
            },
            LoopInput::Message { from, admission } => match admission {
                Admission::Dispatch => LoopStep::Ingest(from),
                Admission::Drop => LoopStep::Nothing,
                Admission::Disconnect => LoopStep::Disconnect(from),
            },
            LoopInput::Disconnected(p) => LoopStep::Forget(p),
            LoopInput::Other => LoopStep::Nothing,
        }
    }
}

// ---- laws ----------------------------------------------------------------

/// No peer can slip in a block: the pending blocks change only by the very
/// block that was asked for, and its content has the hash that was asked for.
pub proof fn only_requested_blocks_are_filed<D: Digests>(digests: &D, n: NodeView, d: Dispatch)
    requires
        after_dispatch(digests, n, d).state.pending_blocks != n.state.pending_blocks,
    ensures
        d matches Dispatch::ReceiveBlock { requested_hash, block, .. } && {
            &&& n.block_sync_inflight.contains(requested_hash)
            &&& block matches Some(b) && {
                let filed = sealed(digests, b@.content());
                &&& filed.hash == requested_hash
                &&& genuine(digests, filed)
                &&& genuine(digests, b@) ==> filed == b@
                &&& after_dispatch(digests, n, d).state.pending_blocks == n.state.pending_blocks.insert(
                    requested_hash,
                    filed,
                )
            }
        },
{
}

/// No input makes a block pending that does not go by the hash of its
/// content.
pub proof fn pending_blocks_stay_genuine<D: Digests>(digests: &D, n: NodeView, d: Dispatch)
    requires
        forall|h: BlockHash| #[trigger]
            n.state.pending_blocks.contains_key(h) ==> genuine(digests, n.state.pending_blocks[h])
                && n.state.pending_blocks[h].hash == h,
    ensures
        ({
            let after = after_dispatch(digests, n, d).state.pending_blocks;
            forall|h: BlockHash| #[trigger]
                after.contains_key(h) ==> genuine(digests, after[h]) && after[h].hash == h
        }),
{
}

/// A request stays open until the block that was asked for arrives.
pub proof fn requests_stay_open_until_answered<D: Digests>(
    digests: &D,
    n: NodeView,
    requested: BlockHash,
    block: Option<Block>,
    from: NodeId,
)
    ensures
        ({
            let d = Dispatch::ReceiveBlock { requested_hash: requested, block, from };
            let after = after_dispatch(digests, n, d).block_sync_inflight;
            &&& block_verdict(digests, n, requested, block) is Some ==> after == n.block_sync_inflight
            &&& block_verdict(digests, n, requested, block) is None ==> !after.contains(requested)
        }),
{
    broadcast use vstd::seq_lib::group_filter_ensures;

    let p = other_than(requested);
    let s = n.block_sync_inflight;
    if block_verdict(digests, n, requested, block) is None {
        let f = s.filter(p);
        if f.contains(requested) {
            let i = choose|i: int| 0 <= i < f.len() && f[i] == requested;
            assert(p(f[i]));
        }
    }
}

} // verus!
