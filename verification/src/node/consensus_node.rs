//! The state of a consensus node, and how a node starts.

use vstd::prelude::*;

use crate::codec::{decode_last_committed, decode_proposed_in_view, parse_last_committed, Record};
use crate::digests::Digests;
use crate::history_codec::{decode_key_history, decode_validator_history, parse_history, parse_keys};
use crate::key_history::{
    joined, joined_over, BlsKeyHistory, KeyHistory, Timelines, ValidatorKeyHistory,
};
use crate::node::builder::MempoolBlockBuilder;
use crate::node::config::{NodeConfigForConsensus, SnapshotPolicy};
use crate::node::error::NodeError;
use crate::node::qc_cache::RecentQcCache;
use crate::node::recovery::{overlaid, overlay_state};
use crate::node::timeouts::{Buckets, TimeoutBuckets};
use crate::pacemaker::leader::WeightedAccumulatorSelector;
use crate::pacemaker::state_machine::{Pacemaker, PacemakerState};
use crate::pacemaker::timeout::ExponentialBackoff;
use crate::state::{fresh_state, HotStuffState, StateView};
use crate::storage::{
    key_bytes, lookup, opt_bytes, Storage, STORAGE_KEY_LAST_COMMITTED, STORAGE_KEY_PROPOSED_IN_VIEW,
    STORAGE_KEY_VALIDATOR_HISTORY, STORAGE_KEY_VALIDATOR_KEY_HISTORY,
};
use crate::trusted::take_varint;
use crate::types::{
    genesis_qc, genesis_qc_bls, genesis_qc_view, unsigned_qc, BlockHash, BlockView, LastCommitted, QcView,
    QuorumCertificate, SignatureSchemeChoice,
};
use crate::validator_history::{no_empty_committee, HistoryView, ValidatorSetHistory};
use crate::validator_set::{Member, NodeId, ValidatorSet};

verus! {

/// How many entries each cache has dropped so far.
#[derive(Clone, Copy, Debug, PartialEq, Eq, Structural)]
pub struct CacheEvictionCounters {
    pub vote_bucket: u64,
    pub parked_proposals: u64,
    pub pending_blocks: u64,
    pub timeout_buckets: u64,
}

/// The pacemaker as the node runs it.
pub type NodePacemaker = Pacemaker<WeightedAccumulatorSelector, ExponentialBackoff>;

/// A consensus node: everything its decisions depend on. It performs no I/O
/// itself; storage and the application are handed to it.
pub struct ConsensusNode {
    /// This replica's identity.
    pub self_id: NodeId,
    /// The safety state.
    pub state: HotStuffState,
    /// The highest view in which this replica has proposed.
    pub proposed_in_view: u64,
    /// View management.
    pub pacemaker: NodePacemaker,
    /// Builds candidate blocks.
    pub builder: MempoolBlockBuilder,
    /// The committee that timeout votes are counted against.
    pub validator_set: ValidatorSet,
    /// The committees over time.
    pub validator_history: ValidatorSetHistory,
    /// The signing keys over time. A key on the wire leads through it to the
    /// validator that has or had it.
    pub validator_key_history: ValidatorKeyHistory,
    /// The BLS keys over time, on chains that use them.
    pub bls_key_history: Option<BlsKeyHistory>,
    /// How the chain signs certificates.
    pub signature_scheme: SignatureSchemeChoice,
    /// Timeout votes that have not made a certificate yet.
    pub timeout_buckets: TimeoutBuckets,
    /// How many views may have a bucket.
    pub timeout_buckets_capacity: usize,
    /// What the caches have dropped.
    pub eviction_counters: CacheEvictionCounters,
    /// The peers that are connected.
    pub peers_connected: Vec<NodeId>,
    /// Height and view of the last committed block.
    pub last_committed_height: u64,
    pub last_committed_view: u64,
    /// How many commands the builder has seen rejected.
    pub dropped_commands: u64,
    /// How many equivocations were detected.
    pub equivocations_detected: u64,
    /// When to take snapshots.
    pub snapshot_policy: SnapshotPolicy,
    /// The operator's floor on the delay of committee changes.
    pub min_v_eff_delay: u64,
    /// The certificates adopted lately.
    pub recent_qcs: RecentQcCache,
    /// The blocks that were asked for and have not come.
    pub block_sync_inflight: Vec<BlockHash>,
}

/// A node as a value.
#[verifier::ext_equal]
pub struct NodeView {
    pub self_id: NodeId,
    pub state: StateView,
    pub proposed_in_view: u64,
    pub pacemaker: PacemakerState,
    pub selector: HistoryView,
    pub policy: ExponentialBackoff,
    pub propose_limit: usize,
    pub validator_set: Seq<Member>,
    pub validator_history: HistoryView,
    pub keys: Timelines<32>,
    pub bls: Option<Timelines<48>>,
    pub signature_scheme: SignatureSchemeChoice,
    pub timeout_buckets: Buckets,
    pub timeout_buckets_capacity: usize,
    pub eviction_counters: CacheEvictionCounters,
    pub peers_connected: Seq<NodeId>,
    pub last_committed_height: u64,
    pub last_committed_view: u64,
    pub dropped_commands: u64,
    pub equivocations_detected: u64,
    pub snapshot_policy: SnapshotPolicy,
    pub min_v_eff_delay: u64,
    pub recent_qcs: Seq<(BlockHash, QcView)>,
    pub block_sync_inflight: Seq<BlockHash>,
}

pub open spec fn opt_bls(o: Option<BlsKeyHistory>) -> Option<Timelines<48>> {
    match o {
        Some(h) => Some(h@),
        None => None,
    }
}

impl View for ConsensusNode {
    type V = NodeView;

    open spec fn view(&self) -> NodeView {
        NodeView {
            self_id: self.self_id,
            state: self.state@,
            proposed_in_view: self.proposed_in_view,
            pacemaker: self.pacemaker@,
            selector: self.pacemaker.selector_spec()@,
            policy: self.pacemaker.policy_spec(),
            propose_limit: self.builder.limit(),
            validator_set: self.validator_set@,
            validator_history: self.validator_history@,
            keys: self.validator_key_history@,
            bls: opt_bls(self.bls_key_history),
            signature_scheme: self.signature_scheme,
            timeout_buckets: self.timeout_buckets@,
            timeout_buckets_capacity: self.timeout_buckets_capacity,
            eviction_counters: self.eviction_counters,
            peers_connected: self.peers_connected@,
            last_committed_height: self.last_committed_height,
            last_committed_view: self.last_committed_view,
            dropped_commands: self.dropped_commands,
            equivocations_detected: self.equivocations_detected,
            snapshot_policy: self.snapshot_policy,
            min_v_eff_delay: self.min_v_eff_delay,
            recent_qcs: self.recent_qcs@,
            block_sync_inflight: self.block_sync_inflight@,
        }
    }
}

/// After genesis the two histories have the same boundaries.
pub open spec fn mirrors(core: HistoryView, node: HistoryView) -> bool {
    &&& core.len() == node.len()
    &&& forall|i: int| 1 <= i < node.len() ==> #[trigger] core[i] == node[i]
}

impl ConsensusNode {
    /// What holds of every node.
    pub open spec fn wf(&self) -> bool {
        &&& self.state.wf()
        &&& self.pacemaker.wf()
        &&& self.pacemaker.id() == self.self_id
        &&& self.builder.id() == self.self_id
        &&& self.validator_set.wf()
        &&& self.validator_set@.len() > 0
        &&& self.validator_history.wf()
        &&& no_empty_committee(self.validator_history@)
        &&& self.validator_key_history.wf()
        &&& self.bls_key_history matches Some(h) ==> h.wf()
        &&& self.timeout_buckets.wf()
        &&& self.recent_qcs.wf()
        &&& self.peers_connected@.no_duplicates()
    }
}

impl NodeView {
    /// The safety state and the pacemaker know of every boundary that the
    /// node knows of.
    pub open spec fn in_step(&self) -> bool {
        &&& mirrors(self.state.validator_history, self.validator_history)
        &&& self.selector == self.validator_history
    }
}

/// The certificate that a chain starts from.
pub open spec fn boot_qc(scheme: SignatureSchemeChoice, genesis: BlockView, n: nat) -> QcView {
    match scheme {
        SignatureSchemeChoice::Ed25519Collected => genesis_qc_view(genesis.hash, n),
        SignatureSchemeChoice::BlsAggregated => unsigned_qc(0, genesis.hash, n),
    }
}

/// A node that has seen nothing but genesis.
pub open spec fn fresh_node(self_id: NodeId, c: &NodeConfigForConsensus) -> NodeView {
    let set = c.validator_set@;
    NodeView {
        self_id,
        state: StateView {
            high_qc: Some(boot_qc(c.signature_scheme, c.genesis@, set.len())),
            ..fresh_state(set, c.genesis@)
        },
        proposed_in_view: 0,
        pacemaker: PacemakerState { current_view: 0, high_qc_view: 0, consecutive_failures: 0 },
        selector: seq![(0u64, set)],
        policy: ExponentialBackoff { base: c.timeout_base, max: c.timeout_max },
        propose_limit: c.propose_limit,
        validator_set: set,
        validator_history: seq![(0u64, set)],
        keys: joined(seq![], set, 0),
        bls: None,
        signature_scheme: c.signature_scheme,
        timeout_buckets: Map::empty(),
        timeout_buckets_capacity: c.limits.timeout_buckets_capacity,
        eviction_counters: CacheEvictionCounters {
            vote_bucket: 0,
            parked_proposals: 0,
            pending_blocks: 0,
            timeout_buckets: 0,
        },
        peers_connected: seq![],
        last_committed_height: 0,
        last_committed_view: 0,
        dropped_commands: 0,
        equivocations_detected: 0,
        snapshot_policy: c.snapshot_policy,
        min_v_eff_delay: c.min_v_eff_delay,
        recent_qcs: seq![],
        block_sync_inflight: seq![],
    }
}

/// The commit checkpoint found in storage; without one, nothing was
/// committed.
pub open spec fn read_checkpoint(raw: Option<Seq<u8>>) -> Result<(u64, u64), NodeError> {
    match raw {
        None => Ok((0, 0)),
        Some(bytes) => match parse_last_committed(bytes) {
            Some(l) => Ok((l.height, l.view)),
            None => Err(NodeError::Corrupt(Record::LastCommitted)),
        },
    }
}

/// The committee history found in storage; without one, genesis is all there
/// is. A history with an empty committee is refused: nobody could lead.
pub open spec fn read_history(raw: Option<Seq<u8>>, genesis_set: Seq<Member>) -> Result<HistoryView, NodeError> {
    match raw {
        None => Ok(seq![(0u64, genesis_set)]),
        Some(bytes) => match parse_history(bytes) {
            Some(h) => if no_empty_committee(h) {
                Ok(h)
            } else {
                Err(NodeError::Corrupt(Record::ValidatorHistory))
            },
            None => Err(NodeError::Corrupt(Record::ValidatorHistory)),
        },
    }
}

/// The proposed-in view found in storage; without one, view zero.
pub open spec fn read_proposed(raw: Option<Seq<u8>>) -> Result<u64, NodeError> {
    match raw {
        None => Ok(0),
        Some(bytes) => match take_varint(bytes) {
            Some((v, _)) => Ok(v as u64),
            None => Err(NodeError::Corrupt(Record::ProposedInView)),
        },
    }
}

/// The key history found in storage; without one, the keys that go with the
/// committees.
pub open spec fn read_keys(raw: Option<Seq<u8>>, h: HistoryView) -> Result<Timelines<32>, NodeError> {
    match raw {
        None => Ok(joined_over(h)),
        Some(bytes) => match parse_keys::<32>(bytes) {
            Some(k) => Ok(k),
            None => Err(NodeError::Corrupt(Record::ValidatorKeyHistory)),
        },
    }
}

/// The node that a store holds.
pub open spec fn recovered_node<D: Digests>(
    d: &D,
    m: Map<Seq<u8>, Seq<u8>>,
    self_id: NodeId,
    c: &NodeConfigForConsensus,
) -> Result<NodeView, NodeError> {
    match overlaid(d, m, fresh_node(self_id, c).state) {
        Err(e) => Err(e),
        Ok(state) => match read_checkpoint(lookup(m, key_bytes(STORAGE_KEY_LAST_COMMITTED))) {
            Err(e) => Err(e),
            Ok((height, view)) => match read_history(
                lookup(m, key_bytes(STORAGE_KEY_VALIDATOR_HISTORY)),
                c.validator_set@,
            ) {
                Err(e) => Err(e),
                Ok(history) => match read_proposed(lookup(m, key_bytes(STORAGE_KEY_PROPOSED_IN_VIEW))) {
                    Err(e) => Err(e),
                    Ok(proposed) => match read_keys(
                        lookup(m, key_bytes(STORAGE_KEY_VALIDATOR_KEY_HISTORY)),
                        history,
                    ) {
                        Err(e) => Err(e),
                        Ok(keys) => Ok(
                            NodeView {
                                state: StateView {
                                    validator_history: seq![(0u64, c.validator_set@)] + history.skip(1),
                                    ..state
                                },
                                proposed_in_view: proposed,
                                selector: history,
                                validator_set: history.last().1,
                                validator_history: history,
                                keys,
                                last_committed_height: height,
                                last_committed_view: view,
                                ..fresh_node(self_id, c)
                            },
                        ),
                    },
                },
            },
        },
    }
}

/// What the bytes of the commit checkpoint stand for.
pub fn checkpoint_from_bytes(raw: Option<Vec<u8>>) -> (r: Result<(u64, u64), NodeError>)
    ensures
        r == read_checkpoint(opt_bytes(raw)),
{
    match raw {
        None => Ok((0, 0)),
        Some(bytes) => match decode_last_committed(bytes.as_slice()) {
            Ok(l) => Ok((l.height, l.view)),
            Err(_) => Err(NodeError::Corrupt(Record::LastCommitted)),
        },
    }
}

/// Whether every committee of the history has a member.
fn lists_no_empty_committee(h: &ValidatorSetHistory) -> (r: bool)
    requires
        h.wf(),
    ensures
        r == no_empty_committee(h@),
{
    let n = h.boundary_count();
    let mut i: usize = 0;
    while i < n
        invariant
            i <= n,
            n == h@.len(),
            forall|k: int| 0 <= k < i ==> (#[trigger] h@[k]).1.len() > 0,
        decreases n - i,
    {
        if h.set_of(i).is_empty() {
            assert(h@[i as int].1.len() == 0);
            return false;
        }
        i = i + 1;
    }
    true
}

/// What the bytes of the committee history stand for.
pub fn history_from_bytes(raw: Option<Vec<u8>>, genesis_set: &ValidatorSet) -> (r: Result<
    ValidatorSetHistory,
    NodeError,
>)
    requires
        genesis_set.wf(),
        genesis_set@.len() > 0,
    ensures
        match r {
            Ok(h) => {
                &&& h.wf()
                &&& no_empty_committee(h@)
                &&& read_history(opt_bytes(raw), genesis_set@) == Ok::<HistoryView, NodeError>(h@)
            },
            Err(e) => read_history(opt_bytes(raw), genesis_set@) == Err::<HistoryView, NodeError>(e),
        },
{
    match raw {
        None => Ok(ValidatorSetHistory::from_genesis(genesis_set.copy())),
        Some(bytes) => match decode_validator_history(bytes.as_slice()) {
            Ok(h) => if lists_no_empty_committee(&h) {
                Ok(h)
            } else {
                Err(NodeError::Corrupt(Record::ValidatorHistory))
            },
            Err(_) => Err(NodeError::Corrupt(Record::ValidatorHistory)),
        },
    }
}

/// What the bytes of the proposed-in view stand for.
pub fn proposed_from_bytes(raw: Option<Vec<u8>>) -> (r: Result<u64, NodeError>)
    ensures
        r == read_proposed(opt_bytes(raw)),
{
    match raw {
        None => Ok(0),
        Some(bytes) => match decode_proposed_in_view(bytes.as_slice()) {
            Ok(v) => Ok(v),
            Err(_) => Err(NodeError::Corrupt(Record::ProposedInView)),
        },
    }
}

/// What the bytes of the key history stand for.
pub fn keys_from_bytes(raw: Option<Vec<u8>>, history: &ValidatorSetHistory) -> (r: Result<
    ValidatorKeyHistory,
    NodeError,
>)
    requires
        history.wf(),
    ensures
        match r {
            Ok(k) => k.wf() && read_keys(opt_bytes(raw), history@) == Ok::<Timelines<32>, NodeError>(k@),
            Err(e) => read_keys(opt_bytes(raw), history@) == Err::<Timelines<32>, NodeError>(e),
        },
{
    match raw {
        None => Ok(KeyHistory::<32>::from_set_history(history)),
        Some(bytes) => match decode_key_history::<32>(bytes.as_slice(), Record::ValidatorKeyHistory) {
            Ok(k) => Ok(k),
            Err(_) => Err(NodeError::Corrupt(Record::ValidatorKeyHistory)),
        },
    }
}

/// The safety state at genesis, with the certificate that the chain's
/// signature scheme starts from.
fn boot(config: &NodeConfigForConsensus) -> (r: HotStuffState)
    requires
        config.wf(),
    ensures
        r.wf(),
        r@ == (StateView {
            high_qc: Some(boot_qc(config.signature_scheme, config.genesis@, config.validator_set@.len())),
            ..fresh_state(config.validator_set@, config.genesis@)
        }),
{
    let n = config.validator_set.len();
    let qc = match config.signature_scheme {
        SignatureSchemeChoice::Ed25519Collected => genesis_qc(&config.genesis, n),
        SignatureSchemeChoice::BlsAggregated => genesis_qc_bls(&config.genesis, n),
    };
    let mut state = HotStuffState::new(config.validator_set.copy(), config.genesis.copy());
    state.high_qc = Some(qc);
    state
}

impl ConsensusNode {
    /// A node at genesis.
    pub fn new(self_id: NodeId, config: NodeConfigForConsensus) -> (r: ConsensusNode)
        requires
            config.wf(),
        ensures
            r.wf(),
            r@ == fresh_node(self_id, &config),
            r@.in_step(),
    {
        let validator_history = ValidatorSetHistory::from_genesis(config.validator_set.copy());
        let validator_key_history = KeyHistory::<32>::new(&config.validator_set);
        let selector = WeightedAccumulatorSelector::from_genesis_set(config.validator_set.copy());
        let policy = ExponentialBackoff::new(config.timeout_base, config.timeout_max);
        let state = boot(&config);
        let r = ConsensusNode {
            self_id,
            state,
            proposed_in_view: 0,
            pacemaker: Pacemaker::new(self_id, selector, policy),
            builder: MempoolBlockBuilder::new(self_id, config.propose_limit),
            validator_set: config.validator_set,
            validator_history,
            validator_key_history,
            bls_key_history: None,
            signature_scheme: config.signature_scheme,
            timeout_buckets: TimeoutBuckets::new(),
            timeout_buckets_capacity: config.limits.timeout_buckets_capacity,
            eviction_counters: CacheEvictionCounters {
                vote_bucket: 0,
                parked_proposals: 0,
                pending_blocks: 0,
                timeout_buckets: 0,
            },
            peers_connected: Vec::new(),
            last_committed_height: 0,
            last_committed_view: 0,
            dropped_commands: 0,
            equivocations_detected: 0,
            snapshot_policy: config.snapshot_policy,
            min_v_eff_delay: config.min_v_eff_delay,
            recent_qcs: RecentQcCache::new(),
            block_sync_inflight: Vec::new(),
        };
        assert(r@ =~= fresh_node(self_id, &config));
        r
    }

    /// A node with what storage holds of it. On an empty store this is a
    /// node at genesis.
    pub fn recover<S: Storage, D: Digests>(
        self_id: NodeId,
        config: NodeConfigForConsensus,
        storage: &S,
        digests: &D,
    ) -> (r: Result<ConsensusNode, NodeError>)
        requires
            config.wf(),
        ensures
            match r {
                Ok(n) => {
                    &&& n.wf()
                    &&& n@.in_step()
                    &&& recovered_node(digests, storage.contents(), self_id, &config) == Ok::<NodeView, NodeError>(
                        n@,
                    )
                },
                Err(NodeError::Read(_)) => !storage.steady(),
                Err(e) => recovered_node(digests, storage.contents(), self_id, &config) == Err::<
                    NodeView,
                    NodeError,
                >(e),
            },
    {
        let state = match overlay_state(storage, digests, boot(&config)) {
            Ok(s) => s,
            Err(e) => {
                return Err(e);
            },
        };
        let (height, view) = match storage.get(STORAGE_KEY_LAST_COMMITTED.as_bytes()) {
            Ok(raw) => match checkpoint_from_bytes(raw) {
                Ok((h, v)) => (h, v),
                Err(e) => {
                    return Err(e);
                },
            },
            Err(_) => {
                return Err(NodeError::Read(Record::LastCommitted));
            },
        };
        let history = match storage.get(STORAGE_KEY_VALIDATOR_HISTORY.as_bytes()) {
            Ok(raw) => match history_from_bytes(raw, &config.validator_set) {
                Ok(h) => h,
                Err(e) => {
                    return Err(e);
                },
            },
            Err(_) => {
                return Err(NodeError::Read(Record::ValidatorHistory));
            },
        };
        let proposed: u64 = match storage.get(STORAGE_KEY_PROPOSED_IN_VIEW.as_bytes()) {
            Ok(raw) => match proposed_from_bytes(raw) {
                Ok(v) => v,
                Err(e) => {
                    return Err(e);
                },
            },
            Err(_) => {
                return Err(NodeError::Read(Record::ProposedInView));
            },
        };
        let keys = match storage.get(STORAGE_KEY_VALIDATOR_KEY_HISTORY.as_bytes()) {
            Ok(raw) => match keys_from_bytes(raw, &history) {
                Ok(k) => k,
                Err(e) => {
                    return Err(e);
                },
            },
            Err(_) => {
                return Err(NodeError::Read(Record::ValidatorKeyHistory));
            },
        };
        Ok(Self::resume(self_id, config, state, height, view, history, proposed, keys))
    }

    /// A node from its recovered parts. The boundaries after genesis are
    /// replayed into the safety state.
    pub fn resume(
        self_id: NodeId,
        config: NodeConfigForConsensus,
        state: HotStuffState,
        height: u64,
        view: u64,
        history: ValidatorSetHistory,
        proposed: u64,
        keys: ValidatorKeyHistory,
    ) -> (r: ConsensusNode)
        requires
            config.wf(),
            state.wf(),
            state@.validator_history == seq![(0u64, config.validator_set@)],
            history.wf(),
            no_empty_committee(history@),
            keys.wf(),
        ensures
            r.wf(),
            r@.in_step(),
            r@ == (NodeView {
                state: StateView {
                    validator_history: seq![(0u64, config.validator_set@)] + history@.skip(1),
                    ..state@
                },
                proposed_in_view: proposed,
                selector: history@,
                validator_set: history@.last().1,
                validator_history: history@,
                keys: keys@,
                last_committed_height: height,
                last_committed_view: view,
                ..fresh_node(self_id, &config)
            }),
    {
        let ghost before = state@;
        let mut state = state;
        let mut core = ValidatorSetHistory::from_genesis(config.validator_set.copy());
        let n = history.boundary_count();
        let mut i: usize = 1;
        let ghost base: HistoryView = seq![(0u64, config.validator_set@)];
        assert(history@.subrange(1, 1) =~= seq![]);
        assert(base + history@.subrange(1, 1) =~= base);
        while i < n
            invariant
                1 <= i <= n,
                n == history@.len(),
                history.wf(),
                core.wf(),
                base == seq![(0u64, config.validator_set@)],
                core@ == base + history@.subrange(1, i as int),
            decreases n - i,
        {
            let v_eff: u64 = history.v_eff_of(i);
            proof {
                assert(crate::validator_set::committee(history@[i as int].1));
                if i == 1 {
                    assert(core@.last() == base[0]);
                    assert(history@[0].0 < history@[1].0);
                } else {
                    assert(core@.last() == history@[i - 1]);
                    assert(history@[i - 1].0 < history@[i as int].0);
                }
            }
            let _ = core.insert_boundary(v_eff, history.set_of(i).copy());
            proof {
                assert(core@ =~= base + history@.subrange(1, i + 1));
            }
            i = i + 1;
        }
        proof {
            assert(history@.subrange(1, n as int) =~= history@.skip(1));
        }
        state.validator_history = core;
        let active = history.current_set().copy();
        proof {
            assert(history@[history@.len() - 1].1.len() > 0);
        }
        let selector = WeightedAccumulatorSelector::new(history.copy());
        let policy = ExponentialBackoff::new(config.timeout_base, config.timeout_max);
        let r = ConsensusNode {
            self_id,
            state,
            proposed_in_view: proposed,
            pacemaker: Pacemaker::new(self_id, selector, policy),
            builder: MempoolBlockBuilder::new(self_id, config.propose_limit),
            validator_set: active,
            validator_history: history,
            validator_key_history: keys,
            bls_key_history: None,
            signature_scheme: config.signature_scheme,
            timeout_buckets: TimeoutBuckets::new(),
            timeout_buckets_capacity: config.limits.timeout_buckets_capacity,
            eviction_counters: CacheEvictionCounters {
                vote_bucket: 0,
                parked_proposals: 0,
                pending_blocks: 0,
                timeout_buckets: 0,
            },
            peers_connected: Vec::new(),
            last_committed_height: height,
            last_committed_view: view,
            dropped_commands: 0,
            equivocations_detected: 0,
            snapshot_policy: config.snapshot_policy,
            min_v_eff_delay: config.min_v_eff_delay,
            recent_qcs: RecentQcCache::new(),
            block_sync_inflight: Vec::new(),
        };
        proof {
            assert forall|k: int| 1 <= k < history@.len() implies #[trigger] r.state@.validator_history[k]
                == history@[k] by {
                assert((base + history@.skip(1))[k] == history@.skip(1)[k - 1]);
            }
        }
        r
    }

    /// Attaches the BLS keys, on chains that use them.
    pub fn with_bls_key_history(self, bls_key_history: BlsKeyHistory) -> (r: ConsensusNode)
        requires
            self.wf(),
            bls_key_history.wf(),
        ensures
            r.wf(),
            r@ == (NodeView { bls: Some(bls_key_history@), ..self@ }),
    {
        let mut node = self;
        node.bls_key_history = Some(bls_key_history);
        node
    }

    /// Puts `qc` in the place of the certificate that the node started with.
    pub fn with_genesis_qc(self, qc: QuorumCertificate) -> (r: ConsensusNode)
        requires
            self.wf(),
        ensures
            r.wf(),
            r@ == (NodeView { state: StateView { high_qc: Some(qc@), ..self@.state }, ..self@ }),
    {
        let mut node = self;
        node.state.high_qc = Some(qc);
        node
    }

    /// The view the pacemaker is at.
    pub fn current_view(&self) -> (r: u64)
        ensures
            r == self@.pacemaker.current_view,
    {
        self.pacemaker.current_view()
    }

    /// What the caches have dropped.
    pub fn eviction_counters(&self) -> (r: CacheEvictionCounters)
        ensures
            r == self@.eviction_counters,
    {
        self.eviction_counters
    }
}

/// On an empty store, recovery gives what a fresh node is, whatever the
/// signature scheme.
pub proof fn recovery_of_nothing_is_a_fresh_start<D: Digests>(d: &D, self_id: NodeId, c: &NodeConfigForConsensus)
    ensures
        recovered_node(d, Map::empty(), self_id, c) == Ok::<NodeView, NodeError>(fresh_node(self_id, c)),
{
    let set = c.validator_set@;
    let h: HistoryView = seq![(0u64, set)];
    assert(h.skip(1) =~= seq![]);
    assert(seq![(0u64, set)] + h.skip(1) =~= h);
    assert(h.drop_last() =~= seq![]);
    reveal_with_fuel(joined_over, 2);
    assert(joined_over(h) == joined(seq![], set, 0));
    let r = recovered_node(d, Map::empty(), self_id, c);
    assert(r is Ok);
    assert(r->Ok_0 =~= fresh_node(self_id, c));
}

} // verus!
