//! The configuration of a consensus node.

use vstd::prelude::*;

use crate::pacemaker::timeout::Millis;
use crate::types::{Block, SignatureSchemeChoice};
use crate::validator_set::ValidatorSet;

verus! {

/// The least gap between the view that commits a committee change and the
/// view at which it takes effect.
pub const MIN_V_EFF_DELAY: u64 = 2;

/// The least number of validators that a committee change may lead to.
pub const MIN_VALIDATOR_FLOOR: usize = 4;

/// The protocol number of consensus traffic on a peer connection.
pub const PROTOCOL_ID: u8 = 3;

/// The largest frame that is accepted from a peer: four mebibytes.
pub const MAX_FRAME_BYTES: usize = 4_194_304;

/// How many entries each cache may hold.
#[derive(Clone, Copy, Debug, PartialEq, Eq, Structural)]
pub struct CacheLimits {
    pub vote_bucket_capacity: usize,
    pub parked_proposals_capacity: usize,
    pub pending_blocks_capacity: usize,
    pub timeout_buckets_capacity: usize,
}

impl CacheLimits {
    /// No eviction at all.
    pub fn unbounded_for_tests() -> (r: CacheLimits)
        ensures
            r == (CacheLimits {
                vote_bucket_capacity: usize::MAX,
                parked_proposals_capacity: usize::MAX,
                pending_blocks_capacity: usize::MAX,
                timeout_buckets_capacity: usize::MAX,
            }),
    {
        CacheLimits {
            vote_bucket_capacity: usize::MAX,
            parked_proposals_capacity: usize::MAX,
            pending_blocks_capacity: usize::MAX,
            timeout_buckets_capacity: usize::MAX,
        }
    }
}

/// When snapshots are taken, how many are kept and how they are cut up.
#[derive(Clone, Copy, Debug, PartialEq, Eq, Structural)]
pub struct SnapshotPolicy {
    /// A snapshot at every multiple of this height; zero for none.
    pub interval_blocks: u64,
    /// How many snapshots to keep; zero for all.
    pub retention_count: u64,
    pub chunk_size_bytes: u64,
}

impl SnapshotPolicy {
    /// No snapshots.
    pub fn disabled() -> (r: SnapshotPolicy)
        ensures
            r == (SnapshotPolicy { interval_blocks: 0, retention_count: 0, chunk_size_bytes: 0 }),
    {
        SnapshotPolicy { interval_blocks: 0, retention_count: 0, chunk_size_bytes: 0 }
    }

    pub fn is_enabled(&self) -> (r: bool)
        ensures
            r == (self.interval_blocks > 0),
    {
        self.interval_blocks > 0
    }

    /// A snapshot is due at `height`.
    pub open spec fn due_at(&self, height: u64) -> bool {
        self.interval_blocks > 0 && height > 0 && height % self.interval_blocks == 0
    }

    /// Whether a snapshot is due at `height`: at every multiple of the
    /// interval after genesis.
    pub fn should_snapshot_at(&self, height: u64) -> (r: bool)
        ensures
            r == self.due_at(height),
    {
        self.interval_blocks > 0 && height > 0 && height % self.interval_blocks == 0
    }
}

/// The gap that a committee change must leave, whatever the operator asked
/// for.
pub open spec fn effective_delay(min_v_eff_delay: u64) -> u64 {
    if min_v_eff_delay > MIN_V_EFF_DELAY {
        min_v_eff_delay
    } else {
        MIN_V_EFF_DELAY
    }
}

/// Plain-data configuration, made once at startup.
#[derive(Debug)]
pub struct NodeConfigForConsensus {
    /// The committee this node takes part in.
    pub validator_set: ValidatorSet,
    /// The agreed first block.
    pub genesis: Block,
    /// The most commands that a leader puts into a block.
    pub propose_limit: usize,
    /// The view timer without failures, in milliseconds.
    pub timeout_base: Millis,
    /// The ceiling of the view timer, in milliseconds.
    pub timeout_max: Millis,
    pub limits: CacheLimits,
    pub snapshot_policy: SnapshotPolicy,
    /// The operator's floor on the gap between the view that commits a
    /// committee change and the view at which it takes effect.
    pub min_v_eff_delay: u64,
    /// How the chain signs certificates.
    pub signature_scheme: SignatureSchemeChoice,
}

impl NodeConfigForConsensus {
    pub open spec fn wf(&self) -> bool {
        &&& self.validator_set.wf()
        &&& self.validator_set@.len() > 0
    }

    /// Reasonable defaults for a local test cluster.
    pub fn for_testing(validator_set: ValidatorSet, genesis: Block) -> (r: NodeConfigForConsensus)
        ensures
            r.validator_set@ == validator_set@,
            r.genesis@ == genesis@,
            r.propose_limit == 64,
            r.timeout_base == 200,
            r.timeout_max == 10_000,
            r.limits == (CacheLimits {
                vote_bucket_capacity: usize::MAX,
                parked_proposals_capacity: usize::MAX,
                pending_blocks_capacity: usize::MAX,
                timeout_buckets_capacity: usize::MAX,
            }),
            r.snapshot_policy == (SnapshotPolicy { interval_blocks: 0, retention_count: 0, chunk_size_bytes: 0 }),
            r.min_v_eff_delay == MIN_V_EFF_DELAY,
            r.signature_scheme == SignatureSchemeChoice::Ed25519Collected,
    {
        NodeConfigForConsensus {
            validator_set,
            genesis,
            propose_limit: 64,
            timeout_base: 200,
            timeout_max: 10_000,
            limits: CacheLimits::unbounded_for_tests(),
            snapshot_policy: SnapshotPolicy::disabled(),
            min_v_eff_delay: MIN_V_EFF_DELAY,
            signature_scheme: SignatureSchemeChoice::Ed25519Collected,
        }
    }
}

} // verus!
