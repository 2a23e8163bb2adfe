//! Building the block that a leader proposes.

use vstd::prelude::*;

use crate::bytes::{payloads, Bytes32};
use crate::digests::Digests;
use crate::node::error::joined;
use crate::replication::{
    apply_all, lemma_run_concat, rejected_count, run_commands, RestoreError, StateMachine,
};
use crate::state::{blocks_view, BlockMap};
use crate::types::{Block, BlockDraft, BlockHash, BlockHeader, BlockView};
use crate::validator_set::NodeId;

verus! {

/// Why no block was built.
#[derive(Debug, PartialEq, Eq)]
pub enum BuildError {
    /// The application could not go back to its own snapshot.
    RestoreFailed(RestoreError),
    /// The parent links of the pending blocks go in circles.
    CircularAncestry,
}

impl BuildError {
    /// What the operator gets to read.
    pub fn message(&self) -> (r: String)
        ensures
            r@ == match *self {
                BuildError::RestoreFailed(e) => "state-machine restore from own snapshot failed: "@ + e.reason@,
                BuildError::CircularAncestry => "parent links of pending blocks go in circles"@,
            },
    {
        match self {
            BuildError::RestoreFailed(e) => joined(
                "state-machine restore from own snapshot failed: ",
                e.reason.as_str(),
            ),
            BuildError::CircularAncestry => String::from_str("parent links of pending blocks go in circles"),
        }
    }
}

/// The blocks from `b` back to the committed boundary, newest first, walking
/// at most `fuel` links; none where that is not enough.
pub open spec fn walk_back(
    b: BlockView,
    pending: Map<BlockHash, BlockView>,
    committed_height: u64,
    fuel: nat,
) -> Option<Seq<BlockView>>
    decreases fuel,
{
    if b.header.height <= committed_height {
        Some(seq![])
    } else if !pending.contains_key(b.header.parent_hash) {
        Some(seq![b])
    } else if fuel == 0 {
        None
    } else {
        match walk_back(pending[b.header.parent_hash], pending, committed_height, (fuel - 1) as nat) {
            Some(rest) => Some(seq![b] + rest),
            None => None,
        }
    }
}

/// The uncommitted ancestors of a block, itself included, newest first; none
/// where the walk takes more links than there are pending blocks.
pub open spec fn ancestors(b: BlockView, pending: Map<BlockHash, BlockView>, committed_height: u64) -> Option<
    Seq<BlockView>,
> {
    walk_back(b, pending, committed_height, pending.len())
}

proof fn lemma_walk_fuel(
    b: BlockView,
    pending: Map<BlockHash, BlockView>,
    committed_height: u64,
    f: nat,
    g: nat,
)
    requires
        walk_back(b, pending, committed_height, f) is Some,
        f <= g,
    ensures
        walk_back(b, pending, committed_height, g) == walk_back(b, pending, committed_height, f),
    decreases f,
{
    if b.header.height > committed_height && pending.contains_key(b.header.parent_hash) {
        lemma_walk_fuel(
            pending[b.header.parent_hash],
            pending,
            committed_height,
            (f - 1) as nat,
            (g - 1) as nat,
        );
    }
}

/// `m` links are enough to walk back from the pending block `p`, and fewer
/// are not.
spec fn takes(p: BlockHash, pending: Map<BlockHash, BlockView>, committed_height: u64, m: nat) -> bool {
    &&& pending.contains_key(p)
    &&& walk_back(pending[p], pending, committed_height, m) is Some
    &&& m > 0 ==> walk_back(pending[p], pending, committed_height, (m - 1) as nat) is None
}

/// The least number of links that is enough.
proof fn lemma_least(p: BlockHash, pending: Map<BlockHash, BlockView>, committed_height: u64, f: nat) -> (m: nat)
    requires
        pending.contains_key(p),
        walk_back(pending[p], pending, committed_height, f) is Some,
    ensures
        takes(p, pending, committed_height, m),
    decreases f,
{
    if f > 0 && walk_back(pending[p], pending, committed_height, (f - 1) as nat) is Some {
        lemma_least(p, pending, committed_height, (f - 1) as nat)
    } else {
        f
    }
}

/// A walk does not come back to where it started: along it, `p` is never a
/// parent. So it is the same walk without `p`.
proof fn lemma_without(
    d: BlockView,
    p: BlockHash,
    pending: Map<BlockHash, BlockView>,
    committed_height: u64,
    k: nat,
    m: nat,
)
    requires
        takes(p, pending, committed_height, m),
        k <= m,
        walk_back(d, pending, committed_height, k) is Some,
    ensures
        walk_back(d, pending.remove(p), committed_height, k) is Some,
    decreases k,
{
    if d.header.height > committed_height && pending.contains_key(d.header.parent_hash) {
        let j = (k - 1) as nat;
        if d.header.parent_hash == p {
            lemma_walk_fuel(pending[p], pending, committed_height, j, (m - 1) as nat);
        } else {
            lemma_without(pending[d.header.parent_hash], p, pending, committed_height, j, m);
        }
    }
}

/// A walk that is finished without `p` in `k` links is so with it.
proof fn lemma_with(
    d: BlockView,
    p: BlockHash,
    pending: Map<BlockHash, BlockView>,
    committed_height: u64,
    k: nat,
    n: nat,
    m: nat,
)
    requires
        takes(p, pending, committed_height, m),
        n <= m,
        walk_back(d, pending, committed_height, n) is Some,
        walk_back(d, pending.remove(p), committed_height, k) is Some,
    ensures
        walk_back(d, pending, committed_height, k) is Some,
    decreases k,
{
    if d.header.height > committed_height && pending.contains_key(d.header.parent_hash) {
        let j = (n - 1) as nat;
        if d.header.parent_hash == p {
            lemma_walk_fuel(pending[p], pending, committed_height, j, (m - 1) as nat);
        } else {
            lemma_with(pending[d.header.parent_hash], p, pending, committed_height, (k - 1) as nat, j, m);
        }
    }
}

/// A walk that comes to an end takes no more links than there are pending
/// blocks: only one that goes in circles is cut short.
pub proof fn a_walk_that_ends_is_followed(
    b: BlockView,
    pending: Map<BlockHash, BlockView>,
    committed_height: u64,
    f: nat,
)
    requires
        pending.dom().finite(),
        walk_back(b, pending, committed_height, f) is Some,
    ensures
        ancestors(b, pending, committed_height) == walk_back(b, pending, committed_height, f),
    decreases pending.len(),
{
    let p = b.header.parent_hash;
    if b.header.height > committed_height && pending.contains_key(p) {
        let m = lemma_least(p, pending, committed_height, (f - 1) as nat);
        let less = pending.remove(p);
        lemma_without(pending[p], p, pending, committed_height, m, m);
        assert(less.dom() =~= pending.dom().remove(p));
        a_walk_that_ends_is_followed(pending[p], less, committed_height, m);
        lemma_with(pending[p], p, pending, committed_height, less.len(), m, m);
        assert(pending.len() == less.len() + 1);
    }
    let n = pending.len();
    assert(walk_back(b, pending, committed_height, n) is Some);
    if f <= n {
        lemma_walk_fuel(b, pending, committed_height, f, n);
    } else {
        lemma_walk_fuel(b, pending, committed_height, n, f);
    }
}

/// Along parent links among the pending blocks, heights fall.
pub open spec fn heights_fall(pending: Map<BlockHash, BlockView>) -> bool {
    forall|h: BlockHash| #[trigger]
        pending.contains_key(h) && pending.contains_key(pending[h].header.parent_hash)
            ==> pending[pending[h].header.parent_hash].header.height < pending[h].header.height
}

/// Where heights fall along parent links, every walk comes to an end.
pub proof fn falling_heights_end_the_walk(
    b: BlockView,
    pending: Map<BlockHash, BlockView>,
    committed_height: u64,
)
    requires
        pending.dom().finite(),
        heights_fall(pending),
    ensures
        ancestors(b, pending, committed_height) is Some,
{
    if pending.contains_key(b.header.parent_hash) {
        let p = pending[b.header.parent_hash];
        lemma_falls(b.header.parent_hash, pending, committed_height, p.header.height as nat);
        a_walk_that_ends_is_followed(b, pending, committed_height, (p.header.height + 1) as nat);
    }
}

proof fn lemma_falls(h: BlockHash, pending: Map<BlockHash, BlockView>, committed_height: u64, fuel: nat)
    requires
        heights_fall(pending),
        pending.contains_key(h),
        pending[h].header.height <= fuel,
    ensures
        walk_back(pending[h], pending, committed_height, fuel) is Some,
    decreases fuel,
{
    let b = pending[h];
    if b.header.height > committed_height && pending.contains_key(b.header.parent_hash) {
        lemma_falls(b.header.parent_hash, pending, committed_height, (fuel - 1) as nat);
    }
}

/// Every block of the chain lies above the committed boundary, the first is
/// the block itself if it does, and each is followed by its parent.
pub proof fn ancestors_are_linked_and_uncommitted(
    b: BlockView,
    pending: Map<BlockHash, BlockView>,
    committed_height: u64,
)
    requires
        ancestors(b, pending, committed_height) is Some,
    ensures
        ({
            let chain = ancestors(b, pending, committed_height)->0;
            &&& forall|i: int| 0 <= i < chain.len() ==> (#[trigger] chain[i]).header.height > committed_height
            &&& chain.len() > 0 <==> b.header.height > committed_height
            &&& chain.len() > 0 ==> chain[0] == b
            &&& forall|i: int|
                0 <= i < chain.len() - 1 ==> pending.contains_key((#[trigger] chain[i]).header.parent_hash)
                    && chain[i + 1] == pending[chain[i].header.parent_hash]
            &&& chain.len() > 0 ==> ({
                let end = chain.last().header.parent_hash;
                pending.contains_key(end) ==> pending[end].header.height <= committed_height
            })
        }),
{
    lemma_walk_shape(b, pending, committed_height, pending.len());
}

proof fn lemma_walk_shape(b: BlockView, pending: Map<BlockHash, BlockView>, committed_height: u64, f: nat)
    requires
        walk_back(b, pending, committed_height, f) is Some,
    ensures
        ({
            let chain = walk_back(b, pending, committed_height, f)->0;
            &&& forall|i: int| 0 <= i < chain.len() ==> (#[trigger] chain[i]).header.height > committed_height
            &&& chain.len() > 0 <==> b.header.height > committed_height
            &&& chain.len() > 0 ==> chain[0] == b
            &&& forall|i: int|
                0 <= i < chain.len() - 1 ==> pending.contains_key((#[trigger] chain[i]).header.parent_hash)
                    && chain[i + 1] == pending[chain[i].header.parent_hash]
            &&& chain.len() > 0 ==> ({
                let end = chain.last().header.parent_hash;
                pending.contains_key(end) ==> pending[end].header.height <= committed_height
            })
        }),
    decreases f,
{
    if b.header.height > committed_height && pending.contains_key(b.header.parent_hash) {
        let p = pending[b.header.parent_hash];
        lemma_walk_shape(p, pending, committed_height, (f - 1) as nat);
        let rest = walk_back(p, pending, committed_height, (f - 1) as nat)->0;
        let chain = seq![b] + rest;
        assert forall|i: int| 0 <= i < chain.len() implies (#[trigger] chain[i]).header.height > committed_height by {
            if i > 0 {
                assert(chain[i] == rest[i - 1]);
            }
        }
        assert forall|i: int| 0 <= i < chain.len() - 1 implies pending.contains_key(
            (#[trigger] chain[i]).header.parent_hash,
        ) && chain[i + 1] == pending[chain[i].header.parent_hash] by {
            if i > 0 {
                assert(chain[i] == rest[i - 1]);
                assert(chain[i + 1] == rest[i]);
            } else {
                assert(chain[1] == rest[0]);
            }
        }
        if rest.len() > 0 {
            assert(chain.last() == rest.last());
        }
    }
}

/// The blocks from `parent` back to the committed boundary, newest first.
///
/// The walk follows parent hashes, so the order in which the pending blocks
/// are kept cannot be seen in the result. It stops at a block at or below
/// `committed_height` and at a parent that is not pending. There is no result
/// where parent links go in circles.
pub fn uncommitted_ancestor_chain(parent: &Block, pending_blocks: &BlockMap, committed_height: u64) -> (r: Option<
    Vec<Block>,
>)
    requires
        pending_blocks.wf(),
    ensures
        match r {
            Some(chain) => ancestors(parent@, pending_blocks@, committed_height) == Some(blocks_view(chain@)),
            None => ancestors(parent@, pending_blocks@, committed_height) is None,
        },
{
    let ghost pending = pending_blocks@;
    let mut left: usize = pending_blocks.len();
    let ghost whole = walk_back(parent@, pending, committed_height, left as nat);
    let mut chain: Vec<Block> = Vec::new();
    let mut cursor: Block = parent.copy();
    assert(blocks_view(chain@) =~= seq![]);
    proof {
        if let Some(w) = whole {
            assert(blocks_view(chain@) + w =~= w);
        }
    }
    loop
        invariant
            pending_blocks.wf(),
            pending == pending_blocks@,
            whole == ancestors(parent@, pending_blocks@, committed_height),
            match walk_back(cursor@, pending, committed_height, left as nat) {
                Some(rest) => whole == Some(blocks_view(chain@) + rest),
                None => whole is None,
            },
        decreases left,
    {
        let ghost done = blocks_view(chain@);
        let ghost c = cursor@;
        if cursor.header.height <= committed_height {
            assert(done + Seq::<BlockView>::empty() =~= done);
            return Some(chain);
        }
        let parent_hash = cursor.header.parent_hash;
        chain.push(cursor);
        assert(blocks_view(chain@) =~= done.push(c));
        match pending_blocks.get(&parent_hash) {
            Some(next) => {
                if left == 0 {
                    return None;
                }
                proof {
                    if let Some(rest) = walk_back(pending[parent_hash], pending, committed_height, (left - 1) as nat) {
                        assert(done + (seq![c] + rest) =~= blocks_view(chain@) + rest);
                    }
                }
                left = left - 1;
                cursor = next.copy();
            },
            None => {
                assert(done + seq![c] =~= blocks_view(chain@));
                return Some(chain);
            },
        }
    }
}

/// The commands of a chain of blocks, oldest block first; the chain itself
/// is newest first.
pub open spec fn chain_commands(chain: Seq<BlockView>) -> Seq<Seq<u8>>
    decreases chain.len(),
{
    if chain.len() == 0 {
        seq![]
    } else {
        chain_commands(chain.skip(1)) + chain[0].commands
    }
}

/// Everything that the candidate block stands on: the commands of the
/// uncommitted ancestors, oldest first, then its own.
pub open spec fn forked_commands(chain: Seq<BlockView>, commands: Seq<Seq<u8>>) -> Seq<Seq<u8>> {
    chain_commands(chain) + commands
}

proof fn lemma_chain_step(chain: Seq<BlockView>, k: int)
    requires
        0 <= k < chain.len(),
    ensures
        chain_commands(chain.skip(k)) == chain_commands(chain.skip(k + 1)) + chain[k].commands,
{
    let s = chain.skip(k);
    assert(s.skip(1) =~= chain.skip(k + 1));
    assert(s[0] == chain[k]);
}

/// Builds candidate blocks for this replica.
#[derive(Clone, Copy, Debug)]
pub struct MempoolBlockBuilder {
    self_id: NodeId,
    propose_limit: usize,
}

impl MempoolBlockBuilder {
    pub closed spec fn id(&self) -> NodeId {
        self.self_id
    }

    pub closed spec fn limit(&self) -> usize {
        self.propose_limit
    }

    /// A builder for the replica `self_id` that takes at most
    /// `propose_limit` commands from the mempool per block.
    pub fn new(self_id: NodeId, propose_limit: usize) -> (r: MempoolBlockBuilder)
        ensures
            r.id() == self_id,
            r.limit() == propose_limit,
    {
        MempoolBlockBuilder { self_id, propose_limit }
    }

    /// How many commands to take from the mempool.
    pub fn propose_limit(&self) -> (r: usize)
        ensures
            r == self.limit(),
    {
        self.propose_limit
    }

    /// A child of `parent` for `view` over the commands that the mempool
    /// proposed.
    ///
    /// The state commitment is that of the committed state after the
    /// commands of the uncommitted ancestors, oldest first, and then the
    /// candidate's. Rejected commands change nothing; `dropped_commands`
    /// counts them. The application is put back to where it was; where it
    /// cannot, there is no block.
    pub fn build<S: StateMachine, D: Digests>(
        &self,
        digests: &D,
        parent: &Block,
        view: u64,
        pending_blocks: &BlockMap,
        committed_height: u64,
        commands: Vec<Vec<u8>>,
        sm: &mut S,
        dropped_commands: &mut u64,
    ) -> (r: Result<BlockDraft, BuildError>)
        requires
            parent@.header.height < u64::MAX,
            pending_blocks.wf(),
        ensures
            match ancestors(parent@, pending_blocks@, committed_height) {
                None => {
                    &&& r == Err::<BlockDraft, BuildError>(BuildError::CircularAncestry)
                    &&& final(sm).model() == old(sm).model()
                    &&& *final(dropped_commands) == *old(dropped_commands)
                },
                Some(chain) => {
                    let all = forked_commands(chain, payloads(commands@));
                    let end = run_commands::<S>(old(sm).model(), all);
                    &&& *final(dropped_commands) as int == (*old(dropped_commands) as int + rejected_count::<S>(
                        old(sm).model(),
                        all,
                    )) % 0x1_0000_0000_0000_0000
                    &&& match r {
                        Ok(draft) => {
                            &&& final(sm).model() == old(sm).model()
                            &&& payloads(draft.commands@) == payloads(commands@)
                            &&& draft.header.parent_hash == parent@.hash
                            &&& draft.header.height == parent@.header.height + 1
                            &&& draft.header.view == view
                            &&& draft.header.proposer == self.id()
                            &&& draft.header.state_commitment == S::commitment_to(end)
                            &&& draft.header.commands_commitment == digests.commands_digest(payloads(commands@))
                            &&& crate::types::blank(draft.header.validator_history_commitment)
                        },
                        Err(e) => e is RestoreFailed && !S::restores_all(),
                    }
                },
            },
    {
        let chain = match uncommitted_ancestor_chain(parent, pending_blocks, committed_height) {
            Some(chain) => chain,
            None => {
                return Err(BuildError::CircularAncestry);
            },
        };
        let commands_commitment = digests.commit_commands(&commands);
        let (state_commitment, restored) = fork_commitment(sm, &chain, &commands, dropped_commands);
        self.assemble(parent, view, commands, commands_commitment, state_commitment, restored)
    }

    /// The block that goes with the two commitments, or none where the
    /// application could not be restored.
    pub fn assemble(
        &self,
        parent: &Block,
        view: u64,
        commands: Vec<Vec<u8>>,
        commands_commitment: Bytes32,
        state_commitment: Bytes32,
        restored: Result<(), RestoreError>,
    ) -> (r: Result<BlockDraft, BuildError>)
        requires
            parent@.header.height < u64::MAX,
        ensures
            r is Ok <==> restored is Ok,
            restored matches Err(e) ==> r == Err::<BlockDraft, BuildError>(BuildError::RestoreFailed(e)),
            r matches Ok(draft) ==> {
                &&& payloads(draft.commands@) == payloads(commands@)
                &&& draft.header.parent_hash == parent@.hash
                &&& draft.header.height == parent@.header.height + 1
                &&& draft.header.view == view
                &&& draft.header.proposer == self.id()
                &&& draft.header.state_commitment == state_commitment
                &&& draft.header.commands_commitment == commands_commitment
                &&& crate::types::blank(draft.header.validator_history_commitment)
            },
    {
        match restored {
            Ok(_) => Ok(
                BlockDraft {
                    header: BlockHeader {
                        parent_hash: parent.hash(),
                        height: parent.header.height + 1,
                        view,
                        proposer: self.self_id,
                        state_commitment,
                        commands_commitment,
                        validator_history_commitment: [0u8; 32],
                    },
                    commands,
                },
            ),
            Err(e) => Err(BuildError::RestoreFailed(e)),
        }
    }
}

/// The commitment to the state after a chain of blocks, given newest first,
/// and a list of commands. The application runs them and is then restored;
/// the second result is what `restore` said.
pub fn fork_commitment<S: StateMachine>(
    sm: &mut S,
    chain: &Vec<Block>,
    commands: &Vec<Vec<u8>>,
    dropped_commands: &mut u64,
) -> (r: (Bytes32, Result<(), RestoreError>))
    ensures
        ({
            let all = forked_commands(blocks_view(chain@), payloads(commands@));
            &&& r.0 == S::commitment_to(run_commands::<S>(old(sm).model(), all))
            &&& r.1 is Ok ==> final(sm).model() == old(sm).model()
            &&& S::restores_all() ==> r.1 is Ok
            &&& *final(dropped_commands) as int == (*old(dropped_commands) as int + rejected_count::<S>(
                old(sm).model(),
                all,
            )) % 0x1_0000_0000_0000_0000
        }),
{
    let ghost m0 = sm.model();
    let ghost cv = blocks_view(chain@);
    let snap = sm.snapshot();
    let ghost d0 = *dropped_commands as int;
    let mut k: usize = chain.len();
    assert(cv.skip(k as int) =~= seq![]);
    while k > 0
        invariant
            k <= chain.len(),
            cv == blocks_view(chain@),
            sm.model() == run_commands::<S>(m0, chain_commands(cv.skip(k as int))),
            0 <= d0 < 0x1_0000_0000_0000_0000,
            *dropped_commands as int == (d0 + rejected_count::<S>(m0, chain_commands(cv.skip(k as int))))
                % 0x1_0000_0000_0000_0000,
        decreases k,
    {
        let ghost before = *dropped_commands as int;
        proof {
            lemma_chain_step(cv, k - 1);
            assert(cv[k - 1].commands == payloads(chain@[k - 1].commands@));
            lemma_run_concat::<S>(m0, chain_commands(cv.skip(k as int)), cv[k - 1].commands);
        }
        let rejected = apply_all(sm, &chain[k - 1].commands);
        *dropped_commands = dropped_commands.wrapping_add(rejected as u64);
        k = k - 1;
    }
    assert(cv.skip(0) =~= cv);
    proof {
        lemma_run_concat::<S>(m0, chain_commands(cv), payloads(commands@));
    }
    let rejected = apply_all(sm, commands);
    *dropped_commands = dropped_commands.wrapping_add(rejected as u64);
    let commitment = sm.state_commitment();
    let restored = sm.restore(snap.as_slice());
    (commitment, restored)
}

// ---- the commitment and the replicas -------------------------------------

/// The state of a replica that commits the blocks of a chain, given newest
/// first, one after the other from the oldest on.
pub open spec fn after_commits<S: StateMachine>(m: S::Model, chain: Seq<BlockView>) -> S::Model
    decreases chain.len(),
{
    if chain.len() == 0 {
        m
    } else {
        run_commands::<S>(after_commits::<S>(m, chain.skip(1)), chain[0].commands)
    }
}

/// A replica that commits the uncommitted ancestors of a block and then the
/// block itself reaches the very state that the leader committed to.
pub proof fn replicas_reach_the_committed_state<S: StateMachine>(
    m: S::Model,
    chain: Seq<BlockView>,
    commands: Seq<Seq<u8>>,
)
    ensures
        run_commands::<S>(after_commits::<S>(m, chain), commands) == run_commands::<S>(
            m,
            forked_commands(chain, commands),
        ),
    decreases chain.len(),
{
    lemma_run_concat::<S>(m, chain_commands(chain), commands);
    if chain.len() == 0 {
        assert(chain_commands(chain) =~= seq![]);
    } else {
        replicas_reach_the_committed_state::<S>(m, chain.skip(1), chain[0].commands);
    }
}

} // verus!
