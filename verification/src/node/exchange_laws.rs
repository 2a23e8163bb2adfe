//! What a node answers, files, reports and asks for.

use vstd::prelude::*;

use crate::bytes::Bytes32;
use crate::codec::parse_draft;
use crate::decimal::decimal;
use crate::digests::{genuine, Digests};
use crate::messages::SafetyEvent;
use crate::node::actions::{
    effect_of, flushed, next_step, outward, summary, EffectView, SafetyAction, StepContext, StepSummary,
};
use crate::node::audit::{audited, claims_hold, rebuilt, EvidenceView};
use crate::node::consensus_node::{ConsensusNode, NodeView};
use crate::node::dispatch::{
    after_dispatch, answered, block_verdict, dispatched, lag_of, other_than, serves, BlockDrop, BlockSource, Dispatch,
    DispatchStep,
};
use crate::node::listing::{names_in_order, text_at_most, text_below_at};
use crate::node::rebuild::{chain_of, chain_to, committed, fetched, seed, HistoriesView, HistoryError};
use crate::node::recovery::opt_block;
use crate::node::status::{
    bucket_keys, is_order, near, parked_keys, role, shows_buckets, shows_parked, shows_timeouts, ParkedProposal,
    ParkedProposalStatus, TimeoutBucketStatus, VoteBucket, VoteBucketStatus,
};
use crate::storage::{block_key, lookup};
use crate::trusted::hex_string;
use crate::types::{Block, BlockHash, BlockView, SignatureSchemeChoice};
use crate::validator_set::{Member, NodeId};

verus! {

// ---- blocks that are asked for -------------------------------------------

/// A block that the node has is served. One that is pending is served as it
/// is; one that is not, but can be read from the store, is served with the
/// content that is stored; and one that is neither is not made up.
pub proof fn a_block_that_is_there_is_served<D: Digests>(
    d: &D,
    n: NodeView,
    m: Map<Seq<u8>, Seq<u8>>,
    hash: BlockHash,
    block: Option<BlockView>,
    source: BlockSource,
)
    requires
        serves(d, n, m, true, hash, block, source),
    ensures
        n.state.pending_blocks.contains_key(hash) ==> block == Some(n.state.pending_blocks[hash]),
        !n.state.pending_blocks.contains_key(hash) ==> match lookup(m, block_key(hash)) {
            Some(bytes) => match parse_draft(bytes) {
                Some(content) => block is Some && block->0.content() == content && genuine(d, block->0),
                None => block is None,
            },
            None => block is None,
        },
        block is Some <==> source == BlockSource::Pending || source == BlockSource::Storage,
{
}

/// An unsteady store can fail to serve a block, but it cannot serve a wrong
/// one.
pub proof fn a_block_that_is_served_is_there<D: Digests>(
    d: &D,
    n: NodeView,
    m: Map<Seq<u8>, Seq<u8>>,
    hash: BlockHash,
    block: Option<BlockView>,
    source: BlockSource,
)
    requires
        serves(d, n, m, false, hash, block, source),
        block is Some,
    ensures
        block == Some(n.state.pending_blocks[hash]) && n.state.pending_blocks.contains_key(hash) || (lookup(
            m,
            block_key(hash),
        ) matches Some(bytes) && parse_draft(bytes) == Some(block->0.content()) && genuine(d, block->0)),
{
}

/// A block that was asked for is filed when it comes, under its hash, and only
/// its own request is closed by it.
pub proof fn a_block_that_was_asked_for_is_filed<D: Digests>(
    d: &D,
    n: NodeView,
    b: Block,
    from: NodeId,
    other: BlockHash,
)
    requires
        n.block_sync_inflight.contains(d.block_digest(b@.content())),
    ensures
        ({
            let hash = d.block_digest(b@.content());
            let a = after_dispatch(d, n, Dispatch::ReceiveBlock { requested_hash: hash, block: Some(b), from });
            &&& a.state.pending_blocks.contains_key(hash)
            &&& a.state.pending_blocks[hash].content() == b@.content()
            &&& a.state.pending_blocks[hash].hash == hash
            &&& other != hash ==> a.state.pending_blocks.contains_key(other) == n.state.pending_blocks.contains_key(other)
            &&& other != hash ==> a.state.pending_blocks[other] == n.state.pending_blocks[other]
            &&& other != hash ==> (a.block_sync_inflight.contains(other) <==> n.block_sync_inflight.contains(other))
            &&& !a.block_sync_inflight.contains(hash)
        }),
{
    broadcast use vstd::seq_lib::group_filter_ensures;

    let hash = d.block_digest(b@.content());
    let s = n.block_sync_inflight;
    let p = other_than(hash);
    let f = s.filter(p);
    assert(answered(s, hash) == f);
    if f.contains(hash) {
        let i = choose|i: int| 0 <= i < f.len() && f[i] == hash;
        assert(p(f[i]));
    }
    if other != hash {
        if s.contains(other) {
            let i = choose|i: int| 0 <= i < s.len() && s[i] == other;
            assert(p(s[i]));
        }
        if f.contains(other) {
            s.lemma_filter_contains_rev(p, other);
        }
    }
}

/// What is dropped is told apart: no block at all, content with another hash,
/// or content that nobody asked for.
pub proof fn dropped_answers_are_told_apart<D: Digests>(d: &D, n: NodeView, requested: BlockHash, b: Block)
    ensures
        block_verdict(d, n, requested, None) == Some(BlockDrop::NotFound),
        block_verdict(d, n, requested, Some(b)) == Some(BlockDrop::HashMismatch) <==> d.block_digest(b@.content())
            != requested,
        block_verdict(d, n, requested, Some(b)) == Some(BlockDrop::Unrequested) <==> d.block_digest(b@.content())
            == requested && !n.block_sync_inflight.contains(requested),
        block_verdict(d, n, requested, Some(b)) is None <==> d.block_digest(b@.content()) == requested
            && n.block_sync_inflight.contains(requested),
{
}

/// A proposal tells how far ahead of the node it is; no other event does.
pub proof fn only_proposals_tell_of_a_lag(event: SafetyEvent, committed_height: u64)
    ensures
        lag_of(event, committed_height) is Some <==> event is ProposalReceived,
        event matches SafetyEvent::ProposalReceived(s) ==> {
            let lag = lag_of(event, committed_height)->0;
            &&& lag.committed_height == committed_height
            &&& lag.proposal_height == s.payload.block.header.height
            &&& lag.proposer == s.signer
        },
{
}

// ---- actions of the safety rules -----------------------------------------

/// Every action other than an update has its effect: commits and equivocations
/// are handed on as they are, and a block is asked for from whom it should be,
/// unless that is the replica itself.
pub proof fn every_action_has_its_effect(a: SafetyAction, self_id: NodeId)
    ensures
        a matches SafetyAction::Commit(b) ==> effect_of(a, self_id) == seq![EffectView::Commit(b)],
        a matches SafetyAction::EquivocationEvidence { voter, view, block_a, block_b } ==> effect_of(a, self_id) == seq![
            EffectView::Equivocation { voter, view, block_a, block_b },
        ],
        a matches SafetyAction::RequestBlock { hash, peer, expected_height, reason } ==> {
            &&& peer != self_id ==> effect_of(a, self_id) == seq![
                EffectView::RequestBlock { hash, peer, expected_height, reason },
            ]
            &&& peer == self_id ==> effect_of(a, self_id).len() == 0
        },
        effect_of(a, self_id).len() == 0 <==> a is Persist || (a is RequestBlock && a->peer == self_id),
{
}

/// The summary of a step tells whether it led to a vote, to a request for a
/// block, or to a proposal.
pub proof fn a_summary_tells_what_a_step_led_to(ctx: StepContext, actions: Seq<SafetyAction>)
    ensures
        match (ctx, summary(ctx, actions)) {
            (
                StepContext::Proposal { proposer, view, height },
                StepSummary::Proposal { proposer: p, view: v, height: h, voted, parked },
            ) => {
                &&& p == proposer && v == view && h == height
                &&& voted <==> exists|i: int|
                    0 <= i < actions.len() && (#[trigger] actions[i] matches SafetyAction::Broadcast(m) && m is Vote)
                &&& parked <==> exists|i: int| 0 <= i < actions.len() && #[trigger] actions[i] is RequestBlock
            },
            (StepContext::Vote { voter, view }, StepSummary::Vote { voter: p, view: v, formed_qc }) => {
                &&& p == voter && v == view
                &&& formed_qc <==> exists|i: int|
                    0 <= i < actions.len() && (#[trigger] actions[i] matches SafetyAction::Broadcast(m) && m is Proposal)
            },
            (
                StepContext::NewView { sender, high_qc_view },
                StepSummary::NewView { sender: s, high_qc_view: v },
            ) => s == sender && v == high_qc_view,
            (StepContext::Silent, StepSummary::Silent) => true,
            _ => false,
        },
{
    let votes = |a: SafetyAction| crate::node::actions::casts_vote(a);
    let asks = |a: SafetyAction| crate::node::actions::asks_for_block(a);
    let proposes = |a: SafetyAction| crate::node::actions::proposes(a);
    assert forall|i: int| 0 <= i < actions.len() implies (votes(#[trigger] actions[i]) <==> (
    actions[i] matches SafetyAction::Broadcast(m) && m is Vote)) by {}
    assert forall|i: int| 0 <= i < actions.len() implies (asks(#[trigger] actions[i]) <==> actions[i] is RequestBlock) by {}
    assert forall|i: int| 0 <= i < actions.len() implies (proposes(#[trigger] actions[i]) <==> (
    actions[i] matches SafetyAction::Broadcast(m) && m is Proposal)) by {}
}

// ---- the committed chain -------------------------------------------------

/// The stored chain is linked: it starts with a block of height zero, every
/// block after it is higher than that, names the one before it as its parent,
/// and the last one is the block that the walk started from.
pub proof fn the_stored_chain_is_linked<D: Digests>(
    d: &D,
    m: Map<Seq<u8>, Seq<u8>>,
    n: NodeView,
    cursor: BlockHash,
    fuel: nat,
)
    requires
        chain_to(d, m, n, cursor, fuel) matches Some(Ok(_)),
    ensures
        ({
            let c = chain_to(d, m, n, cursor, fuel)->0->Ok_0;
            &&& c.len() > 0
            &&& c[0].header.height == 0
            &&& fetched(d, m, n, cursor) == Ok::<BlockView, HistoryError>(c.last())
            &&& forall|i: int| 0 < i < c.len() ==> (#[trigger] c[i]).header.height > 0
            &&& forall|i: int|
                0 < i < c.len() ==> fetched(d, m, n, (#[trigger] c[i]).header.parent_hash) == Ok::<
                    BlockView,
                    HistoryError,
                >(c[i - 1])
        }),
    decreases fuel,
{
    let b = fetched(d, m, n, cursor)->Ok_0;
    if b.header.height != 0 {
        the_stored_chain_is_linked(d, m, n, b.header.parent_hash, (fuel - 1) as nat);
        let rest = chain_to(d, m, n, b.header.parent_hash, (fuel - 1) as nat)->0->Ok_0;
        let c = chain_to(d, m, n, cursor, fuel)->0->Ok_0;
        assert forall|i: int| 0 < i < c.len() implies fetched(d, m, n, (#[trigger] c[i]).header.parent_hash) == Ok::<
            BlockView,
            HistoryError,
        >(c[i - 1]) by {
            if i < rest.len() {
                assert(c[i] == rest[i]);
            }
            assert(c[i - 1] == rest[i - 1]);
        }
        assert forall|i: int| 0 < i < c.len() implies (#[trigger] c[i]).header.height > 0 by {
            if i < rest.len() {
                assert(c[i] == rest[i]);
            }
        }
    }
}

/// What is fetched for a hash is the genesis block in memory, or a block whose
/// content is stored under that hash.
pub proof fn blocks_are_fetched_by_their_hash<D: Digests>(
    d: &D,
    m: Map<Seq<u8>, Seq<u8>>,
    n: NodeView,
    cursor: BlockHash,
)
    ensures
        fetched(d, m, n, cursor) matches Ok(b) ==> {
            ||| cursor == n.state.genesis_hash && n.state.pending_blocks.contains_key(cursor)
                && b == n.state.pending_blocks[cursor]
            ||| lookup(m, block_key(cursor)) matches Some(bytes) && parse_draft(bytes) == Some(b.content()) && genuine(d, b)
        },
        fetched(d, m, n, cursor) == Err::<BlockView, HistoryError>(HistoryError::MissingBlock(cursor)) <==> cursor
            != n.state.genesis_hash && lookup(m, block_key(cursor)) is None,
        fetched(d, m, n, cursor) == Err::<BlockView, HistoryError>(HistoryError::MissingGenesis(cursor)) <==> cursor
            == n.state.genesis_hash && !n.state.pending_blocks.contains_key(cursor) && lookup(m, block_key(cursor)) is None,
{
}

/// The committed chain is the one that ends with the block of the checkpoint,
/// and it starts with the configured genesis block or is refused.
pub proof fn the_committed_chain_starts_at_genesis<D: Digests>(d: &D, m: Map<Seq<u8>, Seq<u8>>, n: NodeView)
    requires
        committed(d, m, n) matches Ok(Some(_)),
    ensures
        ({
            let c = committed(d, m, n)->Ok_0->0;
            let record = lookup(m, crate::storage::key_bytes(crate::storage::STORAGE_KEY_LAST_COMMITTED));
            let last = crate::codec::parse_last_committed(record->0);
            &&& record is Some
            &&& last is Some
            &&& last->0.height > 0
            &&& c.len() > 0
            &&& c[0].header.height == 0
            &&& c[0].hash == n.state.genesis_hash
            &&& fetched(d, m, n, last->0.last_committed_hash) == Ok::<BlockView, HistoryError>(c.last())
        }),
{
    let record = lookup(m, crate::storage::key_bytes(crate::storage::STORAGE_KEY_LAST_COMMITTED));
    let last = crate::codec::parse_last_committed(record->0)->0;
    assert(chain_of(d, m, n, last.last_committed_hash) is Ok);
    the_stored_chain_is_linked(d, m, n, last.last_committed_hash, usize::MAX as nat);
}

// ---- the audit -----------------------------------------------------------

/// A mismatch that the audit reports is a real one, and the first: the block
/// that it names claims something else than the chain up to it leads to, and
/// every block before it claims what it leads to.
pub proof fn a_reported_mismatch_is_the_first<D: Digests>(
    d: &D,
    loaded: HistoriesView,
    scheme: SignatureSchemeChoice,
    min_delay: u64,
    chain: Seq<BlockView>,
    evidence: Seq<EvidenceView>,
    height: u64,
    view: u64,
    hash: BlockHash,
    claimed: Bytes32,
    actual: Bytes32,
)
    requires
        audited(
            d,
            loaded,
            scheme,
            min_delay,
            chain,
            evidence,
            Err(HistoryError::CommitmentMismatch { height, view, hash, claimed, actual }),
        ),
    ensures
        exists|i: int|
            {
                &&& 0 <= i < chain.len()
                &&& (#[trigger] chain[i]).header.height == height
                &&& chain[i].header.view == view
                &&& chain[i].hash == hash
                &&& chain[i].header.validator_history_commitment == claimed
                &&& claimed != actual
                &&& actual == d.history_digest(rebuilt(seed(loaded), scheme, min_delay, chain, evidence, i + 1))
                &&& forall|j: int|
                    0 <= j < i ==> (#[trigger] chain[j]).header.validator_history_commitment == d.history_digest(
                        rebuilt(seed(loaded), scheme, min_delay, chain, evidence, j + 1),
                    )
            },
{
    let start = seed(loaded);
    let n = chain.len() as int;
    if claims_hold(d, start, scheme, min_delay, chain, evidence, n) {
        assert(false);
    } else {
        let i = choose|i: int|
            {
                let x = d.history_digest(rebuilt(start, scheme, min_delay, chain, evidence, i + 1));
                &&& 0 <= i < n
                &&& claims_hold(d, start, scheme, min_delay, chain, evidence, i)
                &&& (#[trigger] chain[i]).header.validator_history_commitment != x
                &&& Err::<(), HistoryError>(
                    HistoryError::CommitmentMismatch { height, view, hash, claimed, actual },
                ) == Err::<(), HistoryError>(crate::node::audit::mismatch(chain[i], x))
            };
        assert(chain[i].hash == hash);
    }
}

/// A rebuild starts from the genesis committee that was loaded, its members
/// with their own keys, and nothing that came later.
pub proof fn a_rebuild_starts_at_genesis(loaded: HistoriesView, i: int)
    requires
        loaded.committees.len() > 0,
    ensures
        ({
            let s = seed(loaded);
            &&& s.committees.len() == 1
            &&& s.committees[0] == (0u64, loaded.committees[0].1)
            &&& s.bls is Some <==> loaded.bls is Some
            &&& 0 <= i < s.signing.len() ==> {
                &&& s.signing[i].1.len() == 1
                &&& s.signing[i].1[0].v_eff == 0
                &&& s.signing[i].1[0].key == s.signing[i].0
                &&& exists|k: int| 0 <= k < loaded.committees[0].1.len() && (#[trigger] loaded.committees[0].1[k]).id.id
                    == s.signing[i].0
            }
        }),
{
    crate::key_laws::members_join_with_their_own_key(seq![], loaded.committees[0].1, 0);
}

// ---- status --------------------------------------------------------------

/// The status lists the vote buckets near the current view, each once, by view
/// and then by hash, with the numbers that they have.
pub proof fn every_near_bucket_is_shown_once(
    s: Seq<VoteBucketStatus>,
    buckets: Seq<VoteBucket>,
    current: u64,
    window: u64,
    quorum: nat,
    k: int,
)
    requires
        shows_buckets(s, buckets, current, window, quorum),
    ensures
        forall|i: int, j: int| 0 <= i < j < s.len() ==> (#[trigger] s[i]).view <= (#[trigger] s[j]).view,
        forall|i: int|
            0 <= i < s.len() ==> current - window <= (#[trigger] s[i]).view <= current + window && s[i].quorum == quorum,
        0 <= k < s.len() ==> exists|b: VoteBucket|
            {
                &&& #[trigger] buckets.contains(b)
                &&& b.view == s[k].view
                &&& b.signers == s[k].signers
                &&& hex_string(b.block_hash@) == s[k].block_hash@
            },
        0 <= k < buckets.len() && current - window <= buckets[k].view <= current + window ==> exists|i: int|
            {
                &&& 0 <= i < s.len()
                &&& (#[trigger] s[i]).view == buckets[k].view
                &&& s[i].signers == buckets[k].signers
                &&& s[i].block_hash@ == hex_string(buckets[k].block_hash@)
            },
{
    broadcast use vstd::seq_lib::group_filter_ensures;

    let p = near(current, window);
    let f = buckets.filter(p);
    let keys = bucket_keys(f);
    let order = choose|order: Seq<usize>|
        {
            &&& #[trigger] is_order(keys, order)
            &&& s.len() == order.len()
            &&& forall|i: int|
                0 <= i < s.len() ==> crate::node::status::shows_bucket(#[trigger] s[i], f[order[i] as int], quorum)
        };
    assert forall|i: int, j: int| 0 <= i < j < s.len() implies (#[trigger] s[i]).view <= (#[trigger] s[j]).view by {
        assert(crate::node::status::listed_before(keys, order[i] as int, order[j] as int));
        assert(s[i].view == f[order[i] as int].view && s[j].view == f[order[j] as int].view);
    }
    assert forall|i: int| 0 <= i < s.len() implies current - window <= (#[trigger] s[i]).view <= current + window
        && s[i].quorum == quorum by {
        let x = order[i] as int;
        assert(0 <= x < f.len());
        assert(p(f[x]));
    }
    if 0 <= k < s.len() {
        let x = order[k] as int;
        assert(0 <= x < f.len());
        buckets.lemma_filter_contains_rev(p, f[x]);
    }
    if 0 <= k < buckets.len() && current - window <= buckets[k].view <= current + window {
        assert(p(buckets[k]));
        assert(f.contains(buckets[k]));
        let x = choose|x: int| 0 <= x < f.len() && f[x] == buckets[k];
        lemma_order_reaches(keys, order, x);
        let i = choose|i: int| 0 <= i < order.len() && #[trigger] order[i] == x;
        assert(s[i].view == f[x].view);
    }
}

/// A list of all positions that repeats none reaches each.
proof fn lemma_order_reaches(keys: Seq<(u64, BlockHash)>, order: Seq<usize>, x: int)
    requires
        is_order(keys, order),
        0 <= x < keys.len(),
    ensures
        exists|i: int| 0 <= i < order.len() && #[trigger] order[i] == x,
{
    crate::node::status::an_order_lists_each_once(keys, order);
    if forall|i: int| 0 <= i < order.len() ==> #[trigger] order[i] != x {
        let ints = Seq::new(order.len(), |i: int| order[i] as int);
        assert(ints.no_duplicates()) by {
            assert forall|i: int, j: int| 0 <= i < ints.len() && 0 <= j < ints.len() && i != j implies ints[i] != ints[j] by {
                assert(order[i] != order[j]);
            }
        }
        ints.unique_seq_to_set();
        let all = vstd::set_lib::set_int_range(0, keys.len() as int);
        vstd::set_lib::lemma_int_range(0, keys.len() as int);
        let rest = all.remove(x);
        assert forall|v: int| ints.to_set().contains(v) implies rest.contains(v) by {
            let i = choose|i: int| 0 <= i < ints.len() && ints[i] == v;
            assert(order[i] < keys.len());
            assert(order[i] != x);
        }
        vstd::set_lib::lemma_len_subset(ints.to_set(), rest);
        assert(false);
    }
}

/// The status lists every parked proposal once, by view, with its hashes.
pub proof fn every_parked_proposal_is_shown(s: Seq<ParkedProposalStatus>, parked: Seq<ParkedProposal>, k: int)
    requires
        shows_parked(s, parked),
    ensures
        s.len() == parked.len(),
        forall|i: int, j: int| 0 <= i < j < s.len() ==> (#[trigger] s[i]).view <= (#[trigger] s[j]).view,
        0 <= k < parked.len() ==> exists|i: int|
            {
                &&& 0 <= i < s.len()
                &&& (#[trigger] s[i]).view == parked[k].view
                &&& s[i].block_hash@ == hex_string(parked[k].block_hash@)
                &&& s[i].parent_hash@ == hex_string(parked[k].parent_hash@)
            },
{
    let keys = parked_keys(parked);
    let order = choose|order: Seq<usize>|
        {
            &&& #[trigger] is_order(keys, order)
            &&& s.len() == order.len()
            &&& forall|i: int|
                0 <= i < s.len() ==> {
                    let p = parked[order[i] as int];
                    &&& (#[trigger] s[i]).view == p.view
                    &&& s[i].block_hash@ == hex_string(p.block_hash@)
                    &&& s[i].parent_hash@ == hex_string(p.parent_hash@)
                }
        };
    assert forall|i: int, j: int| 0 <= i < j < s.len() implies (#[trigger] s[i]).view <= (#[trigger] s[j]).view by {
        assert(crate::node::status::listed_before(keys, order[i] as int, order[j] as int));
        assert(s[i].view == parked[order[i] as int].view && s[j].view == parked[order[j] as int].view);
    }
    if 0 <= k < parked.len() {
        lemma_order_reaches(keys, order, k);
        let i = choose|i: int| 0 <= i < order.len() && #[trigger] order[i] == k;
        assert(s[i].view == parked[k].view);
    }
}

/// In every view one member of the committee is shown as its leader, the
/// members taking turns; everybody else is shown as a replica.
pub proof fn one_member_is_shown_as_leader(m: Seq<Member>, view: u64, id: NodeId)
    ensures
        m.len() > 0 ==> role(m, m[view as int % m.len() as int].id.id, view) == "leader(view="@ + decimal(view as nat)
            + ")"@,
        m.len() == 0 || m[view as int % m.len() as int].id.id != id ==> role(m, id, view) == "replica"@,
{
}

/// Names stand as in a dictionary: of two different ones the first is a part of
/// the second or has the smaller character where they first differ.
pub proof fn names_stand_as_in_a_dictionary(s: Seq<Seq<char>>, i: int, j: int)
    requires
        names_in_order(s),
        0 <= i < j < s.len(),
        s[i] != s[j],
    ensures
        exists|k: int|
            {
                &&& 0 <= k < s[j].len()
                &&& k <= s[i].len()
                &&& forall|x: int| 0 <= x < k ==> #[trigger] s[i][x] == s[j][x]
                &&& k < s[i].len() ==> (s[i][k] as u32) < ((#[trigger] s[j][k]) as u32)
            },
{
    assert(text_at_most(s[i], s[j]));
    let k = choose|k: int| text_below_at(s[i], s[j], k);
    assert(text_below_at(s[i], s[j], k));
    let c = s[j][k];
}

// ---- inputs and plans ----------------------------------------------------

/// Every input reaches the part that it is meant for, as it is: the pacemaker
/// is stepped, timeout votes are counted with what is known of their
/// certificates, and whatever is not for the node's own state leaves it alone.
pub proof fn inputs_reach_their_part<D: Digests>(d: &D, n: NodeView, input: Dispatch)
    ensures
        input matches Dispatch::Pacemaker(ev) ==> after_dispatch(d, n, input) == (NodeView {
            pacemaker: crate::pacemaker::state_machine::next_state(n.pacemaker, ev),
            ..n
        }),
        input matches Dispatch::TimeoutVote { signer, vote, high_qc_trusted } ==> after_dispatch(d, n, input)
            == crate::node::driving::after_timeout_vote(n, signer, vote@, high_qc_trusted),
        input is Safety || input is ServeBlock || input is ServeSnapshotManifest || input is ServeSnapshotChunk
            || input is ReceiveSnapshotManifest || input is ReceiveSnapshotChunk ==> after_dispatch(d, n, input) == n,
{
}

/// What the driver is told to do about an input is about that input: requests
/// are answered to whoever made them and for what they asked for, answers are
/// handed on with whom they came from, and events reach the safety rules.
pub proof fn steps_are_about_their_input<D: Digests>(
    d: &D,
    pre: &ConsensusNode,
    m: Map<Seq<u8>, Seq<u8>>,
    input: Dispatch,
    r: DispatchStep,
)
    requires
        dispatched(d, pre, m, true, input, r),
    ensures
        input matches Dispatch::Safety(e) ==> (r matches DispatchStep::StepSafety { event, lag } && event == e && lag
            == lag_of(e, pre@.last_committed_height)),
        input matches Dispatch::ServeBlock { hash, to } ==> (r matches DispatchStep::SendBlock {
            hash: h,
            block,
            to: t,
            source,
        } && h == hash && t == to && serves(d, pre@, m, true, hash, opt_block(block), source)),
        input matches Dispatch::ReceiveBlock { requested_hash, block, .. } ==> match block_verdict(
            d,
            pre@,
            requested_hash,
            block,
        ) {
            Some(why) => r matches DispatchStep::BlockDropped(w) && w == why,
            None => r matches DispatchStep::BlockArrived { hash, current_view } && hash == requested_hash
                && current_view == pre@.pacemaker.current_view,
        },
        input matches Dispatch::TimeoutVote { signer, vote, high_qc_trusted } ==> (r matches DispatchStep::Timeout(s)
            && crate::node::driving::steps_view(s@) == crate::node::driving::timeout_steps(
            pre@,
            signer,
            vote@,
            high_qc_trusted,
        )),
        input matches Dispatch::Pacemaker(ev) ==> (r matches DispatchStep::Pacemaker(a) && a@
            == crate::pacemaker::state_machine::step_actions(&pre.pacemaker, ev)),
        input matches Dispatch::ServeSnapshotManifest { height, to } ==> (r matches DispatchStep::SendManifest {
            height: h,
            to: t,
        } && h == height && t == to),
        input matches Dispatch::ServeSnapshotChunk { height, chunk_idx, to } ==> (r matches DispatchStep::SendChunk {
            height: h,
            chunk_idx: i,
            to: t,
        } && h == height && i == chunk_idx && t == to),
        input matches Dispatch::ReceiveSnapshotManifest { manifest, from } ==> (
        r matches DispatchStep::ManifestArrived { manifest: x, from: f } && x == manifest && f == from),
        input matches Dispatch::ReceiveSnapshotChunk { height, chunk_idx, payload, from } ==> (
        r matches DispatchStep::ChunkArrived { height: h, chunk_idx: i, payload: p, from: f } && h == height && i
            == chunk_idx && p == payload && f == from),
{
}

/// A step of a plan loses nothing and repeats nothing: what it makes durable
/// and what the rest will is what the plan would, in order, and so with what
/// it hands out. It hands out no flush, and it gets on.
pub proof fn a_step_loses_nothing(effects: Seq<EffectView>)
    ensures
        ({
            let step = next_step(effects);
            let first = match step.handed {
                Some(e) => seq![e],
                None => seq![],
            };
            &&& flushed(effects) == step.flushed + flushed(step.rest)
            &&& outward(effects) == first + outward(step.rest)
            &&& effects.len() > 0 ==> step.rest.len() < effects.len()
            &&& step.handed matches Some(e) ==> !(e is Flush)
            &&& effects.len() > 0 && effects[0] is Flush ==> step.flushed == effects[0]->Flush_0
        }),
{
    reveal_with_fuel(flushed, 3);
    reveal_with_fuel(outward, 3);
    let step = next_step(effects);
    if effects.len() > 0 {
        if effects[0] is Flush {
            let after = effects.skip(1);
            assert(flushed(effects) == effects[0]->Flush_0 + flushed(after));
            if after.len() == 0 || after[0] is Flush {
                assert(seq![] + outward(step.rest) =~= outward(step.rest));
            }
        } else {
            assert(seq![] + flushed(step.rest) =~= flushed(step.rest));
        }
    } else {
        assert(seq![] + flushed(step.rest) =~= flushed(effects));
        assert(seq![] + outward(step.rest) =~= outward(effects));
    }
}

/// The status lists the timeout buckets near the current view, each once and
/// in view order, with the number of those who signed.
pub proof fn every_near_timeout_is_shown(s: Seq<TimeoutBucketStatus>, n: NodeView, window: u64, quorum: nat, v: u64)
    requires
        shows_timeouts(s, n, window, quorum),
    ensures
        forall|i: int, j: int| 0 <= i < j < s.len() ==> (#[trigger] s[i]).view < (#[trigger] s[j]).view,
        (exists|i: int| 0 <= i < s.len() && (#[trigger] s[i]).view == v) <==> n.timeout_buckets.contains_key(v)
            && n.pacemaker.current_view - window <= v <= n.pacemaker.current_view + window,
        forall|i: int|
            0 <= i < s.len() ==> (#[trigger] s[i]).signers == n.timeout_buckets[s[i].view].signers.len() && s[i].quorum
                == quorum,
{
}

} // verus!
