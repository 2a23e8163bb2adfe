//! What the node tells its operator.

use vstd::prelude::*;

use crate::bytes::{bytes_less, bytes_less_asymmetric, bytes_less_transitive, relate, same, Relation};
use crate::decimal::{decimal, decimal_string};
use crate::node::consensus_node::{CacheEvictionCounters, ConsensusNode, NodeView};
use crate::node::listing::{ids_in_order, sorted_ids};
use crate::node::timeouts::{by_view, views_rise};
use crate::quorum::{quorum_of, quorum_size};
use crate::trusted::{hex_encode, hex_string};
use crate::types::BlockHash;
use crate::validator_set::{Member, NodeId, ValidatorSet};

verus! {

#[derive(Debug, PartialEq, Eq)]
pub struct LockedStatus {
    pub view: u64,
    pub height: u64,
    pub block_hash: String,
}

#[derive(Debug, PartialEq, Eq)]
pub struct QcStatus {
    pub view: u64,
    /// The height of the certified block, if that is at hand.
    pub height: Option<u64>,
    pub block_hash: String,
}

#[derive(Debug, PartialEq, Eq)]
pub struct VoteBucketStatus {
    pub view: u64,
    pub block_hash: String,
    pub signers: usize,
    pub quorum: usize,
}

#[derive(Clone, Copy, Debug, PartialEq, Eq, Structural)]
pub struct TimeoutBucketStatus {
    pub view: u64,
    pub signers: usize,
    pub quorum: usize,
}

#[derive(Debug, PartialEq, Eq)]
pub struct ParkedProposalStatus {
    pub block_hash: String,
    pub parent_hash: String,
    pub view: u64,
}

/// Everything about the node that an operator may ask for. Identities are
/// left raw; how they are written is up to whoever shows them.
#[derive(Debug)]
pub struct ConsensusStatus {
    pub node_id: NodeId,
    pub self_role: String,
    pub current_view: u64,
    pub last_voted_view: u64,
    pub last_committed_height: u64,
    pub last_committed_view: u64,
    pub locked: Option<LockedStatus>,
    pub high_qc: Option<QcStatus>,
    pub vote_buckets: Vec<VoteBucketStatus>,
    pub timeout_buckets: Vec<TimeoutBucketStatus>,
    pub parked_proposals: Vec<ParkedProposalStatus>,
    pub pending_blocks_count: usize,
    pub peers_connected: Vec<NodeId>,
    pub validator_set: Vec<NodeId>,
    pub mempool_size: usize,
    pub cache_evictions: CacheEvictionCounters,
    pub dropped_commands: u64,
    pub equivocations_detected: u64,
}

/// Votes for one block that have not made a certificate yet.
#[derive(Clone, Copy, Debug, PartialEq, Eq)]
pub struct VoteBucket {
    pub view: u64,
    pub block_hash: BlockHash,
    pub signers: usize,
}

/// A proposal that waits for its parent.
#[derive(Clone, Copy, Debug, PartialEq, Eq)]
pub struct ParkedProposal {
    pub view: u64,
    pub block_hash: BlockHash,
    pub parent_hash: BlockHash,
}

/// The role of a replica in a view, for the log. The committee takes turns.
pub open spec fn role(m: Seq<Member>, self_id: NodeId, view: u64) -> Seq<char> {
    if m.len() > 0 && m[(view as int) % (m.len() as int)].id.id == self_id {
        "leader(view="@ + decimal(view as nat) + ")"@
    } else {
        "replica"@
    }
}

/// The role of a replica in a view, for the log.
pub fn self_role_string(validator_set: &ValidatorSet, self_id: &NodeId, view: u64) -> (r: String)
    requires
        validator_set.wf(),
    ensures
        r@ == role(validator_set@, *self_id, view),
{
    let n = validator_set.len();
    if n == 0 {
        return String::from_str("replica");
    }
    let idx = (view % (n as u64)) as usize;
    proof {
        assert(idx < n);
    }
    let leader = validator_set.member(idx).id.id;
    if same(&leader, self_id) {
        let mut s = String::from_str("leader(view=");
        s.append(decimal_string(view).as_str());
        s.append(")");
        s
    } else {
        String::from_str("replica")
    }
}

// ---- order ---------------------------------------------------------------

/// Position `a` is listed before position `b`: by view, then by hash, then
/// as they came.
pub open spec fn listed_before(keys: Seq<(u64, BlockHash)>, a: int, b: int) -> bool {
    ||| keys[a].0 < keys[b].0
    ||| keys[a].0 == keys[b].0 && bytes_less(keys[a].1@, keys[b].1@)
    ||| keys[a].0 == keys[b].0 && keys[a].1 == keys[b].1 && a < b
}

/// `order` lists all positions of `keys`, each once.
pub open spec fn is_order(keys: Seq<(u64, BlockHash)>, order: Seq<usize>) -> bool {
    &&& order.len() == keys.len()
    &&& forall|i: int| 0 <= i < order.len() ==> (#[trigger] order[i]) < keys.len()
    &&& forall|i: int, j: int|
        0 <= i < j < order.len() ==> listed_before(keys, #[trigger] order[i] as int, #[trigger] order[j] as int)
}

proof fn lemma_before_transitive(keys: Seq<(u64, BlockHash)>, a: int, b: int, c: int)
    requires
        listed_before(keys, a, b),
        listed_before(keys, b, c),
    ensures
        listed_before(keys, a, c),
{
    if keys[a].0 == keys[b].0 && keys[b].0 == keys[c].0 {
        if bytes_less(keys[a].1@, keys[b].1@) && bytes_less(keys[b].1@, keys[c].1@) {
            bytes_less_transitive(keys[a].1@, keys[b].1@, keys[c].1@);
        }
    }
}

/// No position is listed twice.
pub proof fn an_order_lists_each_once(keys: Seq<(u64, BlockHash)>, order: Seq<usize>)
    requires
        is_order(keys, order),
    ensures
        order.no_duplicates(),
{
    assert forall|i: int, j: int| 0 <= i < order.len() && 0 <= j < order.len() && i != j implies order[i] != order[j] by {
        let (x, y) = if i < j {
            (i, j)
        } else {
            (j, i)
        };
        assert(listed_before(keys, order[x] as int, order[y] as int));
        if order[x] == order[y] {
            let k = keys[order[x] as int];
            if bytes_less(k.1@, k.1@) {
                bytes_less_asymmetric(k.1@, k.1@);
            }
        }
    }
}

/// Whether the position `a` comes before `b`, which is a later one.
fn goes_before(keys: &Vec<(u64, BlockHash)>, a: usize, b: usize) -> (r: bool)
    requires
        a < keys.len(),
        b < keys.len(),
        a < b,
    ensures
        r == listed_before(keys@, a as int, b as int),
        !r ==> listed_before(keys@, b as int, a as int),
{
    if keys[a].0 < keys[b].0 {
        return true;
    }
    if keys[a].0 > keys[b].0 {
        return false;
    }
    match relate(&keys[a].1, &keys[b].1) {
        Relation::Below => true,
        Relation::Same => true,
        Relation::Above => {
            proof {
                bytes_less_asymmetric(keys@[b as int].1@, keys@[a as int].1@);
            }
            false
        },
    }
}

/// The positions by view, then by hash, then as they came.
pub fn order_of(keys: &Vec<(u64, BlockHash)>) -> (r: Vec<usize>)
    ensures
        is_order(keys@, r@),
{
    let mut order: Vec<usize> = Vec::new();
    let mut i: usize = 0;
    while i < keys.len()
        invariant
            i <= keys.len(),
            order.len() == i,
            forall|k: int| 0 <= k < order.len() ==> (#[trigger] order@[k]) < i,
            forall|a: int, b: int|
                0 <= a < b < order.len() ==> listed_before(
                    keys@,
                    #[trigger] order@[a] as int,
                    #[trigger] order@[b] as int,
                ),
        decreases keys.len() - i,
    {
        let mut p: usize = 0;
        while p < order.len() && goes_before(keys, order[p], i)
            invariant
                p <= order.len(),
                i < keys.len(),
                forall|k: int| 0 <= k < order.len() ==> (#[trigger] order@[k]) < i,
                forall|k: int| 0 <= k < p ==> listed_before(keys@, #[trigger] order@[k] as int, i as int),
            ensures
                p <= order.len(),
                forall|k: int| 0 <= k < p ==> listed_before(keys@, #[trigger] order@[k] as int, i as int),
                p < order.len() ==> listed_before(keys@, i as int, order@[p as int] as int),
            decreases order.len() - p,
        {
            p = p + 1;
        }
        let ghost had = order@;
        order.insert(p, i);
        proof {
            assert forall|a: int, b: int| 0 <= a < b < order@.len() implies listed_before(
                keys@,
                #[trigger] order@[a] as int,
                #[trigger] order@[b] as int,
            ) by {
                let x = if a < p {
                    a
                } else {
                    a - 1
                };
                let y = if b < p {
                    b
                } else {
                    b - 1
                };
                if a == p {
                    assert(order@[b] == had[y]);
                    if y > p {
                        assert(listed_before(keys@, had[p as int] as int, had[y] as int));
                        lemma_before_transitive(keys@, i as int, had[p as int] as int, had[y] as int);
                    }
                } else if b == p {
                    assert(order@[a] == had[x]);
                } else {
                    assert(order@[a] == had[x] && order@[b] == had[y]);
                }
            }
            assert forall|k: int| 0 <= k < order@.len() implies (#[trigger] order@[k]) < i + 1 by {
                if k < p {
                    assert(order@[k] == had[k]);
                } else if k > p {
                    assert(order@[k] == had[k - 1]);
                }
            }
        }
        i = i + 1;
    }
    order
}

// ---- the lists -----------------------------------------------------------

/// `view` is no further than `window` from `current`.
pub open spec fn in_window(view: u64, current: u64, window: u64) -> bool {
    current - window <= view <= current + window
}

fn within(view: u64, current: u64, window: u64) -> (r: bool)
    ensures
        r == in_window(view, current, window),
{
    view >= current.saturating_sub(window) && view <= current.saturating_add(window)
}

/// The vote buckets near the current view.
pub open spec fn near(current: u64, window: u64) -> spec_fn(VoteBucket) -> bool {
    |b: VoteBucket| in_window(b.view, current, window)
}

pub open spec fn bucket_keys(b: Seq<VoteBucket>) -> Seq<(u64, BlockHash)> {
    Seq::new(b.len(), |i: int| (b[i].view, b[i].block_hash))
}

pub open spec fn parked_keys(b: Seq<ParkedProposal>) -> Seq<(u64, BlockHash)> {
    Seq::new(b.len(), |i: int| (b[i].view, b[i].block_hash))
}

/// The status of a vote bucket.
pub open spec fn shows_bucket(s: VoteBucketStatus, b: VoteBucket, quorum: nat) -> bool {
    &&& s.view == b.view
    &&& s.block_hash@ == hex_string(b.block_hash@)
    &&& s.signers == b.signers
    &&& s.quorum == quorum
}

/// The status of the vote buckets near the current view, in order.
pub open spec fn shows_buckets(
    s: Seq<VoteBucketStatus>,
    buckets: Seq<VoteBucket>,
    current: u64,
    window: u64,
    quorum: nat,
) -> bool {
    let f = buckets.filter(near(current, window));
    exists|order: Seq<usize>|
        {
            &&& #[trigger] is_order(bucket_keys(f), order)
            &&& s.len() == order.len()
            &&& forall|i: int| 0 <= i < s.len() ==> shows_bucket(#[trigger] s[i], f[order[i] as int], quorum)
        }
}

/// The status of the parked proposals, in order.
pub open spec fn shows_parked(s: Seq<ParkedProposalStatus>, parked: Seq<ParkedProposal>) -> bool {
    exists|order: Seq<usize>|
        {
            &&& #[trigger] is_order(parked_keys(parked), order)
            &&& s.len() == order.len()
            &&& forall|i: int|
                0 <= i < s.len() ==> {
                    let p = parked[order[i] as int];
                    &&& (#[trigger] s[i]).view == p.view
                    &&& s[i].block_hash@ == hex_string(p.block_hash@)
                    &&& s[i].parent_hash@ == hex_string(p.parent_hash@)
                }
        }
}

fn vote_bucket_statuses(buckets: &Vec<VoteBucket>, current: u64, window: u64, quorum: usize) -> (r: Vec<VoteBucketStatus>)
    ensures
        shows_buckets(r@, buckets@, current, window, quorum as nat),
{
    let ghost p = near(current, window);
    let mut f: Vec<VoteBucket> = Vec::new();
    let mut keys: Vec<(u64, BlockHash)> = Vec::new();
    let mut i: usize = 0;
    while i < buckets.len()
        invariant
            i <= buckets.len(),
            p == near(current, window),
            f@ == buckets@.take(i as int).filter(p),
            keys@ == bucket_keys(f@),
        decreases buckets.len() - i,
    {
        let b = buckets[i];
        proof {
            reveal(Seq::filter);
            assert(buckets@.take(i + 1).drop_last() =~= buckets@.take(i as int));
            assert(buckets@.take(i + 1).last() == b);
        }
        if within(b.view, current, window) {
            f.push(b);
            keys.push((b.view, b.block_hash));
            assert(keys@ =~= bucket_keys(f@));
        }
        i = i + 1;
    }
    assert(buckets@.take(i as int) =~= buckets@);
    let order = order_of(&keys);
    let mut out: Vec<VoteBucketStatus> = Vec::new();
    let mut k: usize = 0;
    while k < order.len()
        invariant
            k <= order.len(),
            out.len() == k,
            keys@ == bucket_keys(f@),
            is_order(keys@, order@),
            forall|i: int| 0 <= i < k ==> shows_bucket(#[trigger] out@[i], f@[order@[i] as int], quorum as nat),
        decreases order.len() - k,
    {
        assert(order@[k as int] < keys@.len());
        let b = f[order[k]];
        out.push(
            VoteBucketStatus {
                view: b.view,
                block_hash: hex_encode(b.block_hash.as_slice()),
                signers: b.signers,
                quorum,
            },
        );
        k = k + 1;
    }
    assert(is_order(bucket_keys(f@), order@));
    out
}

fn parked_statuses(parked: &Vec<ParkedProposal>) -> (r: Vec<ParkedProposalStatus>)
    ensures
        shows_parked(r@, parked@),
{
    let mut keys: Vec<(u64, BlockHash)> = Vec::new();
    let mut i: usize = 0;
    while i < parked.len()
        invariant
            i <= parked.len(),
            keys@ =~= parked_keys(parked@).take(i as int),
        decreases parked.len() - i,
    {
        keys.push((parked[i].view, parked[i].block_hash));
        i = i + 1;
    }
    assert(keys@ =~= parked_keys(parked@));
    let order = order_of(&keys);
    let mut out: Vec<ParkedProposalStatus> = Vec::new();
    let mut k: usize = 0;
    while k < order.len()
        invariant
            k <= order.len(),
            out.len() == k,
            keys@ == parked_keys(parked@),
            is_order(keys@, order@),
            forall|i: int|
                0 <= i < k ==> {
                    let p = parked@[order@[i] as int];
                    &&& (#[trigger] out@[i]).view == p.view
                    &&& out@[i].block_hash@ == hex_string(p.block_hash@)
                    &&& out@[i].parent_hash@ == hex_string(p.parent_hash@)
                },
        decreases order.len() - k,
    {
        assert(order@[k as int] < keys@.len());
        let p = parked[order[k]];
        out.push(
            ParkedProposalStatus {
                block_hash: hex_encode(p.block_hash.as_slice()),
                parent_hash: hex_encode(p.parent_hash.as_slice()),
                view: p.view,
            },
        );
        k = k + 1;
    }
    out
}

/// The status of the timeout buckets near the current view: one for each
/// view that has one, in view order.
pub open spec fn shows_timeouts(s: Seq<TimeoutBucketStatus>, n: NodeView, window: u64, quorum: nat) -> bool {
    let current = n.pacemaker.current_view;
    &&& forall|i: int, j: int| 0 <= i < j < s.len() ==> (#[trigger] s[i]).view < (#[trigger] s[j]).view
    &&& forall|i: int|
        0 <= i < s.len() ==> {
            &&& n.timeout_buckets.contains_key((#[trigger] s[i]).view)
            &&& in_window(s[i].view, current, window)
            &&& s[i].signers == n.timeout_buckets[s[i].view].signers.len()
            &&& s[i].quorum == quorum
        }
    &&& forall|v: u64| #[trigger]
        n.timeout_buckets.contains_key(v) && in_window(v, current, window) ==> exists|i: int|
            0 <= i < s.len() && (#[trigger] s[i]).view == v
}

impl ConsensusNode {
    fn timeout_bucket_statuses(&self, window: u64, quorum: usize) -> (r: Vec<TimeoutBucketStatus>)
        requires
            self.wf(),
        ensures
            shows_timeouts(r@, self@, window, quorum as nat),
    {
        let current: u64 = self.pacemaker.current_view();
        let n = self.timeout_buckets.len();
        let mut out: Vec<TimeoutBucketStatus> = Vec::new();
        let mut i: usize = 0;
        let ghost l = self.timeout_buckets.listed();
        proof {
            self.timeout_buckets.lemma_listed();
        }
        while i < n
            invariant
                i <= n,
                n == self@.timeout_buckets.len(),
                self.wf(),
                current == self@.pacemaker.current_view,
                l == self.timeout_buckets.listed(),
                l.len() == n,
                views_rise(l),
                by_view(l) == self@.timeout_buckets,
                forall|a: int, b: int| 0 <= a < b < out@.len() ==> (#[trigger] out@[a]).view < (#[trigger] out@[b]).view,
                forall|a: int|
                    0 <= a < out@.len() ==> {
                        &&& self@.timeout_buckets.contains_key((#[trigger] out@[a]).view)
                        &&& in_window(out@[a].view, current, window)
                        &&& out@[a].signers == self@.timeout_buckets[out@[a].view].signers.len()
                        &&& out@[a].quorum == quorum
                    },
                forall|a: int| 0 <= a < out@.len() && i < n ==> (#[trigger] out@[a]).view < l[i as int].0,
                forall|k: int|
                    0 <= k < i && in_window((#[trigger] l[k]).0, current, window) ==> exists|a: int|
                        0 <= a < out@.len() && (#[trigger] out@[a]).view == l[k].0,
            decreases n - i,
        {
            let ghost had = out@;
            let b = self.timeout_buckets.nth(i);
            if within(b.view, current, window) {
                out.push(TimeoutBucketStatus { view: b.view, signers: b.signers.len(), quorum });
            }
            proof {
                assert forall|k: int| 0 <= k < i + 1 && in_window((#[trigger] l[k]).0, current, window) implies exists|
                    a: int,
                | 0 <= a < out@.len() && (#[trigger] out@[a]).view == l[k].0 by {
                    if k < i {
                        let a = choose|a: int| 0 <= a < had.len() && (#[trigger] had[a]).view == l[k].0;
                        assert(out@[a].view == l[k].0);
                    } else {
                        assert(out@[had.len() as int].view == l[k].0);
                    }
                }
                if i + 1 < n {
                    assert(l[i as int].0 < l[i + 1].0);
                }
            }
            i = i + 1;
        }
        proof {
            assert forall|v: u64| #[trigger]
                self@.timeout_buckets.contains_key(v) && in_window(v, current, window) implies exists|a: int|
                0 <= a < out@.len() && (#[trigger] out@[a]).view == v by {
                let k = choose|k: int| 0 <= k < l.len() && (#[trigger] l[k]).0 == v;
                assert(l[k].0 == v);
            }
        }
        out
    }

    /// The status of the node. The votes that are being counted, the parked
    /// proposals and the size of the mempool are kept elsewhere and come as
    /// arguments. Buckets are listed for the views that are no further than
    /// `window` from the current one, peers by their identities.
    pub fn build_status(
        &self,
        window: u64,
        vote_buckets: &Vec<VoteBucket>,
        parked: &Vec<ParkedProposal>,
        mempool_size: usize,
    ) -> (r: ConsensusStatus)
        requires
            self.wf(),
        ensures
            r.node_id == self@.self_id,
            r.self_role@ == role(self@.validator_set, self@.self_id, self@.pacemaker.current_view),
            r.current_view == self@.pacemaker.current_view,
            r.last_voted_view == self@.state.last_voted_view,
            r.last_committed_height == self@.last_committed_height,
            r.last_committed_view == self@.last_committed_view,
            match self@.state.locked {
                Some(l) => r.locked matches Some(s) && s.view == l.view && s.height == l.height && s.block_hash@
                    == hex_string(l.block_hash@),
                None => r.locked is None,
            },
            match self@.state.high_qc {
                Some(qc) => r.high_qc matches Some(s) && s.view == qc.view && s.block_hash@ == hex_string(qc.block_hash@)
                    && s.height == (if self@.state.pending_blocks.contains_key(qc.block_hash) {
                    Some(self@.state.pending_blocks[qc.block_hash].header.height)
                } else {
                    None
                }),
                None => r.high_qc is None,
            },
            shows_buckets(
                r.vote_buckets@,
                vote_buckets@,
                self@.pacemaker.current_view,
                window,
                quorum_of(self@.validator_set.len()),
            ),
            shows_timeouts(r.timeout_buckets@, self@, window, quorum_of(self@.validator_set.len())),
            shows_parked(r.parked_proposals@, parked@),
            r.pending_blocks_count == self@.state.pending_blocks.len(),
            ids_in_order(r.peers_connected@),
            r.peers_connected@.no_duplicates(),
            r.peers_connected@.to_multiset() == self@.peers_connected.to_multiset(),
            r.validator_set@ == self@.validator_set.map_values(|m: Member| m.id.id),
            r.mempool_size == mempool_size,
            r.cache_evictions == self@.eviction_counters,
            r.dropped_commands == self@.dropped_commands,
            r.equivocations_detected == self@.equivocations_detected,
    {
        let current_view: u64 = self.pacemaker.current_view();
        let quorum = quorum_size(self.validator_set.len());
        let locked = match &self.state.locked {
            Some(l) => Some(
                LockedStatus {
                    view: l.view,
                    height: l.height,
                    block_hash: hex_encode(l.block_hash.as_slice()),
                },
            ),
            None => None,
        };
        let high_qc = match &self.state.high_qc {
            Some(qc) => {
                let height = match self.state.pending_blocks.get(&qc.block_hash) {
                    Some(b) => Some(b.header.height),
                    None => None,
                };
                Some(QcStatus { view: qc.view, height, block_hash: hex_encode(qc.block_hash.as_slice()) })
            },
            None => None,
        };
        let peers = sorted_ids(&self.peers_connected);
        proof {
            self.peers_connected@.lemma_multiset_has_no_duplicates();
            peers@.lemma_multiset_has_no_duplicates_conv();
        }
        let ghost ids = self@.validator_set.map_values(|m: Member| m.id.id);
        let mut members: Vec<NodeId> = Vec::new();
        let mut k: usize = 0;
        while k < self.validator_set.len()
            invariant
                k <= self.validator_set@.len(),
                ids == self.validator_set@.map_values(|m: Member| m.id.id),
                members@ =~= ids.take(k as int),
            decreases self.validator_set@.len() - k,
        {
            members.push(self.validator_set.member(k).id.id);
            k = k + 1;
        }
        assert(ids.take(k as int) =~= ids);
        ConsensusStatus {
            node_id: self.self_id,
            self_role: self_role_string(&self.validator_set, &self.self_id, current_view),
            current_view,
            last_voted_view: self.state.last_voted_view,
            last_committed_height: self.last_committed_height,
            last_committed_view: self.last_committed_view,
            locked,
            high_qc,
            vote_buckets: vote_bucket_statuses(vote_buckets, current_view, window, quorum),
            timeout_buckets: self.timeout_bucket_statuses(window, quorum),
            parked_proposals: parked_statuses(parked),
            pending_blocks_count: self.state.pending_blocks.len(),
            peers_connected: peers,
            validator_set: members,
            mempool_size,
            cache_evictions: self.eviction_counters,
            dropped_commands: self.dropped_commands,
            equivocations_detected: self.equivocations_detected,
        }
    }
}

} // verus!
