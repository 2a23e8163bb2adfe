//! What a node is after a restart, and after it has taken over a snapshot.

use vstd::prelude::*;

use crate::codec::{parse_draft, parse_last_committed, parse_locked, parse_qc};
use crate::digests::{genuine, Digests};
use crate::history_codec::{enc_history, enc_keys, encodable_keys, parse_history, parse_keys};
use crate::key_history::{joined_over, keys_ok};
use crate::key_laws::the_last_boundary_rules;
use crate::node::commit_laws::what_is_remembered_is_what_is_kept;
use crate::node::config::NodeConfigForConsensus;
use crate::node::consensus_node::{fresh_node, recovered_node, NodeView};
use crate::node::driving::boot_view;
use crate::node::error::NodeError;
use crate::node::qc_cache::{cache_get, distinct_keys};
use crate::node::recovery::overlaid;
use crate::node::snapshot::{
    a_snapshot_carries_the_histories, carried, drafted, installed, restored, standing_at, Carried, HistoriesStored,
    ManifestView,
};
use crate::pacemaker::state_machine::{next_state, Event};
use crate::state::StateView;
use crate::storage::{
    block_key, key_bytes, keys_do_not_collide, lookup, record_keys, STORAGE_KEY_BLS_KEY_HISTORY, STORAGE_KEY_HIGH_QC,
    STORAGE_KEY_LAST_COMMITTED, STORAGE_KEY_LAST_VOTED_VIEW, STORAGE_KEY_LOCKED, STORAGE_KEY_PROPOSED_IN_VIEW,
    STORAGE_KEY_VALIDATOR_HISTORY, STORAGE_KEY_VALIDATOR_KEY_HISTORY,
};
use crate::trusted::take_varint;
use crate::types::{BlockHash, BlockView, Locked, QcView, SignatureSchemeChoice};
use crate::validator_history::{history_ok, no_empty_committee, set_at};
use crate::validator_set::NodeId;

verus! {

// ---- the view to resume in -----------------------------------------------

/// A node boots from the last view that it voted in or from that of its
/// certificate, whichever is higher: the view that it boots from is one of the
/// two and below neither, zero standing for a certificate that is not there.
/// From there it resumes in the very next view.
pub proof fn a_node_boots_from_its_vote_or_its_certificate(n: NodeView)
    ensures
        ({
            let b = boot_view(n);
            &&& b >= n.state.last_voted_view
            &&& n.state.high_qc matches Some(qc) ==> b >= qc.view && (b == qc.view || b == n.state.last_voted_view)
            &&& n.state.high_qc is None ==> b == n.state.last_voted_view
        }),
        n.pacemaker.current_view <= boot_view(n) < u64::MAX ==> next_state(
            n.pacemaker,
            Event::OnQc(boot_view(n)),
        ).current_view == boot_view(n) + 1,
{
}

/// A node that recovers resumes in the view after the higher of the stored
/// vote and the stored certificate: it skips no view that it has not left, and
/// repeats none that it voted in.
pub proof fn a_recovered_node_resumes_where_it_stopped<D: Digests>(
    d: &D,
    m: Map<Seq<u8>, Seq<u8>>,
    self_id: NodeId,
    c: &NodeConfigForConsensus,
    voted: u64,
    qc: QcView,
)
    requires
        recovered_node(d, m, self_id, c) is Ok,
        lookup(m, key_bytes(STORAGE_KEY_LAST_VOTED_VIEW)) matches Some(v) && (take_varint(v) matches Some((x, _)) && x
            == voted),
        lookup(m, key_bytes(STORAGE_KEY_HIGH_QC)) matches Some(q) && parse_qc(q) == Some(qc),
        voted < u64::MAX,
        qc.view < u64::MAX,
    ensures
        ({
            let n = recovered_node(d, m, self_id, c)->Ok_0;
            let view = next_state(n.pacemaker, Event::OnQc(boot_view(n))).current_view;
            &&& view > voted
            &&& view > qc.view
            &&& view == voted + 1 || view == qc.view + 1
        }),
{
}

// ---- recovery ------------------------------------------------------------

/// What recovery makes of the safety state, record by record. What is stored
/// is taken over as it reads; what is not is as at the start. The blocks that
/// the certificate and the lock refer to are pending where they are stored,
/// each under the hash of its content, and so is whatever was pending at the
/// start; nothing else is.
pub proof fn recovery_takes_over_each_record<D: Digests>(
    d: &D,
    m: Map<Seq<u8>, Seq<u8>>,
    start: StateView,
    h: BlockHash,
)
    requires
        start.high_qc is Some,
        overlaid(d, m, start) is Ok,
    ensures
        ({
            let s = overlaid(d, m, start)->Ok_0;
            let voted = lookup(m, key_bytes(STORAGE_KEY_LAST_VOTED_VIEW));
            let lock = lookup(m, key_bytes(STORAGE_KEY_LOCKED));
            let qc = lookup(m, key_bytes(STORAGE_KEY_HIGH_QC));
            &&& voted is None ==> s.last_voted_view == start.last_voted_view
            &&& voted matches Some(v) ==> (take_varint(v) matches Some((x, _)) && s.last_voted_view == x as u64)
            &&& lock is None ==> s.locked == start.locked
            &&& lock matches Some(l) ==> parse_locked(l) is Some && s.locked == parse_locked(l)
            &&& qc is None ==> s.high_qc == start.high_qc
            &&& qc matches Some(q) ==> parse_qc(q) is Some && s.high_qc == parse_qc(q)
            &&& s.current_view == start.current_view
            &&& s.genesis_hash == start.genesis_hash
            &&& s.validator_history == start.validator_history
            &&& start.pending_blocks.contains_key(h) ==> s.pending_blocks.contains_key(h)
            &&& s.pending_blocks.contains_key(h) && !start.pending_blocks.contains_key(h) ==> {
                &&& genuine(d, s.pending_blocks[h])
                &&& s.pending_blocks[h].hash == h
            }
        }),
{
}

/// The blocks that the recovered certificate and lock refer to are there
/// again, if the store has them.
pub proof fn referenced_blocks_are_there_again<D: Digests>(
    d: &D,
    m: Map<Seq<u8>, Seq<u8>>,
    start: StateView,
    hash: BlockHash,
    b: BlockView,
)
    requires
        start.high_qc is Some,
        overlaid(d, m, start) is Ok,
        ({
            let s = overlaid(d, m, start)->Ok_0;
            s.high_qc->0.block_hash == hash || (s.locked is Some && s.locked->0.block_hash == hash)
        }),
        lookup(m, block_key(hash)) matches Some(bytes) && parse_draft(bytes) == Some(b.content()),
        genuine(d, b),
    ensures
        overlaid(d, m, start)->Ok_0.pending_blocks.contains_key(b.hash),
{
}

/// What recovery makes of the rest of the node. The committees rule the leader
/// selector and the safety state from their boundaries on, timeout votes are
/// counted against the newest committee, and everything that is not stored is
/// as in a fresh node.
pub proof fn recovery_takes_over_the_histories<D: Digests>(
    d: &D,
    m: Map<Seq<u8>, Seq<u8>>,
    self_id: NodeId,
    c: &NodeConfigForConsensus,
)
    requires
        recovered_node(d, m, self_id, c) is Ok,
    ensures
        ({
            let n = recovered_node(d, m, self_id, c)->Ok_0;
            let last = lookup(m, key_bytes(STORAGE_KEY_LAST_COMMITTED));
            let history = lookup(m, key_bytes(STORAGE_KEY_VALIDATOR_HISTORY));
            let proposed = lookup(m, key_bytes(STORAGE_KEY_PROPOSED_IN_VIEW));
            let keys = lookup(m, key_bytes(STORAGE_KEY_VALIDATOR_KEY_HISTORY));
            let set = c.validator_set@;
            &&& last is None ==> n.last_committed_height == 0 && n.last_committed_view == 0
            &&& last matches Some(l) ==> (parse_last_committed(l) matches Some(x) && n.last_committed_height == x.height
                && n.last_committed_view == x.view)
            &&& history is None ==> n.validator_history == seq![(0u64, set)]
            &&& history matches Some(h) ==> parse_history(h) == Some(n.validator_history) && no_empty_committee(
                n.validator_history,
            )
            &&& proposed is None ==> n.proposed_in_view == 0
            &&& proposed matches Some(p) ==> (take_varint(p) matches Some((x, _)) && n.proposed_in_view == x as u64)
            &&& keys is None ==> n.keys == joined_over(n.validator_history)
            &&& keys matches Some(k) ==> parse_keys::<32>(k) == Some(n.keys)
            &&& n.selector == n.validator_history
            &&& n.validator_set == n.validator_history.last().1
            &&& n.state.validator_history[0] == (0u64, set)
            &&& forall|i: int|
                1 <= i < n.validator_history.len() ==> #[trigger] n.state.validator_history[i] == n.validator_history[i]
            &&& n.self_id == self_id
            &&& n.pacemaker.current_view == 0
            &&& n.pacemaker.consecutive_failures == 0
            &&& n.signature_scheme == c.signature_scheme
            &&& n.min_v_eff_delay == c.min_v_eff_delay
            &&& n.snapshot_policy == c.snapshot_policy
            &&& n.propose_limit == c.propose_limit
            &&& n.policy.base == c.timeout_base
            &&& n.policy.max == c.timeout_max
            &&& n.timeout_buckets_capacity == c.limits.timeout_buckets_capacity
            &&& n.peers_connected.len() == 0
        }),
{
    let n = recovered_node(d, m, self_id, c)->Ok_0;
    let h = n.validator_history;
    let base = seq![(0u64, c.validator_set@)];
    assert forall|i: int| 1 <= i < h.len() implies #[trigger] n.state.validator_history[i] == h[i] by {
        assert((base + h.skip(1))[i] == h.skip(1)[i - 1]);
    }
}

/// A fresh node stands at genesis: it has voted nowhere, is locked nowhere,
/// knows of the genesis block and of nothing else, and has a certificate of
/// view zero for it, in the shape of the chain's signature scheme.
pub proof fn a_fresh_node_stands_at_genesis(self_id: NodeId, c: &NodeConfigForConsensus, h: BlockHash)
    ensures
        ({
            let n = fresh_node(self_id, c);
            let qc = n.state.high_qc;
            &&& n.state.last_voted_view == 0
            &&& n.state.locked is None
            &&& n.state.pending_blocks.contains_key(h) <==> h == c.genesis@.hash
            &&& n.state.pending_blocks[c.genesis@.hash] == c.genesis@
            &&& n.state.genesis_hash == c.genesis@.hash
            &&& qc is Some
            &&& qc->0.view == 0
            &&& qc->0.block_hash == c.genesis@.hash
            &&& qc->0.signers.len() == c.validator_set@.len()
            &&& c.signature_scheme == SignatureSchemeChoice::Ed25519Collected ==> forall|i: int|
                0 <= i < qc->0.signers.len() ==> #[trigger] qc->0.signers[i]
            &&& c.signature_scheme == SignatureSchemeChoice::BlsAggregated ==> qc->0.signatures.len() == 0 && forall|
                i: int,
            | 0 <= i < qc->0.signers.len() ==> !#[trigger] qc->0.signers[i]
            &&& c.signature_scheme == SignatureSchemeChoice::Ed25519Collected ==> {
                &&& qc->0.signatures.len() == 64 * c.validator_set@.len()
                &&& forall|i: int| 0 <= i < qc->0.signatures.len() ==> #[trigger] qc->0.signatures[i] == 0
            }
            &&& n.proposed_in_view == 0
            &&& n.last_committed_height == 0
            &&& n.last_committed_view == 0
            &&& n.validator_set == c.validator_set@
            &&& n.validator_history == seq![(0u64, c.validator_set@)]
            &&& n.selector == n.validator_history
        }),
{
}

// ---- snapshots -----------------------------------------------------------

/// A snapshot names the committee in force at its block: that of the last
/// boundary at or before the view of the block.
pub proof fn a_snapshot_names_the_committee_in_force(n: NodeView, b: BlockView, k: int)
    requires
        history_ok(n.validator_history),
        drafted(n, b) is Some,
        0 <= k < n.validator_history.len(),
        n.validator_history[k].0 <= b.header.view,
        forall|j: int| k < j < n.validator_history.len() ==> b.header.view < (#[trigger] n.validator_history[j]).0,
    ensures
        drafted(n, b)->0.active_set == n.validator_history[k].1,
{
    the_last_boundary_rules(n.validator_history, b.header.view, k);
}

/// A joiner that reads a snapshot finds the committee that it names among the
/// committees that it carries: the one in force at the view of the snapshot.
pub proof fn the_named_committee_is_among_those_carried(n: NodeView, b: BlockView, k: int)
    requires
        drafted(n, b) is Some,
        history_ok(n.validator_history),
        no_empty_committee(n.validator_history),
        n.validator_history.len() <= u64::MAX,
        keys_ok(n.keys),
        encodable_keys(n.keys),
        n.bls matches Some(h) ==> keys_ok(h) && encodable_keys(h),
    ensures
        ({
            let m = drafted(n, b)->0;
            let h = carried(m)->Ok_0.committees;
            &&& carried(m) is Ok
            &&& m.active_set == set_at(h, m.view)
            &&& 0 <= k < h.len() && h[k].0 <= m.view && (forall|j: int| k < j < h.len() ==> m.view < (#[trigger] h[j]).0)
                ==> m.active_set == h[k].1
        }),
{
    a_snapshot_carries_the_histories(n, b);
    let h = n.validator_history;
    if 0 <= k < h.len() && h[k].0 <= b.header.view && (forall|j: int|
        k < j < h.len() ==> b.header.view < (#[trigger] h[j]).0) {
        the_last_boundary_rules(h, b.header.view, k);
    }
}

/// A snapshot is that of its block, with the certificate that is remembered
/// for the block; without one there is no snapshot.
pub proof fn a_snapshot_is_of_its_block(n: NodeView, b: BlockView, k: int)
    requires
        distinct_keys(n.recent_qcs),
    ensures
        ({
            let s = drafted(n, b);
            &&& s is None <==> forall|i: int| 0 <= i < n.recent_qcs.len() ==> (#[trigger] n.recent_qcs[i]).0 != b.hash
            &&& 0 <= k < n.recent_qcs.len() && n.recent_qcs[k].0 == b.hash ==> s is Some && s->0.commit_qc
                == n.recent_qcs[k].1
            &&& s matches Some(m) ==> {
                &&& m.block == b
                &&& m.block_hash == b.hash
                &&& m.height == b.header.height
                &&& m.view == b.header.view
                &&& m.state_commitment == b.header.state_commitment
                &&& m.chunk_size == n.snapshot_policy.chunk_size_bytes
                &&& m.bls_key_history is Some <==> n.bls is Some
            }
        }),
{
    if 0 <= k < n.recent_qcs.len() && n.recent_qcs[k].0 == b.hash {
        what_is_remembered_is_what_is_kept(n.recent_qcs, k);
    }
    if cache_get(n.recent_qcs, b.hash) is Some {
        let i = choose|i: int| 0 <= i < n.recent_qcs.len() && (#[trigger] n.recent_qcs[i]).0 == b.hash;
        assert(n.recent_qcs[i].0 == b.hash);
    }
}

/// A node that has taken over a snapshot stands at its block: locked on it,
/// with its certificate, having voted in its view, and with its height and
/// view as the last committed ones where they are higher. It resumes after the
/// view of the snapshot, or of its certificate where that is higher.
pub proof fn a_joiner_stands_at_the_snapshot(n: NodeView, m: ManifestView, h: BlockHash)
    ensures
        ({
            let a = standing_at(n, m);
            &&& a.state.locked == Some(
                Locked { view: m.view, height: m.block.header.height, block_hash: m.block.hash },
            )
            &&& a.state.high_qc == Some(m.commit_qc)
            &&& a.state.last_voted_view == m.view
            &&& a.state.pending_blocks.contains_key(m.block.hash)
            &&& a.state.pending_blocks[m.block.hash] == m.block
            &&& h != m.block.hash ==> a.state.pending_blocks.contains_key(h) == n.state.pending_blocks.contains_key(h)
            &&& h != m.block.hash ==> a.state.pending_blocks[h] == n.state.pending_blocks[h]
            &&& m.height > n.last_committed_height ==> a.last_committed_height == m.height && a.last_committed_view
                == m.view
            &&& m.height <= n.last_committed_height ==> a.last_committed_height == n.last_committed_height
                && a.last_committed_view == n.last_committed_view
            &&& boot_view(a) >= m.view
            &&& a.state.current_view == n.state.current_view
            &&& a.state.genesis_hash == n.state.genesis_hash
            &&& a.state.validator_history == n.state.validator_history
            &&& a.validator_history == n.validator_history
            &&& a.keys == n.keys
            &&& a.proposed_in_view == n.proposed_in_view
        }),
{
}

/// The committees and keys of a snapshot replace those of the joiner: leaders
/// are picked by them, timeout votes are counted against the newest committee,
/// the safety state has the boundaries after genesis behind its own, and the
/// certificate of the snapshot is remembered.
pub proof fn a_joiner_takes_over_the_histories(n: NodeView, m: ManifestView, c: Carried, i: int)
    requires
        distinct_keys(n.recent_qcs),
        c.committees.len() > 0,
    ensures
        ({
            let a = installed(n, m, c);
            let own = n.state.validator_history;
            &&& a.validator_history == c.committees
            &&& a.selector == c.committees
            &&& a.validator_set == c.committees[c.committees.len() - 1].1
            &&& a.keys == c.signing
            &&& a.bls == c.bls
            &&& a.state.validator_history.len() == own.len() + c.committees.len() - 1
            &&& 0 <= i < own.len() ==> a.state.validator_history[i] == own[i]
            &&& 1 <= i < c.committees.len() ==> a.state.validator_history[own.len() + i - 1] == c.committees[i]
            &&& cache_get(a.recent_qcs, m.block_hash) == Some(m.commit_qc)
            &&& a.state.locked == n.state.locked
            &&& a.state.high_qc == n.state.high_qc
            &&& a.state.last_voted_view == n.state.last_voted_view
            &&& a.last_committed_height == n.last_committed_height
            &&& a.last_committed_view == n.last_committed_view
        }),
{
    crate::node::qc_cache::latest_certificate_is_found(
        n.recent_qcs,
        m.block_hash,
        m.commit_qc,
        crate::node::qc_cache::RECENT_QC_CACHE_CAPACITY as nat,
    );
}

/// What a snapshot carries is what its three records read as; where one cannot
/// be read, it carries nothing.
pub proof fn a_snapshot_carries_what_its_records_say(m: ManifestView)
    ensures
        carried(m) matches Ok(c) ==> {
            &&& parse_history(m.validator_history) == Some(c.committees)
            &&& no_empty_committee(c.committees)
            &&& parse_keys::<32>(m.validator_key_history) == Some(c.signing)
            &&& m.bls_key_history is None ==> c.bls is None
            &&& m.bls_key_history matches Some(bytes) ==> c.bls is Some && parse_keys::<48>(bytes) == c.bls
        },
        carried(m) is Err ==> parse_history(m.validator_history) is None || !no_empty_committee(
            parse_history(m.validator_history)->0,
        ) || parse_keys::<32>(m.validator_key_history) is None || (m.bls_key_history matches Some(bytes)
            && parse_keys::<48>(bytes) is None),
{
}

/// Recovery of the safety state fails on a record that cannot be read, and on
/// nothing else.
pub proof fn recovery_fails_on_unreadable_records_only<D: Digests>(d: &D, m: Map<Seq<u8>, Seq<u8>>, start: StateView)
    requires
        start.high_qc is Some,
        forall|k: BlockHash| #[trigger] lookup(m, block_key(k)) matches Some(bytes) ==> parse_draft(bytes) is Some,
    ensures
        overlaid(d, m, start) is Err <==> {
            ||| lookup(m, key_bytes(STORAGE_KEY_LAST_VOTED_VIEW)) matches Some(v) && take_varint(v) is None
            ||| lookup(m, key_bytes(STORAGE_KEY_LOCKED)) matches Some(l) && parse_locked(l) is None
            ||| lookup(m, key_bytes(STORAGE_KEY_HIGH_QC)) matches Some(q) && parse_qc(q) is None
        },
{
}

/// Recovery of a node fails on a record that cannot be read, and on nothing
/// else.
pub proof fn a_readable_store_is_recovered<D: Digests>(
    d: &D,
    m: Map<Seq<u8>, Seq<u8>>,
    self_id: NodeId,
    c: &NodeConfigForConsensus,
)
    requires
        overlaid(d, m, fresh_node(self_id, c).state) is Ok,
    ensures
        recovered_node(d, m, self_id, c) is Err <==> {
            ||| lookup(m, key_bytes(STORAGE_KEY_LAST_COMMITTED)) matches Some(l) && parse_last_committed(l) is None
            ||| lookup(m, key_bytes(STORAGE_KEY_VALIDATOR_HISTORY)) matches Some(h) && (parse_history(h) is None
                || !no_empty_committee(parse_history(h)->0))
            ||| lookup(m, key_bytes(STORAGE_KEY_PROPOSED_IN_VIEW)) matches Some(p) && take_varint(p) is None
            ||| lookup(m, key_bytes(STORAGE_KEY_VALIDATOR_KEY_HISTORY)) matches Some(k) && parse_keys::<32>(k) is None
        },
{
}

/// Taking over a snapshot on a steady store ends in one of three ways: its
/// histories cannot be read, they do not come after what the node knows, or
/// they are installed and all of it is on disk. In each the node stands at the
/// snapshot.
pub proof fn a_restore_on_a_steady_store_is_durable(
    n: NodeView,
    m: ManifestView,
    store: Map<Seq<u8>, Seq<u8>>,
    r: Result<HistoriesStored, NodeError>,
    after: NodeView,
    after_store: Map<Seq<u8>, Seq<u8>>,
)
    requires
        restored(n, m, store, true, r, after, after_store),
    ensures
        after.state.last_voted_view == m.view,
        after.state.high_qc == Some(m.commit_qc),
        after.last_committed_height >= m.height,
        after.last_committed_height >= n.last_committed_height,
        carried(m) matches Err(e) ==> r == Err::<HistoriesStored, NodeError>(e) && after.validator_history
            == n.validator_history && after.keys == n.keys,
        carried(m) matches Ok(c) ==> {
            let ahead = c.committees.len() > 1 && c.committees[1].0 <= n.state.validator_history.last().0;
            &&& ahead ==> r == Err::<HistoriesStored, NodeError>(
                NodeError::BoundaryRefused { v_eff: c.committees[1].0 },
            ) && after.validator_history == n.validator_history
            &&& !ahead ==> {
                &&& r is Ok
                &&& after.validator_history == c.committees
                &&& after.selector == c.committees
                &&& after.keys == c.signing
                &&& after.bls == c.bls
                &&& lookup(after_store, key_bytes(STORAGE_KEY_VALIDATOR_HISTORY)) == Some(enc_history(c.committees))
                &&& lookup(after_store, key_bytes(STORAGE_KEY_VALIDATOR_KEY_HISTORY)) == Some(enc_keys(c.signing))
                &&& c.bls matches Some(h) ==> lookup(after_store, key_bytes(STORAGE_KEY_BLS_KEY_HISTORY)) == Some(
                    enc_keys(h),
                )
            }
        },
{
    let hash: BlockHash = m.block_hash;
    keys_do_not_collide(hash, hash);
    let k = record_keys();
    assert(k[5] == key_bytes(STORAGE_KEY_VALIDATOR_HISTORY));
    assert(k[6] == key_bytes(STORAGE_KEY_VALIDATOR_KEY_HISTORY));
    assert(k[7] == key_bytes(STORAGE_KEY_BLS_KEY_HISTORY));
}

} // verus!
