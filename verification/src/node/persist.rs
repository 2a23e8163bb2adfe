//! Writing the safety state down before anything that depends on it leaves
//! the node.

use vstd::prelude::*;

use crate::bytes::copy_bytes;
use crate::codec::{
    enc_block, enc_locked, enc_qc, encodable_items, encodable_qc, encode_block, encode_high_qc, encode_locked,
    encode_proposed_in_view, encode_voted_view, stored_block_reads_back, stored_lock_reads_back,
    stored_qc_reads_back, stored_view_reads_back, Record,
};
use crate::digests::{genuine, Digests};
use crate::node::config::NodeConfigForConsensus;
use crate::node::consensus_node::{read_proposed, recovered_node, ConsensusNode, NodeView};
use crate::node::error::NodeError;
use crate::node::qc_cache::{cache_insert, RECENT_QC_CACHE_CAPACITY};
use crate::node::recovery::{overlaid, read_block, with_block, with_high_qc, with_locked, with_voted};
use crate::state::{filed_by_hash, BlockMap, StateView};
use crate::storage::{
    apply_writes, block_key, block_storage_key, key_bytes, keys_do_not_collide, lemma_apply_concat,
    lemma_key_shapes, lemma_untouched, lookup, record_keys, writes_view, Storage, Write, STORAGE_KEY_HIGH_QC,
    STORAGE_KEY_LAST_VOTED_VIEW, STORAGE_KEY_LOCKED, STORAGE_KEY_PROPOSED_IN_VIEW,
};
use crate::trusted::varint;
use crate::types::{BlockHash, BlockView, Locked, QcView, QuorumCertificate};
use crate::validator_set::NodeId;

verus! {

/// A change of the safety state that must be durable before the node acts
/// on it.
#[derive(Debug, PartialEq, Eq)]
pub enum StateUpdate {
    VotedInView { view: u64 },
    Locked(Locked),
    HighQc(QuorumCertificate),
    ProposedInView { view: u64 },
}

pub enum UpdateView {
    VotedInView { view: u64 },
    Locked(Locked),
    HighQc(QcView),
    ProposedInView { view: u64 },
}

impl View for StateUpdate {
    type V = UpdateView;

    open spec fn view(&self) -> UpdateView {
        match *self {
            StateUpdate::VotedInView { view } => UpdateView::VotedInView { view },
            StateUpdate::Locked(l) => UpdateView::Locked(l),
            StateUpdate::HighQc(qc) => UpdateView::HighQc(qc@),
            StateUpdate::ProposedInView { view } => UpdateView::ProposedInView { view },
        }
    }
}

impl StateUpdate {
    pub fn copy(&self) -> (r: StateUpdate)
        ensures
            r@ == self@,
    {
        match self {
            StateUpdate::VotedInView { view } => StateUpdate::VotedInView { view: *view },
            StateUpdate::Locked(l) => StateUpdate::Locked(*l),
            StateUpdate::HighQc(qc) => StateUpdate::HighQc(qc.copy()),
            StateUpdate::ProposedInView { view } => StateUpdate::ProposedInView { view: *view },
        }
    }
}

/// A short, stable tag for logs.
pub fn update_kind(u: &StateUpdate) -> (r: &'static str)
    ensures
        r@ == match u@ {
            UpdateView::VotedInView { .. } => "VotedInView"@,
            UpdateView::Locked(_) => "Locked"@,
            UpdateView::HighQc(_) => "HighQc"@,
            UpdateView::ProposedInView { .. } => "ProposedInView"@,
        },
{
    match u {
        StateUpdate::VotedInView { .. } => "VotedInView",
        StateUpdate::Locked(_) => "Locked",
        StateUpdate::HighQc(_) => "HighQc",
        StateUpdate::ProposedInView { .. } => "ProposedInView",
    }
}

pub open spec fn updates_view(u: Seq<StateUpdate>) -> Seq<UpdateView> {
    Seq::new(u.len(), |i: int| u[i]@)
}

/// The write that records an update.
pub open spec fn update_write(u: UpdateView) -> (Seq<u8>, Seq<u8>) {
    match u {
        UpdateView::VotedInView { view } => (key_bytes(STORAGE_KEY_LAST_VOTED_VIEW), varint(view as nat)),
        UpdateView::Locked(l) => (key_bytes(STORAGE_KEY_LOCKED), enc_locked(l)),
        UpdateView::HighQc(qc) => (key_bytes(STORAGE_KEY_HIGH_QC), enc_qc(qc)),
        UpdateView::ProposedInView { view } => (key_bytes(STORAGE_KEY_PROPOSED_IN_VIEW), varint(view as nat)),
    }
}

/// The block that an update refers to.
pub open spec fn referenced(u: UpdateView) -> Option<BlockHash> {
    match u {
        UpdateView::Locked(l) => Some(l.block_hash),
        UpdateView::HighQc(qc) => Some(qc.block_hash),
        _ => None,
    }
}

/// The writes that record the updates, in order.
pub open spec fn update_writes(u: Seq<UpdateView>) -> Seq<(Seq<u8>, Seq<u8>)> {
    Seq::new(u.len(), |i: int| update_write(u[i]))
}

/// The writes that record the blocks that the updates refer to, as far as
/// those are pending.
pub open spec fn block_writes(u: Seq<UpdateView>, pending: Map<BlockHash, BlockView>) -> Seq<(Seq<u8>, Seq<u8>)>
    decreases u.len(),
{
    if u.len() == 0 {
        seq![]
    } else {
        let rest = block_writes(u.drop_last(), pending);
        match referenced(u.last()) {
            Some(h) => if pending.contains_key(h) {
                rest.push((block_key(h), enc_block(pending[h])))
            } else {
                rest
            },
            None => rest,
        }
    }
}

/// Everything that one batch of updates writes.
pub open spec fn batch_writes(u: Seq<UpdateView>, pending: Map<BlockHash, BlockView>) -> Seq<(Seq<u8>, Seq<u8>)> {
    update_writes(u) + block_writes(u, pending)
}

/// The writes for a batch of updates: the updates themselves, in order, and
/// then the pending blocks that locks and certificates among them refer to.
pub fn writes_for(updates: &Vec<StateUpdate>, pending: &BlockMap) -> (r: Vec<Write>)
    requires
        pending.wf(),
    ensures
        writes_view(r@) == batch_writes(updates_view(updates@), pending@),
{
    let ghost u = updates_view(updates@);
    let mut out: Vec<Write> = Vec::new();
    let mut i: usize = 0;
    assert(writes_view(out@) =~= update_writes(u.take(0)));
    while i < updates.len()
        invariant
            i <= updates.len(),
            u == updates_view(updates@),
            writes_view(out@) == update_writes(u.take(i as int)),
        decreases updates.len() - i,
    {
        let ghost before = writes_view(out@);
        let (key, value) = match &updates[i] {
            StateUpdate::VotedInView { view } => (STORAGE_KEY_LAST_VOTED_VIEW, encode_voted_view(*view)),
            StateUpdate::Locked(l) => (STORAGE_KEY_LOCKED, encode_locked(l)),
            StateUpdate::HighQc(qc) => (STORAGE_KEY_HIGH_QC, encode_high_qc(qc)),
            StateUpdate::ProposedInView { view } => (STORAGE_KEY_PROPOSED_IN_VIEW, encode_proposed_in_view(*view)),
        };
        match value {
            Ok(bytes) => {
                out.push(Write { key: copy_bytes(key.as_bytes()), value: bytes });
            },
            Err(_) => {},
        }
        proof {
            assert(u[i as int] == updates@[i as int]@);
            assert(writes_view(out@) =~= before.push(update_write(u[i as int])));
            assert(update_writes(u.take(i + 1)) =~= update_writes(u.take(i as int)).push(update_write(u[i as int])));
        }
        i = i + 1;
    }
    assert(u.take(i as int) =~= u);
    let ghost head = writes_view(out@);
    let mut k: usize = 0;
    assert(u.take(0) =~= seq![]);
    assert(head + block_writes(u.take(0), pending@) =~= head);
    while k < updates.len()
        invariant
            k <= updates.len(),
            u == updates_view(updates@),
            pending.wf(),
            writes_view(out@) == head + block_writes(u.take(k as int), pending@),
        decreases updates.len() - k,
    {
        let ghost before = writes_view(out@);
        proof {
            assert(u.take(k + 1).drop_last() =~= u.take(k as int));
            assert(u.take(k + 1).last() == updates@[k as int]@);
        }
        let hash: Option<BlockHash> = match &updates[k] {
            StateUpdate::HighQc(qc) => Some(qc.block_hash),
            StateUpdate::Locked(l) => Some(l.block_hash),
            _ => None,
        };
        if let Some(h) = hash {
            if let Some(block) = pending.get(&h) {
                match encode_block(block) {
                    Ok(bytes) => {
                        let w = Write { key: block_storage_key(&h), value: bytes };
                        let ghost wv = (w.key@, w.value@);
                        out.push(w);
                        assert(writes_view(out@) =~= before.push(wv));
                    },
                    Err(_) => {},
                }
            }
        }
        proof {
            assert(writes_view(out@) =~= head + block_writes(u.take(k + 1), pending@));
        }
        k = k + 1;
    }
    assert(u.take(k as int) =~= u);
    out
}

/// The certificate cache after the certificates among the updates.
pub open spec fn remembered(cache: Seq<(BlockHash, QcView)>, u: Seq<UpdateView>) -> Seq<(BlockHash, QcView)>
    decreases u.len(),
{
    if u.len() == 0 {
        cache
    } else {
        let rest = remembered(cache, u.drop_last());
        match u.last() {
            UpdateView::HighQc(qc) => cache_insert(rest, qc.block_hash, qc, RECENT_QC_CACHE_CAPACITY as nat),
            _ => rest,
        }
    }
}

impl ConsensusNode {
    /// Makes a batch of updates durable, all of it or nothing, together with
    /// the pending blocks that it refers to. Only when that has worked are
    /// the certificates among the updates remembered.
    pub fn persist_updates<S: Storage>(&mut self, storage: &mut S, updates: &Vec<StateUpdate>) -> (r: Result<
        (),
        NodeError,
    >)
        requires
            old(self).wf(),
        ensures
            final(self).wf(),
            updates@.len() == 0 ==> r is Ok,
            match r {
                Ok(_) => {
                    let u = updates_view(updates@);
                    &&& final(storage).contents() == apply_writes(
                        old(storage).contents(),
                        batch_writes(u, old(self)@.state.pending_blocks),
                    )
                    &&& final(self)@ == (NodeView { recent_qcs: remembered(old(self)@.recent_qcs, u), ..old(self)@ })
                },
                Err(e) => {
                    &&& e == NodeError::Write(Record::SafetyUpdates)
                    &&& !old(storage).steady()
                    &&& final(storage).contents() == old(storage).contents()
                    &&& final(self)@ == old(self)@
                },
            },
    {
        let ghost u = updates_view(updates@);
        let ghost before = self@;
        if updates.len() == 0 {
            assert(batch_writes(u, self@.state.pending_blocks) =~= seq![]);
            return Ok(());
        }
        let writes = writes_for(updates, &self.state.pending_blocks);
        match storage.batch(&writes) {
            Ok(_) => {},
            Err(_) => {
                return Err(NodeError::Write(Record::SafetyUpdates));
            },
        }
        let mut i: usize = 0;
        assert(u.take(0) =~= seq![]);
        while i < updates.len()
            invariant
                i <= updates.len(),
                u == updates_view(updates@),
                self.wf(),
                self@ == (NodeView { recent_qcs: remembered(before.recent_qcs, u.take(i as int)), ..before }),
            decreases updates.len() - i,
        {
            proof {
                assert(u.take(i + 1).drop_last() =~= u.take(i as int));
                assert(u.take(i + 1).last() == updates@[i as int]@);
            }
            match &updates[i] {
                StateUpdate::HighQc(qc) => {
                    self.recent_qcs.insert(qc.block_hash, qc.copy(), RECENT_QC_CACHE_CAPACITY);
                },
                _ => {},
            }
            i = i + 1;
        }
        assert(u.take(i as int) =~= u);
        Ok(())
    }
}

// ---- what recovery makes of a batch --------------------------------------

/// The value of the last update of a kind.
pub open spec fn last_voted(u: Seq<UpdateView>) -> Option<u64>
    decreases u.len(),
{
    if u.len() == 0 {
        None
    } else {
        match u.last() {
            UpdateView::VotedInView { view } => Some(view),
            _ => last_voted(u.drop_last()),
        }
    }
}

pub open spec fn last_proposed(u: Seq<UpdateView>) -> Option<u64>
    decreases u.len(),
{
    if u.len() == 0 {
        None
    } else {
        match u.last() {
            UpdateView::ProposedInView { view } => Some(view),
            _ => last_proposed(u.drop_last()),
        }
    }
}

pub open spec fn last_locked(u: Seq<UpdateView>) -> Option<Locked>
    decreases u.len(),
{
    if u.len() == 0 {
        None
    } else {
        match u.last() {
            UpdateView::Locked(l) => Some(l),
            _ => last_locked(u.drop_last()),
        }
    }
}

pub open spec fn last_high_qc(u: Seq<UpdateView>) -> Option<QcView>
    decreases u.len(),
{
    if u.len() == 0 {
        None
    } else {
        match u.last() {
            UpdateView::HighQc(qc) => Some(qc),
            _ => last_high_qc(u.drop_last()),
        }
    }
}

proof fn lemma_record_keys_differ()
    ensures
        ({
            let voted = key_bytes(STORAGE_KEY_LAST_VOTED_VIEW);
            let locked = key_bytes(STORAGE_KEY_LOCKED);
            let qc = key_bytes(STORAGE_KEY_HIGH_QC);
            let proposed = key_bytes(STORAGE_KEY_PROPOSED_IN_VIEW);
            &&& voted != locked
            &&& voted != qc
            &&& voted != proposed
            &&& locked != qc
            &&& locked != proposed
            &&& qc != proposed
        }),
{
    lemma_key_shapes();
}

/// After the updates of a batch, each record holds its last update, or what
/// it held before.
proof fn lemma_records(m: Map<Seq<u8>, Seq<u8>>, u: Seq<UpdateView>)
    ensures
        ({
            let n = apply_writes(m, update_writes(u));
            &&& lookup(n, key_bytes(STORAGE_KEY_LAST_VOTED_VIEW)) == (match last_voted(u) {
                Some(v) => Some(varint(v as nat)),
                None => lookup(m, key_bytes(STORAGE_KEY_LAST_VOTED_VIEW)),
            })
            &&& lookup(n, key_bytes(STORAGE_KEY_PROPOSED_IN_VIEW)) == (match last_proposed(u) {
                Some(v) => Some(varint(v as nat)),
                None => lookup(m, key_bytes(STORAGE_KEY_PROPOSED_IN_VIEW)),
            })
            &&& lookup(n, key_bytes(STORAGE_KEY_LOCKED)) == (match last_locked(u) {
                Some(l) => Some(enc_locked(l)),
                None => lookup(m, key_bytes(STORAGE_KEY_LOCKED)),
            })
            &&& lookup(n, key_bytes(STORAGE_KEY_HIGH_QC)) == (match last_high_qc(u) {
                Some(qc) => Some(enc_qc(qc)),
                None => lookup(m, key_bytes(STORAGE_KEY_HIGH_QC)),
            })
        }),
    decreases u.len(),
{
    lemma_record_keys_differ();
    if u.len() > 0 {
        let d = u.drop_last();
        lemma_records(m, d);
        assert(update_writes(u).drop_last() =~= update_writes(d));
        assert(update_writes(u).last() == update_write(u.last()));
    }
}

proof fn lemma_block_writes_keys(u: Seq<UpdateView>, pending: Map<BlockHash, BlockView>, i: int) -> (h: BlockHash)
    requires
        0 <= i < block_writes(u, pending).len(),
    ensures
        pending.contains_key(h),
        block_writes(u, pending)[i] == (block_key(h), enc_block(pending[h])),
    decreases u.len(),
{
    let d = u.drop_last();
    let rest = block_writes(d, pending);
    if i < rest.len() {
        lemma_block_writes_keys(d, pending, i)
    } else {
        referenced(u.last())->0
    }
}

/// A block write touches no record.
proof fn lemma_records_survive(
    m: Map<Seq<u8>, Seq<u8>>,
    u: Seq<UpdateView>,
    pending: Map<BlockHash, BlockView>,
    key: Seq<u8>,
)
    requires
        record_keys().contains(key),
    ensures
        lookup(apply_writes(m, block_writes(u, pending)), key) == lookup(m, key),
{
    let w = block_writes(u, pending);
    let k = choose|k: int| 0 <= k < record_keys().len() && record_keys()[k] == key;
    assert forall|i: int| 0 <= i < w.len() implies (#[trigger] w[i]).0 != key by {
        let h = lemma_block_writes_keys(u, pending, i);
        keys_do_not_collide(h, h);
        assert(record_keys()[k] != block_key(h));
    }
    lemma_untouched(m, w, key);
}

/// A block that a batch refers to and that was pending is stored by it.
proof fn lemma_block_stored(
    m: Map<Seq<u8>, Seq<u8>>,
    u: Seq<UpdateView>,
    pending: Map<BlockHash, BlockView>,
    h: BlockHash,
)
    ensures
        pending.contains_key(h) && (exists|i: int| 0 <= i < u.len() && referenced(#[trigger] u[i]) == Some(h))
            ==> lookup(apply_writes(m, block_writes(u, pending)), block_key(h)) == Some(enc_block(pending[h])),
        !(pending.contains_key(h) && (exists|i: int| 0 <= i < u.len() && referenced(#[trigger] u[i]) == Some(h)))
            ==> lookup(apply_writes(m, block_writes(u, pending)), block_key(h)) == lookup(m, block_key(h)),
    decreases u.len(),
{
    if u.len() > 0 {
        let d = u.drop_last();
        lemma_block_stored(m, d, pending, h);
        let w = block_writes(u, pending);
        let before = block_writes(d, pending);
        if exists|i: int| 0 <= i < u.len() && referenced(#[trigger] u[i]) == Some(h) {
            let i = choose|i: int| 0 <= i < u.len() && referenced(#[trigger] u[i]) == Some(h);
            if i < d.len() {
                assert(d[i] == u[i]);
            }
        }
        if exists|i: int| 0 <= i < d.len() && referenced(#[trigger] d[i]) == Some(h) {
            let i = choose|i: int| 0 <= i < d.len() && referenced(#[trigger] d[i]) == Some(h);
            assert(u[i] == d[i]);
        }
        assert(u[u.len() - 1] == u.last());
        match referenced(u.last()) {
            Some(g) => {
                if pending.contains_key(g) {
                    assert(w.drop_last() =~= before);
                    assert(w.last() == (block_key(g), enc_block(pending[g])));
                    keys_do_not_collide(g, h);
                }
            },
            None => {},
        }
    }
}

/// The store after a batch, record by record.
pub proof fn batch_is_last_write_wins(
    m: Map<Seq<u8>, Seq<u8>>,
    u: Seq<UpdateView>,
    pending: Map<BlockHash, BlockView>,
)
    ensures
        ({
            let n = apply_writes(m, batch_writes(u, pending));
            &&& lookup(n, key_bytes(STORAGE_KEY_LAST_VOTED_VIEW)) == (match last_voted(u) {
                Some(v) => Some(varint(v as nat)),
                None => lookup(m, key_bytes(STORAGE_KEY_LAST_VOTED_VIEW)),
            })
            &&& lookup(n, key_bytes(STORAGE_KEY_PROPOSED_IN_VIEW)) == (match last_proposed(u) {
                Some(v) => Some(varint(v as nat)),
                None => lookup(m, key_bytes(STORAGE_KEY_PROPOSED_IN_VIEW)),
            })
            &&& lookup(n, key_bytes(STORAGE_KEY_LOCKED)) == (match last_locked(u) {
                Some(l) => Some(enc_locked(l)),
                None => lookup(m, key_bytes(STORAGE_KEY_LOCKED)),
            })
            &&& lookup(n, key_bytes(STORAGE_KEY_HIGH_QC)) == (match last_high_qc(u) {
                Some(qc) => Some(enc_qc(qc)),
                None => lookup(m, key_bytes(STORAGE_KEY_HIGH_QC)),
            })
        }),
{
    let mid = apply_writes(m, update_writes(u));
    lemma_apply_concat(m, update_writes(u), block_writes(u, pending));
    lemma_records(m, u);
    let keys = record_keys();
    assert(keys[0] == key_bytes(STORAGE_KEY_LAST_VOTED_VIEW));
    assert(keys[1] == key_bytes(STORAGE_KEY_LOCKED));
    assert(keys[2] == key_bytes(STORAGE_KEY_HIGH_QC));
    assert(keys[3] == key_bytes(STORAGE_KEY_PROPOSED_IN_VIEW));
    lemma_records_survive(mid, u, pending, keys[0]);
    lemma_records_survive(mid, u, pending, keys[1]);
    lemma_records_survive(mid, u, pending, keys[2]);
    lemma_records_survive(mid, u, pending, keys[3]);
}

/// What a batch does to the key of a block: a pending block that the batch
/// refers to is stored; any other key is left alone.
pub proof fn batch_stores_referenced_blocks(
    m: Map<Seq<u8>, Seq<u8>>,
    u: Seq<UpdateView>,
    pending: Map<BlockHash, BlockView>,
    h: BlockHash,
)
    ensures
        ({
            let n = apply_writes(m, batch_writes(u, pending));
            let hit = pending.contains_key(h) && exists|i: int|
                0 <= i < u.len() && referenced(#[trigger] u[i]) == Some(h);
            lookup(n, block_key(h)) == (if hit {
                Some(enc_block(pending[h]))
            } else {
                lookup(m, block_key(h))
            })
        }),
{
    let mid = apply_writes(m, update_writes(u));
    lemma_apply_concat(m, update_writes(u), block_writes(u, pending));
    lemma_block_stored(mid, u, pending, h);
    keys_do_not_collide(h, h);
    let w = update_writes(u);
    let keys = record_keys();
    assert forall|i: int| 0 <= i < w.len() implies (#[trigger] w[i]).0 != block_key(h) by {
        assert(w[i] == update_write(u[i]));
        assert(keys[0] != block_key(h));
        assert(keys[1] != block_key(h));
        assert(keys[2] != block_key(h));
        assert(keys[3] != block_key(h));
    }
    lemma_untouched(m, w, block_key(h));
}

/// A leader never proposes twice in a view across restarts: the view that it
/// recorded before it proposed is the one that recovery gives back.
pub proof fn proposals_are_remembered<D: Digests>(
    d: &D,
    m: Map<Seq<u8>, Seq<u8>>,
    u: Seq<UpdateView>,
    pending: Map<BlockHash, BlockView>,
    self_id: NodeId,
    c: &NodeConfigForConsensus,
)
    requires
        last_proposed(u) is Some,
    ensures
        ({
            let n = apply_writes(m, batch_writes(u, pending));
            let v = last_proposed(u)->0;
            &&& read_proposed(lookup(n, key_bytes(STORAGE_KEY_PROPOSED_IN_VIEW))) == Ok::<u64, NodeError>(v)
            &&& recovered_node(d, n, self_id, c) matches Ok(node) ==> node.proposed_in_view == v
        }),
{
    batch_is_last_write_wins(m, u, pending);
    stored_view_reads_back(last_proposed(u)->0);
}

/// What is persisted before a crash is what recovery finds after it.
///
/// `start` is what the replica stands at where nothing is stored. If the
/// store was sound before a batch, recovery after the batch succeeds
/// and gives back the last view voted in, the last lock and the last
/// certificate of the batch, each falling back to what was stored before.
/// If the block that the certificate or the lock refers to was pending, it
/// is pending again.
pub proof fn persisted_state_survives_a_restart<D: Digests>(
    d: &D,
    m: Map<Seq<u8>, Seq<u8>>,
    u: Seq<UpdateView>,
    pending: Map<BlockHash, BlockView>,
    start: StateView,
)
    requires
        start.high_qc is Some,
        overlaid(d, m, start) is Ok,
        filed_by_hash(pending),
        forall|h: BlockHash| #[trigger]
            pending.contains_key(h) ==> encodable_items(pending[h].commands) && genuine(d, pending[h]),
        forall|i: int| 0 <= i < u.len() ==> (#[trigger] u[i] matches UpdateView::HighQc(qc) ==> encodable_qc(qc)),
        blocks_sound(d, m),
    ensures
        ({
            let before = overlaid(d, m, start)->Ok_0;
            let n = apply_writes(m, batch_writes(u, pending));
            &&& overlaid(d, n, start) is Ok
            &&& ({
                let after = overlaid(d, n, start)->Ok_0;
                &&& after.last_voted_view == (match last_voted(u) {
                    Some(v) => v,
                    None => before.last_voted_view,
                })
                &&& after.locked == (match last_locked(u) {
                    Some(l) => Some(l),
                    None => before.locked,
                })
                &&& after.high_qc == (match last_high_qc(u) {
                    Some(qc) => Some(qc),
                    None => before.high_qc,
                })
                &&& last_high_qc(u) matches Some(qc) ==> (pending.contains_key(qc.block_hash) ==> (
                after.pending_blocks.contains_key(qc.block_hash) && after.pending_blocks[qc.block_hash]
                    == pending[qc.block_hash]))
                &&& last_locked(u) matches Some(l) ==> (pending.contains_key(l.block_hash) ==> (
                after.pending_blocks.contains_key(l.block_hash) && after.pending_blocks[l.block_hash]
                    == pending[l.block_hash]))
                &&& blocks_sound(d, n)
            })
        }),
{
    let n = apply_writes(m, batch_writes(u, pending));
    batch_is_last_write_wins(m, u, pending);
    assert forall|h: BlockHash| sound_at(d, n, h) by {
        batch_stores_referenced_blocks(m, u, pending, h);
        assert(sound_at(d, m, h));
        if pending.contains_key(h) {
            stored_block_reads_back(pending[h]);
        }
    }
    let voted = lookup(n, key_bytes(STORAGE_KEY_LAST_VOTED_VIEW));
    let locked = lookup(n, key_bytes(STORAGE_KEY_LOCKED));
    let qc = lookup(n, key_bytes(STORAGE_KEY_HIGH_QC));
    match last_voted(u) {
        Some(v) => {
            stored_view_reads_back(v);
        },
        None => {},
    }
    match last_locked(u) {
        Some(l) => {
            stored_lock_reads_back(l);
        },
        None => {},
    }
    match last_high_qc(u) {
        Some(q) => {
            lemma_last_high_qc_at(u);
            stored_qc_reads_back(q);
        },
        None => {},
    }
    let s1 = with_voted(start, voted)->Ok_0;
    let s2 = with_locked(s1, locked)->Ok_0;
    let s3 = with_high_qc(s2, qc)->Ok_0;
    let h1 = s3.high_qc->0.block_hash;
    assert(sound_at(d, n, h1));
    let s4 = with_block(d, s3, n, h1)->Ok_0;
    match last_high_qc(u) {
        Some(q) => {
            lemma_last_high_qc_at(u);
            batch_stores_referenced_blocks(m, u, pending, q.block_hash);
            if pending.contains_key(q.block_hash) {
                stored_block_reads_back(pending[q.block_hash]);
            }
        },
        None => {},
    }
    match s4.locked {
        Some(l) => {
            assert(sound_at(d, n, l.block_hash));
        },
        None => {},
    }
    match last_locked(u) {
        Some(l) => {
            lemma_last_locked_at(u);
            batch_stores_referenced_blocks(m, u, pending, l.block_hash);
            if pending.contains_key(l.block_hash) {
                stored_block_reads_back(pending[l.block_hash]);
            }
        },
        None => {},
    }
}

/// What is stored under the key of a block, if anything, is that block.
pub open spec fn sound_at<D: Digests>(d: &D, m: Map<Seq<u8>, Seq<u8>>, h: BlockHash) -> bool {
    match read_block(d, lookup(m, block_key(h))) {
        Ok(Some(b)) => b.hash == h,
        Ok(None) => true,
        Err(_) => false,
    }
}

/// What is stored under the key of any block is that block.
pub open spec fn blocks_sound<D: Digests>(d: &D, m: Map<Seq<u8>, Seq<u8>>) -> bool {
    forall|h: BlockHash| #[trigger] sound_at(d, m, h)
}

proof fn lemma_last_high_qc_at(u: Seq<UpdateView>)
    requires
        last_high_qc(u) is Some,
    ensures
        exists|i: int| 0 <= i < u.len() && #[trigger] u[i] == UpdateView::HighQc(last_high_qc(u)->0),
        exists|i: int| 0 <= i < u.len() && referenced(#[trigger] u[i]) == Some(last_high_qc(u)->0.block_hash),
    decreases u.len(),
{
    let n = u.len() - 1;
    if u.last() is HighQc {
        assert(u[n] == UpdateView::HighQc(last_high_qc(u)->0));
        assert(referenced(u[n]) == Some(last_high_qc(u)->0.block_hash));
    } else {
        let d = u.drop_last();
        lemma_last_high_qc_at(d);
        let i = choose|i: int| 0 <= i < d.len() && #[trigger] d[i] == UpdateView::HighQc(last_high_qc(d)->0);
        assert(u[i] == d[i]);
        assert(referenced(u[i]) == Some(last_high_qc(u)->0.block_hash));
    }
}

proof fn lemma_last_locked_at(u: Seq<UpdateView>)
    requires
        last_locked(u) is Some,
    ensures
        exists|i: int| 0 <= i < u.len() && referenced(#[trigger] u[i]) == Some(last_locked(u)->0.block_hash),
    decreases u.len(),
{
    let n = u.len() - 1;
    if u.last() is Locked {
        assert(referenced(u[n]) == Some(last_locked(u)->0.block_hash));
    } else {
        let d = u.drop_last();
        lemma_last_locked_at(d);
        let i = choose|i: int| 0 <= i < d.len() && referenced(#[trigger] d[i]) == Some(last_locked(d)->0.block_hash);
        assert(u[i] == d[i]);
    }
}

} // verus!
