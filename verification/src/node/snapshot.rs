//! Snapshots: what goes into one, and taking one over.

use vstd::prelude::*;

use crate::bytes::{copy_bytes, same, Bytes32};
use crate::codec::{
    enc_block, enc_last_committed, enc_locked, enc_qc, encodable_items, encodable_qc, encode_block,
    encode_high_qc, encode_last_committed, encode_locked, encode_voted_view, parse_locked, parse_qc,
    stored_block_reads_back, stored_checkpoint_reads_back, stored_lock_reads_back, stored_qc_reads_back,
    stored_view_reads_back, Record,
};
use crate::digests::{genuine, sealed, Digests};
use crate::history_codec::{
    decode_key_history, enc_history, enc_keys, encodable_keys, encode_key_history, encode_validator_history,
    parse_history, parse_keys, stored_history_reads_back, stored_keys_read_back,
};
use crate::key_history::{keys_ok, BlsKeyHistory, Timelines, ValidatorKeyHistory};
use crate::node::commit::{store_record, with_keys, KeysStored};
use crate::node::consensus_node::{history_from_bytes, opt_bls, read_checkpoint, ConsensusNode, NodeView};
use crate::node::error::NodeError;
use crate::node::qc_cache::{cache_get, cache_insert, RECENT_QC_CACHE_CAPACITY};
use crate::node::recovery::read_block;
use crate::pacemaker::leader::WeightedAccumulatorSelector;
use crate::replication::StateMachine;
use crate::state::StateView;
use crate::storage::{
    apply_writes, block_key, block_storage_key, key_bytes, keys_do_not_collide, lookup, opt_bytes, record_keys,
    writes_view, Storage, Write, STORAGE_KEY_HIGH_QC, STORAGE_KEY_LAST_COMMITTED, STORAGE_KEY_LAST_VOTED_VIEW,
    STORAGE_KEY_LOCKED, STORAGE_KEY_VALIDATOR_HISTORY,
};
use crate::trusted::{take_varint, varint};
use crate::types::{Block, BlockHash, BlockView, LastCommitted, Locked, QcView, QuorumCertificate};
use crate::validator_history::{history_ok, no_empty_committee, set_at, HistoryView, ValidatorSetHistory};
use crate::validator_set::{Member, ValidatorSet};

verus! {

/// What a snapshot says of itself: the block that it was taken at, the
/// certificate over it, and the committees and keys at that point in their
/// stored form.
#[derive(Debug)]
pub struct SnapshotManifest {
    pub height: u64,
    pub view: u64,
    pub block: Block,
    pub block_hash: BlockHash,
    pub state_commitment: Bytes32,
    pub active_set: ValidatorSet,
    pub chunk_size: u64,
    pub commit_qc: QuorumCertificate,
    pub validator_history: Vec<u8>,
    pub validator_key_history: Vec<u8>,
    pub bls_key_history: Option<Vec<u8>>,
}

#[verifier::ext_equal]
pub struct ManifestView {
    pub height: u64,
    pub view: u64,
    pub block: BlockView,
    pub block_hash: BlockHash,
    pub state_commitment: Bytes32,
    pub active_set: Seq<Member>,
    pub chunk_size: u64,
    pub commit_qc: QcView,
    pub validator_history: Seq<u8>,
    pub validator_key_history: Seq<u8>,
    pub bls_key_history: Option<Seq<u8>>,
}

impl View for SnapshotManifest {
    type V = ManifestView;

    open spec fn view(&self) -> ManifestView {
        ManifestView {
            height: self.height,
            view: self.view,
            block: self.block@,
            block_hash: self.block_hash,
            state_commitment: self.state_commitment,
            active_set: self.active_set@,
            chunk_size: self.chunk_size,
            commit_qc: self.commit_qc@,
            validator_history: self.validator_history@,
            validator_key_history: self.validator_key_history@,
            bls_key_history: opt_bytes(self.bls_key_history),
        }
    }
}

/// The manifest of a snapshot at a committed block: there is one as long as
/// the certificate over the block is remembered.
pub open spec fn drafted(n: NodeView, b: BlockView) -> Option<ManifestView> {
    match cache_get(n.recent_qcs, b.hash) {
        None => None,
        Some(qc) => Some(
            ManifestView {
                height: b.header.height,
                view: b.header.view,
                block: b,
                block_hash: b.hash,
                state_commitment: b.header.state_commitment,
                active_set: set_at(n.validator_history, b.header.view),
                chunk_size: n.snapshot_policy.chunk_size_bytes,
                commit_qc: qc,
                validator_history: enc_history(n.validator_history),
                validator_key_history: enc_keys(n.keys),
                bls_key_history: match n.bls {
                    Some(h) => Some(enc_keys(h)),
                    None => None,
                },
            },
        ),
    }
}

impl ConsensusNode {
    /// The manifest of a snapshot at a committed block. Without the
    /// certificate over the block there is none: nobody could verify it.
    pub fn draft_snapshot(&self, block: &Block) -> (r: Option<SnapshotManifest>)
        requires
            self.wf(),
        ensures
            match r {
                Some(m) => drafted(self@, block@) == Some(m@) && m.active_set.wf(),
                None => drafted(self@, block@) is None,
            },
    {
        let hash = block.hash();
        match self.recent_qcs.get(&hash) {
            None => None,
            Some(qc) => {
                let m = SnapshotManifest {
                    height: block.header.height,
                    view: block.header.view,
                    block: block.copy(),
                    block_hash: hash,
                    state_commitment: block.header.state_commitment,
                    active_set: self.validator_history.set_at(block.header.view).copy(),
                    chunk_size: self.snapshot_policy.chunk_size_bytes,
                    commit_qc: qc.copy(),
                    validator_history: encode_validator_history(&self.validator_history),
                    validator_key_history: encode_key_history(&self.validator_key_history),
                    bls_key_history: match &self.bls_key_history {
                        Some(h) => Some(encode_key_history(h)),
                        None => None,
                    },
                };
                Some(m)
            },
        }
    }
}

// ---- taking over a snapshot ----------------------------------------------

/// The safety state once it stands at the snapshot: its block is pending and
/// locked, its certificate the freshest, its view voted in.
pub open spec fn adopted(s: StateView, m: ManifestView) -> StateView {
    StateView {
        pending_blocks: s.pending_blocks.insert(m.block.hash, m.block),
        locked: Some(Locked { view: m.view, height: m.block.header.height, block_hash: m.block.hash }),
        high_qc: Some(m.commit_qc),
        last_voted_view: m.view,
        ..s
    }
}

/// What is written when a snapshot is taken over: the block, the checkpoint
/// and the safety state, all at once.
pub open spec fn adoption_writes(m: ManifestView) -> Seq<(Seq<u8>, Seq<u8>)> {
    seq![
        (block_key(m.block_hash), enc_block(m.block)),
        (
            key_bytes(STORAGE_KEY_LAST_COMMITTED),
            enc_last_committed(
                LastCommitted { height: m.height, view: m.view, last_committed_hash: m.block_hash },
            ),
        ),
        (key_bytes(STORAGE_KEY_LAST_VOTED_VIEW), varint(m.view as nat)),
        (
            key_bytes(STORAGE_KEY_LOCKED),
            enc_locked(Locked { view: m.view, height: m.block.header.height, block_hash: m.block.hash }),
        ),
        (key_bytes(STORAGE_KEY_HIGH_QC), enc_qc(m.commit_qc)),
    ]
}

/// The node with the height and view of the snapshot.
pub open spec fn counted_to(n: NodeView, m: ManifestView) -> NodeView {
    if m.height > n.last_committed_height {
        NodeView { last_committed_height: m.height, last_committed_view: m.view, ..n }
    } else {
        n
    }
}

/// The node that stands at the snapshot, with its committees and keys still
/// to come.
pub open spec fn standing_at(n: NodeView, m: ManifestView) -> NodeView {
    counted_to(NodeView { state: adopted(n.state, m), ..n }, m)
}

/// The committees and keys that a manifest carries.
pub struct Carried {
    pub committees: HistoryView,
    pub signing: Timelines<32>,
    pub bls: Option<Timelines<48>>,
}

pub open spec fn carried(m: ManifestView) -> Result<Carried, NodeError> {
    match parse_history(m.validator_history) {
        None => Err(NodeError::Corrupt(Record::ValidatorHistory)),
        Some(committees) => if !no_empty_committee(committees) {
            Err(NodeError::Corrupt(Record::ValidatorHistory))
        } else {
            match parse_keys::<32>(m.validator_key_history) {
                None => Err(NodeError::Corrupt(Record::ValidatorKeyHistory)),
                Some(signing) => match m.bls_key_history {
                    None => Ok(Carried { committees, signing, bls: None }),
                    Some(bytes) => match parse_keys::<48>(bytes) {
                        None => Err(NodeError::Corrupt(Record::BlsKeyHistory)),
                        Some(h) => Ok(Carried { committees, signing, bls: Some(h) }),
                    },
                },
            }
        },
    }
}

/// The boundaries after genesis come after all that the safety state knows.
pub open spec fn follows(core: HistoryView, installed: HistoryView) -> bool {
    installed.len() > 1 ==> installed[1].0 > core.last().0
}

/// The node with the committees and keys of the snapshot.
pub open spec fn installed(n: NodeView, m: ManifestView, c: Carried) -> NodeView {
    NodeView {
        state: StateView {
            validator_history: n.state.validator_history + c.committees.skip(1),
            ..n.state
        },
        validator_set: c.committees.last().1,
        validator_history: c.committees,
        selector: c.committees,
        keys: c.signing,
        bls: c.bls,
        recent_qcs: cache_insert(n.recent_qcs, m.block_hash, m.commit_qc, RECENT_QC_CACHE_CAPACITY as nat),
        ..n
    }
}

/// Which of the records of committees and keys could be stored.
#[derive(Clone, Copy, Debug, PartialEq, Eq, Structural)]
pub struct HistoriesStored {
    pub committees: bool,
    pub keys: KeysStored,
}

/// The store once the committees and keys have been put into it, as far as
/// that worked.
pub open spec fn with_histories(m: Map<Seq<u8>, Seq<u8>>, c: Carried, s: HistoriesStored) -> Map<Seq<u8>, Seq<u8>> {
    let a = if s.committees {
        m.insert(key_bytes(STORAGE_KEY_VALIDATOR_HISTORY), enc_history(c.committees))
    } else {
        m
    };
    with_keys(a, c.signing, c.bls, s.keys)
}

/// The histories that a manifest carries, read.
struct Unpacked {
    committees: ValidatorSetHistory,
    keys: ValidatorKeyHistory,
    bls: Option<BlsKeyHistory>,
}

impl Unpacked {
    spec fn wf(&self) -> bool {
        &&& self.committees.wf()
        &&& no_empty_committee(self.committees@)
        &&& self.keys.wf()
        &&& self.bls matches Some(h) ==> h.wf()
    }

    spec fn carried(&self) -> Carried {
        Carried { committees: self.committees@, signing: self.keys@, bls: opt_bls(self.bls) }
    }
}

fn unpack(m: &SnapshotManifest, some_set: &ValidatorSet) -> (r: Result<Unpacked, NodeError>)
    requires
        some_set.wf(),
        some_set@.len() > 0,
    ensures
        match r {
            Ok(u) => u.wf() && carried(m@) == Ok::<Carried, NodeError>(u.carried()),
            Err(e) => carried(m@) == Err::<Carried, NodeError>(e),
        },
{
    let committees = match history_from_bytes(Some(copy_bytes(m.validator_history.as_slice())), some_set) {
        Ok(h) => h,
        Err(e) => {
            return Err(e);
        },
    };
    let keys = match decode_key_history::<32>(m.validator_key_history.as_slice(), Record::ValidatorKeyHistory) {
        Ok(k) => k,
        Err(_) => {
            return Err(NodeError::Corrupt(Record::ValidatorKeyHistory));
        },
    };
    let bls = match &m.bls_key_history {
        None => None,
        Some(bytes) => match decode_key_history::<48>(bytes.as_slice(), Record::BlsKeyHistory) {
            Ok(h) => Some(h),
            Err(_) => {
                return Err(NodeError::Corrupt(Record::BlsKeyHistory));
            },
        },
    };
    Ok(Unpacked { committees, keys, bls })
}

/// Puts the boundaries of `from` after genesis behind those of `core`.
fn replay_boundaries(core: &mut ValidatorSetHistory, from: &ValidatorSetHistory) -> (r: Result<(), NodeError>)
    requires
        old(core).wf(),
        from.wf(),
    ensures
        final(core).wf(),
        r is Ok <==> follows(old(core)@, from@),
        match r {
            Ok(_) => final(core)@ == old(core)@ + from@.skip(1),
            Err(e) => final(core)@ == old(core)@ && e == (NodeError::BoundaryRefused { v_eff: from@[1].0 }),
        },
{
    let ghost base = core@;
    let n = from.boundary_count();
    let mut i: usize = 1;
    assert(from@.subrange(1, 1) =~= seq![]);
    assert(base + from@.subrange(1, 1) =~= base);
    while i < n
        invariant
            1 <= i <= n,
            n == from@.len(),
            from.wf(),
            core.wf(),
            base == old(core)@,
            core@ == base + from@.subrange(1, i as int),
            i > 1 ==> follows(base, from@),
        decreases n - i,
    {
        let v_eff: u64 = from.v_eff_of(i);
        proof {
            assert(crate::validator_set::committee(from@[i as int].1));
            if i > 1 {
                assert(core@.last() == from@[i - 1]);
                assert(from@[i - 1].0 < from@[i as int].0);
            } else {
                assert(core@ =~= base);
            }
        }
        match core.insert_boundary(v_eff, from.set_of(i).copy()) {
            Ok(_) => {},
            Err(_) => {
                return Err(NodeError::BoundaryRefused { v_eff });
            },
        }
        proof {
            assert(core@ =~= base + from@.subrange(1, i + 1));
        }
        i = i + 1;
    }
    proof {
        assert(from@.subrange(1, n as int) =~= from@.skip(1));
    }
    Ok(())
}

/// What came of taking over a snapshot, once the application has it.
pub open spec fn restored(
    n: NodeView,
    m: ManifestView,
    store: Map<Seq<u8>, Seq<u8>>,
    steady: bool,
    r: Result<HistoriesStored, NodeError>,
    after: NodeView,
    after_store: Map<Seq<u8>, Seq<u8>>,
) -> bool {
    let written = apply_writes(store, adoption_writes(m));
    ||| {
        // the store refused: nothing is durable
        &&& !steady
        &&& r == Err::<HistoriesStored, NodeError>(NodeError::Write(Record::LastCommitted))
        &&& after == (NodeView { state: adopted(n.state, m), ..n })
        &&& after_store == store
    }
    ||| match carried(m) {
        Err(e) => {
            &&& r == Err::<HistoriesStored, NodeError>(e)
            &&& after == standing_at(n, m)
            &&& after_store == written
        },
        Ok(c) => if !follows(n.state.validator_history, c.committees) {
            &&& r == Err::<HistoriesStored, NodeError>(NodeError::BoundaryRefused { v_eff: c.committees[1].0 })
            &&& after == standing_at(n, m)
            &&& after_store == written
        } else {
            &&& r is Ok
            &&& after == installed(standing_at(n, m), m, c)
            &&& after_store == with_histories(written, c, r->Ok_0)
            &&& steady ==> r->Ok_0 == (HistoriesStored {
                committees: true,
                keys: KeysStored { signing: true, bls: true },
            })
        },
    }
}

impl ConsensusNode {
    /// Takes over a snapshot that has been verified. The application comes
    /// first: if it cannot restore the payload, or ends up in another state
    /// than the snapshot was taken of, the node and the store stay as they
    /// are. Then the safety state moves to the snapshot and is recorded
    /// together with the block and the checkpoint. Then come the committees
    /// and keys.
    pub fn restore_from_snapshot<M: StateMachine, S: Storage>(
        &mut self,
        sm: &mut M,
        storage: &mut S,
        manifest: SnapshotManifest,
        payload: &[u8],
    ) -> (r: Result<HistoriesStored, NodeError>)
        requires
            old(self).wf(),
        ensures
            final(self).wf(),
            match r {
                Err(NodeError::RestoreFailed) => {
                    &&& !(M::restores_all() && M::stands_for(payload@) is Some)
                    &&& final(self)@ == old(self)@
                    &&& final(storage).contents() == old(storage).contents()
                },
                Err(NodeError::CommitmentMismatch) => {
                    &&& M::stands_for(payload@) == Some(final(sm).model())
                    &&& M::commitment_to(final(sm).model()) != manifest.state_commitment
                    &&& final(self)@ == old(self)@
                    &&& final(storage).contents() == old(storage).contents()
                },
                _ => {
                    &&& M::stands_for(payload@) == Some(final(sm).model())
                    &&& M::commitment_to(final(sm).model()) == manifest.state_commitment
                    &&& restored(
                        old(self)@,
                        manifest@,
                        old(storage).contents(),
                        old(storage).steady(),
                        r,
                        final(self)@,
                        final(storage).contents(),
                    )
                },
            },
    {
        match sm.restore(payload) {
            Ok(_) => {},
            Err(_) => {
                return Err(NodeError::RestoreFailed);
            },
        }
        let commitment = sm.state_commitment();
        if !same(&commitment, &manifest.state_commitment) {
            return Err(NodeError::CommitmentMismatch);
        }
        self.install_snapshot(storage, manifest)
    }

    /// The part of the takeover that comes after the application's.
    pub fn install_snapshot<S: Storage>(&mut self, storage: &mut S, manifest: SnapshotManifest) -> (r: Result<
        HistoriesStored,
        NodeError,
    >)
        requires
            old(self).wf(),
        ensures
            final(self).wf(),
            restored(
                old(self)@,
                manifest@,
                old(storage).contents(),
                old(storage).steady(),
                r,
                final(self)@,
                final(storage).contents(),
            ),
            !(r matches Err(NodeError::RestoreFailed)),
            !(r matches Err(NodeError::CommitmentMismatch)),
    {
        let ghost n = self@;
        let ghost mv = manifest@;
        let ghost store = storage.contents();
        let locked = Locked {
            view: manifest.view,
            height: manifest.block.header.height,
            block_hash: manifest.block.hash(),
        };
        self.state.insert_pending(manifest.block.copy());
        self.state.locked = Some(locked);
        self.state.high_qc = Some(manifest.commit_qc.copy());
        self.state.last_voted_view = manifest.view;
        assert(self@ =~= (NodeView { state: adopted(n.state, mv), ..n }));
        let last = LastCommitted {
            height: manifest.height,
            view: manifest.view,
            last_committed_hash: manifest.block_hash,
        };
        let writes = match adoption_batch(&manifest, &last, &locked) {
            Some(w) => w,
            None => {
                return Err(NodeError::Write(Record::LastCommitted));
            },
        };
        match storage.batch(&writes) {
            Ok(_) => {},
            Err(_) => {
                return Err(NodeError::Write(Record::LastCommitted));
            },
        }
        if manifest.height > self.last_committed_height {
            self.last_committed_height = manifest.height;
            self.last_committed_view = manifest.view;
        }
        assert(self@ =~= standing_at(n, mv));
        let ghost standing = self@;
        let u = match unpack(&manifest, &self.validator_set) {
            Ok(u) => u,
            Err(e) => {
                return Err(e);
            },
        };
        let ghost c = u.carried();
        match replay_boundaries(&mut self.state.validator_history, &u.committees) {
            Ok(_) => {},
            Err(e) => {
                return Err(e);
            },
        }
        let set = u.committees.current_set().copy();
        proof {
            assert(u.committees@[u.committees@.len() - 1].1.len() > 0);
        }
        self.pacemaker.set_selector(WeightedAccumulatorSelector::new(u.committees.copy()));
        self.validator_set = set;
        self.validator_history = u.committees;
        self.validator_key_history = u.keys;
        self.bls_key_history = u.bls;
        self.recent_qcs.insert(manifest.block_hash, manifest.commit_qc, RECENT_QC_CACHE_CAPACITY);
        assert(self@ =~= installed(standing, mv, c));
        let committees = store_record(
            storage,
            STORAGE_KEY_VALIDATOR_HISTORY,
            encode_validator_history(&self.validator_history),
        );
        let keys = self.store_keys(storage);
        Ok(HistoriesStored { committees, keys })
    }
}

fn adoption_batch(m: &SnapshotManifest, last: &LastCommitted, locked: &Locked) -> (r: Option<Vec<Write>>)
    requires
        *last == (LastCommitted { height: m.height, view: m.view, last_committed_hash: m.block_hash }),
        *locked == (Locked { view: m.view, height: m.block.header.height, block_hash: m.block.hash }),
    ensures
        r matches Some(w) && writes_view(w@) == adoption_writes(m@),
{
    match (
        encode_block(&m.block),
        encode_last_committed(last),
        encode_voted_view(m.view),
        encode_locked(locked),
        encode_high_qc(&m.commit_qc),
    ) {
        (Ok(block), Ok(last), Ok(voted), Ok(locked), Ok(qc)) => {
            let mut w: Vec<Write> = Vec::new();
            w.push(Write { key: block_storage_key(&m.block_hash), value: block });
            w.push(Write { key: copy_bytes(STORAGE_KEY_LAST_COMMITTED.as_bytes()), value: last });
            w.push(Write { key: copy_bytes(STORAGE_KEY_LAST_VOTED_VIEW.as_bytes()), value: voted });
            w.push(Write { key: copy_bytes(STORAGE_KEY_LOCKED.as_bytes()), value: locked });
            w.push(Write { key: copy_bytes(STORAGE_KEY_HIGH_QC.as_bytes()), value: qc });
            assert(writes_view(w@) =~= adoption_writes(m@));
            Some(w)
        },
        _ => None,
    }
}

// ---- laws ----------------------------------------------------------------

/// A snapshot carries the committees and keys of the node that took it, and
/// they are read back as they were.
pub proof fn a_snapshot_carries_the_histories(n: NodeView, b: BlockView)
    requires
        drafted(n, b) is Some,
        history_ok(n.validator_history),
        no_empty_committee(n.validator_history),
        n.validator_history.len() <= u64::MAX,
        keys_ok(n.keys),
        encodable_keys(n.keys),
        n.bls matches Some(h) ==> keys_ok(h) && encodable_keys(h),
    ensures
        carried(drafted(n, b)->0) == Ok::<Carried, NodeError>(
            Carried { committees: n.validator_history, signing: n.keys, bls: n.bls },
        ),
{
    stored_history_reads_back(n.validator_history);
    stored_keys_read_back(n.keys);
    if let Some(h) = n.bls {
        stored_keys_read_back(h);
    }
}

/// A node that takes over a snapshot ends up with the committees and keys of
/// the node that took it, and its safety state and pacemaker in step with
/// them, if it knew of no committee but its first.
pub proof fn a_joiner_gets_the_histories_of_the_server(joiner: NodeView, server: NodeView, b: BlockView)
    requires
        drafted(server, b) is Some,
        history_ok(server.validator_history),
        no_empty_committee(server.validator_history),
        server.validator_history.len() <= u64::MAX,
        keys_ok(server.keys),
        encodable_keys(server.keys),
        server.bls matches Some(h) ==> keys_ok(h) && encodable_keys(h),
        joiner.state.validator_history.len() == 1,
        joiner.state.validator_history[0].0 == 0,
    ensures
        ({
            let m = drafted(server, b)->0;
            let c = carried(m)->Ok_0;
            let after = installed(standing_at(joiner, m), m, c);
            &&& carried(m) is Ok
            &&& follows(joiner.state.validator_history, c.committees)
            &&& after.validator_history == server.validator_history
            &&& after.keys == server.keys
            &&& after.bls == server.bls
            &&& after.in_step()
        }),
{
    a_snapshot_carries_the_histories(server, b);
    let m = drafted(server, b)->0;
    let c = carried(m)->Ok_0;
    let h = server.validator_history;
    if h.len() > 1 {
        assert(h[0].0 < h[1].0);
    }
    let after = installed(standing_at(joiner, m), m, c);
    assert(after.state.validator_history.len() == h.len());
    assert forall|i: int| 1 <= i < h.len() implies #[trigger] after.state.validator_history[i] == h[i] by {
        assert(h.skip(1)[i - 1] == h[i]);
    }
}

/// A crash right after a snapshot was recorded loses nothing: the block, the
/// checkpoint, the lock, the freshest certificate and the view that was
/// voted in are all read back.
pub proof fn an_adopted_snapshot_survives_a_restart<D: Digests>(d: &D, m: Map<Seq<u8>, Seq<u8>>, s: ManifestView)
    requires
        s.block_hash == s.block.hash,
        encodable_items(s.block.commands),
        encodable_qc(s.commit_qc),
    ensures
        ({
            let after = apply_writes(m, adoption_writes(s));
            let read = read_block(d, lookup(after, block_key(s.block_hash)));
            &&& read == Ok::<Option<BlockView>, NodeError>(Some(sealed(d, s.block.content())))
            &&& genuine(d, s.block) ==> read == Ok::<Option<BlockView>, NodeError>(Some(s.block))
            &&& read_checkpoint(lookup(after, key_bytes(STORAGE_KEY_LAST_COMMITTED))) == Ok::<(u64, u64), NodeError>(
                (s.height, s.view),
            )
            &&& lookup(after, key_bytes(STORAGE_KEY_LAST_VOTED_VIEW)) matches Some(v) && (take_varint(v) matches Some((
                x,
                _,
            )) && x == s.view)
            &&& lookup(after, key_bytes(STORAGE_KEY_LOCKED)) matches Some(l) && parse_locked(l) == Some(
                Locked { view: s.view, height: s.block.header.height, block_hash: s.block.hash },
            )
            &&& lookup(after, key_bytes(STORAGE_KEY_HIGH_QC)) matches Some(q) && parse_qc(q) == Some(s.commit_qc)
        }),
{
    let w = adoption_writes(s);
    keys_do_not_collide(s.block_hash, s.block_hash);
    let r = record_keys();
    assert(r[0] == key_bytes(STORAGE_KEY_LAST_VOTED_VIEW));
    assert(r[1] == key_bytes(STORAGE_KEY_LOCKED));
    assert(r[2] == key_bytes(STORAGE_KEY_HIGH_QC));
    assert(r[4] == key_bytes(STORAGE_KEY_LAST_COMMITTED));
    let w4 = w.drop_last();
    let w3 = w4.drop_last();
    let w2 = w3.drop_last();
    let w1 = w2.drop_last();
    assert(w1.drop_last() =~= seq![]);
    assert(apply_writes(m, w1.drop_last()) == m);
    assert(w4.last() == w[3] && w3.last() == w[2] && w2.last() == w[1] && w1.last() == w[0]);
    assert(apply_writes(m, w1) == m.insert(w[0].0, w[0].1));
    assert(apply_writes(m, w2) == apply_writes(m, w1).insert(w[1].0, w[1].1));
    assert(apply_writes(m, w3) == apply_writes(m, w2).insert(w[2].0, w[2].1));
    assert(apply_writes(m, w4) == apply_writes(m, w3).insert(w[3].0, w[3].1));
    assert(apply_writes(m, w) == apply_writes(m, w4).insert(w[4].0, w[4].1));
    stored_block_reads_back(s.block);
    stored_checkpoint_reads_back(
        LastCommitted { height: s.height, view: s.view, last_committed_hash: s.block_hash },
    );
    stored_view_reads_back(s.view);
    stored_lock_reads_back(Locked { view: s.view, height: s.block.header.height, block_hash: s.block.hash });
    stored_qc_reads_back(s.commit_qc);
}

/// Taking over a snapshot that is ahead moves nothing back.
pub proof fn a_snapshot_moves_nothing_back(n: NodeView, m: ManifestView)
    ensures
        standing_at(n, m).last_committed_height >= n.last_committed_height,
        standing_at(n, m).last_committed_height >= m.height,
        m.view >= n.state.last_voted_view ==> standing_at(n, m).state.last_voted_view >= n.state.last_voted_view,
{
}

} // verus!
