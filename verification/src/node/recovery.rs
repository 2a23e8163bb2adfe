//! Getting the safety state back from storage.

use vstd::prelude::*;

use crate::codec::{
    decode_block, decode_high_qc, decode_locked, decode_voted_view, parse_draft, parse_locked, parse_qc, Record,
};
use crate::digests::{genuine, sealed, Digests};
use crate::node::error::NodeError;
use crate::state::{fresh_state, HotStuffState, StateView};
use crate::storage::{
    block_key, block_storage_key, key_bytes, lookup, opt_bytes, Storage, STORAGE_KEY_HIGH_QC,
    STORAGE_KEY_LAST_VOTED_VIEW, STORAGE_KEY_LOCKED,
};
use crate::trusted::take_varint;
use crate::types::{genesis_qc, genesis_qc_view, Block, BlockHash, BlockView};
use crate::validator_set::{Member, ValidatorSet};

verus! {

pub open spec fn opt_block(o: Option<Block>) -> Option<BlockView> {
    match o {
        Some(b) => Some(b@),
        None => None,
    }
}

/// What the bytes found under the key of a block stand for: the block with
/// the content that was stored, under the hash of that content.
pub open spec fn read_block<D: Digests>(d: &D, raw: Option<Seq<u8>>) -> Result<Option<BlockView>, NodeError> {
    match raw {
        None => Ok(None),
        Some(bytes) => match parse_draft(bytes) {
            Some(content) => Ok(Some(sealed(d, content))),
            None => Err(NodeError::Corrupt(Record::Block)),
        },
    }
}

/// The block that the bytes found under the key of a block stand for. Its
/// hash is that of its content, whatever key it was found under.
pub fn block_from_bytes<D: Digests>(digests: &D, raw: Option<Vec<u8>>) -> (r: Result<Option<Block>, NodeError>)
    ensures
        match r {
            Ok(o) => read_block(digests, opt_bytes(raw)) == Ok::<Option<BlockView>, NodeError>(opt_block(o)),
            Err(e) => read_block(digests, opt_bytes(raw)) == Err::<Option<BlockView>, NodeError>(e),
        },
{
    match raw {
        None => Ok(None),
        Some(bytes) => match decode_block(bytes.as_slice()) {
            Ok(draft) => Ok(Some(draft.sealed_by(digests))),
            Err(_) => Err(NodeError::Corrupt(Record::Block)),
        },
    }
}

/// Reads what is stored under the key of a block. A block that was never
/// stored is no error.
pub fn load_block_from_storage<S: Storage, D: Digests>(storage: &S, digests: &D, hash: &BlockHash) -> (r: Result<
    Option<Block>,
    NodeError,
>)
    ensures
        match r {
            Ok(o) => read_block(digests, lookup(storage.contents(), block_key(*hash))) == Ok::<
                Option<BlockView>,
                NodeError,
            >(opt_block(o)),
            Err(e) => (e == NodeError::Read(Record::Block) && !storage.steady()) || read_block(
                digests,
                lookup(storage.contents(), block_key(*hash)),
            ) == Err::<Option<BlockView>, NodeError>(e),
        },
{
    let key = block_storage_key(hash);
    match storage.get(key.as_slice()) {
        Ok(raw) => block_from_bytes(digests, raw),
        Err(_) => Err(NodeError::Read(Record::Block)),
    }
}

/// Whatever is read from storage goes by the hash of its content: bytes that
/// were changed do not come back under the hash of the block that was stored,
/// unless the two have one digest.
pub proof fn loaded_blocks_are_genuine<D: Digests>(d: &D, raw: Option<Seq<u8>>)
    ensures
        read_block(d, raw) matches Ok(Some(b)) ==> genuine(d, b),
{
}

/// The state a replica starts from before storage is consulted: genesis and
/// the agreed certificate for it.
pub open spec fn boot_state(set: Seq<Member>, genesis: BlockView) -> StateView {
    StateView { high_qc: Some(genesis_qc_view(genesis.hash, set.len())), ..fresh_state(set, genesis) }
}

/// The state with the stored last-voted view, if there is one.
pub open spec fn with_voted(s: StateView, raw: Option<Seq<u8>>) -> Result<StateView, NodeError> {
    match raw {
        None => Ok(s),
        Some(bytes) => match take_varint(bytes) {
            Some((v, _)) => Ok(StateView { last_voted_view: v as u64, ..s }),
            None => Err(NodeError::Corrupt(Record::LastVotedView)),
        },
    }
}

/// The state with the stored lock, if there is one.
pub open spec fn with_locked(s: StateView, raw: Option<Seq<u8>>) -> Result<StateView, NodeError> {
    match raw {
        None => Ok(s),
        Some(bytes) => match parse_locked(bytes) {
            Some(l) => Ok(StateView { locked: Some(l), ..s }),
            None => Err(NodeError::Corrupt(Record::Locked)),
        },
    }
}

/// The state with the stored certificate, if there is one.
pub open spec fn with_high_qc(s: StateView, raw: Option<Seq<u8>>) -> Result<StateView, NodeError> {
    match raw {
        None => Ok(s),
        Some(bytes) => match parse_qc(bytes) {
            Some(qc) => Ok(StateView { high_qc: Some(qc), ..s }),
            None => Err(NodeError::Corrupt(Record::HighQc)),
        },
    }
}

/// The state with what is stored as the block `hash` among the pending
/// blocks, if anything is. It is filed under its own hash.
pub open spec fn with_block<D: Digests>(
    d: &D,
    s: StateView,
    m: Map<Seq<u8>, Seq<u8>>,
    hash: BlockHash,
) -> Result<StateView, NodeError> {
    match read_block(d, lookup(m, block_key(hash))) {
        Ok(Some(b)) => Ok(StateView { pending_blocks: s.pending_blocks.insert(b.hash, b), ..s }),
        Ok(None) => Ok(s),
        Err(e) => Err(e),
    }
}

/// `start`, overlaid with the stored view, lock and certificate; the blocks
/// that certificate and lock refer to are pending again, as far as they are
/// stored.
pub open spec fn overlaid<D: Digests>(d: &D, m: Map<Seq<u8>, Seq<u8>>, start: StateView) -> Result<
    StateView,
    NodeError,
> {
    match with_voted(start, lookup(m, key_bytes(STORAGE_KEY_LAST_VOTED_VIEW))) {
        Err(e) => Err(e),
        Ok(s1) => match with_locked(s1, lookup(m, key_bytes(STORAGE_KEY_LOCKED))) {
            Err(e) => Err(e),
            Ok(s2) => match with_high_qc(s2, lookup(m, key_bytes(STORAGE_KEY_HIGH_QC))) {
                Err(e) => Err(e),
                Ok(s3) => match with_block(d, s3, m, s3.high_qc->0.block_hash) {
                    Err(e) => Err(e),
                    Ok(s4) => match s4.locked {
                        None => Ok(s4),
                        Some(l) => with_block(d, s4, m, l.block_hash),
                    },
                },
            },
        },
    }
}

/// The state that a store holds of a replica that starts at genesis.
pub open spec fn recovered<D: Digests>(
    d: &D,
    m: Map<Seq<u8>, Seq<u8>>,
    set: Seq<Member>,
    genesis: BlockView,
) -> Result<StateView, NodeError> {
    overlaid(d, m, boot_state(set, genesis))
}

impl HotStuffState {
    /// Takes over the stored last-voted view.
    pub fn overlay_voted(&mut self, raw: Option<Vec<u8>>) -> (r: Result<(), NodeError>)
        requires
            old(self).wf(),
        ensures
            final(self).wf(),
            match with_voted(old(self)@, opt_bytes(raw)) {
                Ok(s) => r is Ok && final(self)@ == s,
                Err(e) => r == Err::<(), NodeError>(e) && final(self)@ == old(self)@,
            },
    {
        match raw {
            None => Ok(()),
            Some(bytes) => match decode_voted_view(bytes.as_slice()) {
                Ok(v) => {
                    self.last_voted_view = v;
                    Ok(())
                },
                Err(_) => Err(NodeError::Corrupt(Record::LastVotedView)),
            },
        }
    }

    /// Takes over the stored lock.
    pub fn overlay_locked(&mut self, raw: Option<Vec<u8>>) -> (r: Result<(), NodeError>)
        requires
            old(self).wf(),
        ensures
            final(self).wf(),
            match with_locked(old(self)@, opt_bytes(raw)) {
                Ok(s) => r is Ok && final(self)@ == s,
                Err(e) => r == Err::<(), NodeError>(e) && final(self)@ == old(self)@,
            },
    {
        match raw {
            None => Ok(()),
            Some(bytes) => match decode_locked(bytes.as_slice()) {
                Ok(l) => {
                    self.locked = Some(l);
                    Ok(())
                },
                Err(_) => Err(NodeError::Corrupt(Record::Locked)),
            },
        }
    }

    /// Takes over the stored certificate.
    pub fn overlay_high_qc(&mut self, raw: Option<Vec<u8>>) -> (r: Result<(), NodeError>)
        requires
            old(self).wf(),
        ensures
            final(self).wf(),
            match with_high_qc(old(self)@, opt_bytes(raw)) {
                Ok(s) => r is Ok && final(self)@ == s,
                Err(e) => r == Err::<(), NodeError>(e) && final(self)@ == old(self)@,
            },
    {
        match raw {
            None => Ok(()),
            Some(bytes) => match decode_high_qc(bytes.as_slice()) {
                Ok(qc) => {
                    self.high_qc = Some(qc);
                    Ok(())
                },
                Err(_) => Err(NodeError::Corrupt(Record::HighQc)),
            },
        }
    }

    fn seed_block<S: Storage, D: Digests>(&mut self, storage: &S, digests: &D, hash: &BlockHash) -> (r: Result<
        (),
        NodeError,
    >)
        requires
            old(self).wf(),
        ensures
            final(self).wf(),
            match r {
                Ok(_) => with_block(digests, old(self)@, storage.contents(), *hash) == Ok::<StateView, NodeError>(
                    final(self)@,
                ),
                Err(e) => (e == NodeError::Read(Record::Block) && !storage.steady()) || with_block(
                    digests,
                    old(self)@,
                    storage.contents(),
                    *hash,
                ) == Err::<StateView, NodeError>(e),
            },
    {
        match load_block_from_storage(storage, digests, hash) {
            Ok(Some(b)) => {
                self.insert_pending(b);
                Ok(())
            },
            Ok(None) => Ok(()),
            Err(e) => Err(e),
        }
    }
}

/// Takes over what storage holds of the safety state. `start` is what the
/// replica stands at where storage holds nothing.
pub fn overlay_state<S: Storage, D: Digests>(storage: &S, digests: &D, start: HotStuffState) -> (r: Result<
    HotStuffState,
    NodeError,
>)
    requires
        start.wf(),
        start@.high_qc is Some,
    ensures
        match r {
            Ok(s) => s.wf() && overlaid(digests, storage.contents(), start@) == Ok::<StateView, NodeError>(s@),
            Err(NodeError::Read(_)) => !storage.steady(),
            Err(e) => overlaid(digests, storage.contents(), start@) == Err::<StateView, NodeError>(e),
        },
{
    let mut state = start;
    match storage.get(STORAGE_KEY_LAST_VOTED_VIEW.as_bytes()) {
        Ok(raw) => match state.overlay_voted(raw) {
            Ok(_) => {},
            Err(e) => {
                return Err(e);
            },
        },
        Err(_) => {
            return Err(NodeError::Read(Record::LastVotedView));
        },
    }
    match storage.get(STORAGE_KEY_LOCKED.as_bytes()) {
        Ok(raw) => match state.overlay_locked(raw) {
            Ok(_) => {},
            Err(e) => {
                return Err(e);
            },
        },
        Err(_) => {
            return Err(NodeError::Read(Record::Locked));
        },
    }
    match storage.get(STORAGE_KEY_HIGH_QC.as_bytes()) {
        Ok(raw) => match state.overlay_high_qc(raw) {
            Ok(_) => {},
            Err(e) => {
                return Err(e);
            },
        },
        Err(_) => {
            return Err(NodeError::Read(Record::HighQc));
        },
    }
    let qc_hash: Option<BlockHash> = match &state.high_qc {
        Some(qc) => Some(qc.block_hash),
        None => None,
    };
    if let Some(hash) = qc_hash {
        match state.seed_block(storage, digests, &hash) {
            Ok(_) => {},
            Err(e) => {
                return Err(e);
            },
        }
    }
    if let Some(locked) = state.locked {
        match state.seed_block(storage, digests, &locked.block_hash) {
            Ok(_) => {},
            Err(e) => {
                return Err(e);
            },
        }
    }
    Ok(state)
}

/// Reads the safety state back from storage. Missing records are the normal
/// case on a first start; the replica then stands at genesis.
pub fn recover_state<S: Storage, D: Digests>(
    storage: &S,
    digests: &D,
    validator_set: ValidatorSet,
    genesis: Block,
) -> (r: Result<HotStuffState, NodeError>)
    requires
        validator_set.wf(),
    ensures
        match r {
            Ok(s) => s.wf() && recovered(digests, storage.contents(), validator_set@, genesis@) == Ok::<
                StateView,
                NodeError,
            >(s@),
            Err(NodeError::Read(_)) => !storage.steady(),
            Err(e) => recovered(digests, storage.contents(), validator_set@, genesis@) == Err::<StateView, NodeError>(e),
        },
{
    let boot_qc = genesis_qc(&genesis, validator_set.len());
    let mut state = HotStuffState::new(validator_set, genesis);
    state.high_qc = Some(boot_qc);
    assert(state@ =~= boot_state(validator_set@, genesis@));
    overlay_state(storage, digests, state)
}

} // verus!
