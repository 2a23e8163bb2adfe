//! Rebuilding the committees and keys from the committed blocks, and holding
//! what was loaded against them.

use vstd::prelude::*;

use crate::bytes::{same, Bytes32};
use crate::codec::{decode_last_committed, parse_last_committed, Record};
use crate::decimal::{decimal, decimal_string};
use crate::digests::Digests;
use crate::key_history::{
    genesis_only_bls_seed, genesis_timelines, BlsKeyHistory, KeyHistory, Timelines, ValidatorKeyHistory,
};
use crate::node::consensus_node::{opt_bls, ConsensusNode, NodeView};
use crate::node::error::{joined, NodeError};
use crate::node::membership::{
    all_carry_bls, boundary_of, carries_bls, judge, keys_after, opt_bls_wf, reconfig_step, reconfigs_view,
    reconfigs_wf, rotation_step, rotations_view, Keys, ReconfigInput, ReconfigView, RotationInput, RotationView,
};
use crate::node::recovery::{load_block_from_storage, read_block};
use crate::state::blocks_view;
use crate::storage::{block_key, key_bytes, lookup, Storage, STORAGE_KEY_LAST_COMMITTED};
use crate::trusted::{hex_encode, hex_string};
use crate::types::{Block, BlockHash, BlockView, LastCommitted, SignatureSchemeChoice};
use crate::validator_history::{HistoryView, ValidatorSetHistory};

verus! {

/// The committees and keys that the committed blocks lead to.
#[derive(Debug)]
pub struct Histories {
    pub committees: ValidatorSetHistory,
    pub keys: ValidatorKeyHistory,
    pub bls: Option<BlsKeyHistory>,
}

#[verifier::ext_equal]
pub struct HistoriesView {
    pub committees: HistoryView,
    pub signing: Timelines<32>,
    pub bls: Option<Timelines<48>>,
}

impl View for Histories {
    type V = HistoriesView;

    open spec fn view(&self) -> HistoriesView {
        HistoriesView { committees: self.committees@, signing: self.keys@, bls: opt_bls(self.bls) }
    }
}

/// What one command does to committees and keys. The members of a new
/// committee that were not known join with the keys that their identities
/// keep.
pub open spec fn reconfig_both(h: HistoriesView, block_view: u64, min_delay: u64, input: ReconfigView) -> HistoriesView {
    if judge(h.committees, block_view, min_delay, input) is Applied {
        let b = boundary_of(input);
        HistoriesView { committees: h.committees.push(b), signing: crate::key_history::joined(h.signing, b.1, b.0), ..h }
    } else {
        h
    }
}

/// What the commands of a block do to committees and keys, as far as they
/// are committee changes.
pub open spec fn reconfig_all(h: HistoriesView, block_view: u64, min_delay: u64, inputs: Seq<ReconfigView>) ->
    HistoriesView
    decreases inputs.len(),
{
    if inputs.len() == 0 {
        h
    } else {
        reconfig_both(reconfig_all(h, block_view, min_delay, inputs.drop_last()), block_view, min_delay, inputs.last())
    }
}

/// What the commands of a block do to the keys, as far as they are
/// rotations.
pub open spec fn rotate_all(k: Keys, scheme: SignatureSchemeChoice, block_view: u64, inputs: Seq<RotationView>) -> Keys
    decreases inputs.len(),
{
    if inputs.len() == 0 {
        k
    } else {
        keys_after(rotate_all(k, scheme, block_view, inputs.drop_last()), scheme, block_view, inputs.last())
    }
}

/// The histories after a block: committee changes first, then rotations.
pub open spec fn after_block(
    h: HistoriesView,
    scheme: SignatureSchemeChoice,
    min_delay: u64,
    block_view: u64,
    reconfigs: Seq<ReconfigView>,
    rotations: Seq<RotationView>,
) -> HistoriesView {
    let g = reconfig_all(h, block_view, min_delay, reconfigs);
    let k = rotate_all(Keys { signing: g.signing, bls: g.bls }, scheme, block_view, rotations);
    HistoriesView { committees: g.committees, signing: k.signing, bls: k.bls }
}

/// Where the rebuild starts: the loaded genesis committee as it is, its
/// members with their own keys, and the loaded BLS keys at genesis.
pub open spec fn seed(loaded: HistoriesView) -> HistoriesView {
    let set = loaded.committees[0].1;
    HistoriesView {
        committees: seq![(0u64, set)],
        signing: crate::key_history::joined(seq![], set, 0),
        bls: match loaded.bls {
            Some(h) => Some(genesis_timelines(h)),
            None => None,
        },
    }
}

impl Histories {
    pub open spec fn wf(&self) -> bool {
        &&& self.committees.wf()
        &&& self.keys.wf()
        &&& opt_bls_wf(self.bls)
    }

    /// Applies what a block carries: committee changes first, so that a
    /// rotation in the same block finds the validators that joined.
    pub fn apply_block(
        &mut self,
        scheme: SignatureSchemeChoice,
        min_delay: u64,
        block_view: u64,
        reconfigs: &Vec<ReconfigInput>,
        rotations: &Vec<RotationInput>,
    )
        requires
            old(self).wf(),
            reconfigs_wf(reconfigs@),
            scheme == SignatureSchemeChoice::BlsAggregated ==> old(self).bls is Some,
            all_carry_bls(rotations_view(rotations@), scheme),
        ensures
            final(self).wf(),
            final(self).bls is Some <==> old(self).bls is Some,
            final(self)@ == after_block(
                old(self)@,
                scheme,
                min_delay,
                block_view,
                reconfigs_view(reconfigs@),
                rotations_view(rotations@),
            ),
    {
        let ghost h = self@;
        let ghost rc = reconfigs_view(reconfigs@);
        let ghost rt = rotations_view(rotations@);
        let mut i: usize = 0;
        assert(rc.take(0) =~= seq![]);
        while i < reconfigs.len()
            invariant
                i <= reconfigs.len(),
                rc == reconfigs_view(reconfigs@),
                reconfigs_wf(reconfigs@),
                self.wf(),
                self.bls is Some <==> h.bls is Some,
                self@ == reconfig_all(h, block_view, min_delay, rc.take(i as int)),
            decreases reconfigs.len() - i,
        {
            proof {
                assert(rc.take(i + 1).drop_last() =~= rc.take(i as int));
                assert(rc.take(i + 1).last() == reconfigs@[i as int]@);
                assert(reconfigs@[i as int].wf());
            }
            let (_, set) = reconfig_step(&mut self.committees, block_view, min_delay, &reconfigs[i]);
            if let Some(set) = set {
                if let ReconfigInput::Candidate { v_eff, .. } = &reconfigs[i] {
                    self.keys.mirror(&set, *v_eff);
                }
            }
            i = i + 1;
        }
        assert(rc.take(i as int) =~= rc);
        let ghost g = self@;
        let mut k: usize = 0;
        assert(rt.take(0) =~= seq![]);
        while k < rotations.len()
            invariant
                k <= rotations.len(),
                rt == rotations_view(rotations@),
                all_carry_bls(rt, scheme),
                self.wf(),
                self.bls is Some <==> h.bls is Some,
                scheme == SignatureSchemeChoice::BlsAggregated ==> self.bls is Some,
                self@.committees == g.committees,
                ({
                    let now = rotate_all(
                        Keys { signing: g.signing, bls: g.bls },
                        scheme,
                        block_view,
                        rt.take(k as int),
                    );
                    self@.signing == now.signing && self@.bls == now.bls
                }),
            decreases rotations.len() - k,
        {
            proof {
                assert(rt.take(k + 1).drop_last() =~= rt.take(k as int));
                assert(rt.take(k + 1).last() == rotations@[k as int]@);
                assert(carries_bls(rt[k as int], scheme));
            }
            let _ = rotation_step(&mut self.keys, &mut self.bls, scheme, block_view, &rotations[k]);
            k = k + 1;
        }
        assert(rt.take(k as int) =~= rt);
    }

    /// Where the rebuild starts, from what was loaded.
    pub fn seed_from(committees: &ValidatorSetHistory, bls: &Option<BlsKeyHistory>) -> (r: Histories)
        requires
            committees.wf(),
            opt_bls_wf(*bls),
        ensures
            r.wf(),
            r.bls is Some <==> bls is Some,
            forall|keys: Timelines<32>| #[trigger]
                seed(HistoriesView { committees: committees@, signing: keys, bls: opt_bls(*bls) }) == r@,
    {
        let set = committees.set_of(0).copy();
        let keys = KeyHistory::<32>::new(&set);
        let bls = match bls {
            Some(h) => Some(genesis_only_bls_seed(h)),
            None => None,
        };
        Histories { committees: ValidatorSetHistory::from_genesis(set), keys, bls }
    }
}

impl ConsensusNode {
    /// The committees and keys that this node would have after a block that
    /// is not committed yet. A proposal commits to them, so that whoever
    /// receives it can tell, wherever its own commits stand.
    pub fn post_block_histories(
        &self,
        block_view: u64,
        reconfigs: &Vec<ReconfigInput>,
        rotations: &Vec<RotationInput>,
    ) -> (r: Histories)
        requires
            self.wf(),
            reconfigs_wf(reconfigs@),
            self.signature_scheme == SignatureSchemeChoice::BlsAggregated ==> self.bls_key_history is Some,
            all_carry_bls(rotations_view(rotations@), self.signature_scheme),
        ensures
            r.wf(),
            r@ == after_block(
                (HistoriesView { committees: self@.validator_history, signing: self@.keys, bls: self@.bls }),
                self@.signature_scheme,
                self@.min_v_eff_delay,
                block_view,
                reconfigs_view(reconfigs@),
                rotations_view(rotations@),
            ),
    {
        let mut h = Histories {
            committees: self.validator_history.copy(),
            keys: self.validator_key_history.copy(),
            bls: match &self.bls_key_history {
                Some(b) => Some(b.copy()),
                None => None,
            },
        };
        h.apply_block(self.signature_scheme, self.min_v_eff_delay, block_view, reconfigs, rotations);
        h
    }
}

// ---- the committed chain -------------------------------------------------

/// Why the loaded histories are not believed.
#[derive(Clone, Copy, Debug, PartialEq, Eq)]
pub enum HistoryError {
    /// The store could not be read, or what it holds cannot.
    Storage(NodeError),
    /// The genesis block is nowhere to be found.
    MissingGenesis(BlockHash),
    /// A committed block is not in the store.
    MissingBlock(BlockHash),
    /// The stored chain starts from another genesis block.
    ForeignGenesis { walked: BlockHash, configured: BlockHash },
    /// A block commits to other histories than the chain leads to.
    CommitmentMismatch { height: u64, view: u64, hash: BlockHash, claimed: Bytes32, actual: Bytes32 },
    /// The loaded committees are not those that the chain leads to.
    Committees,
    /// The loaded signing keys are not those that the chain leads to.
    SigningKeys,
    /// The loaded BLS keys are not those that the chain leads to.
    BlsKeys,
    /// The stored chain does not come to an end.
    Endless,
    /// There are not as many blocks as there is evidence for.
    Incomplete,
}

impl HistoryError {
    /// The text of the error.
    pub open spec fn text(self) -> Seq<char> {
        match self {
            HistoryError::Storage(e) => e.text(),
            HistoryError::MissingGenesis(h) => "validator history rebuild: genesis block missing from pending_blocks and storage: "@
                + hex_string(h@),
            HistoryError::MissingBlock(h) => "validator history rebuild: storage missing committed block: "@ + hex_string(
                h@,
            ),
            HistoryError::ForeignGenesis { walked, configured } =>
                "validator history rebuild: walked-chain genesis hash "@ + hex_string(walked@)
                + " does not match configured genesis hash "@ + hex_string(configured@),
            HistoryError::CommitmentMismatch { height, view, hash, claimed, actual } =>
                "validator_history_commitment mismatch at block height="@ + decimal(height as nat) + " view="@
                + decimal(view as nat) + " hash="@ + hex_string(hash@) + ": block claims "@ + hex_string(claimed@)
                + " but rebuild from chain produces "@ + hex_string(actual@),
            HistoryError::Committees =>
                "validator_history_rebuild_mismatch: loaded validator_history does not match rebuild from chain"@,
            HistoryError::SigningKeys =>
                "validator_key_history_rebuild_mismatch: loaded validator_key_history does not match rebuild from chain"@,
            HistoryError::BlsKeys =>
                "bls_key_history_rebuild_mismatch: loaded bls_key_history does not match rebuild from chain"@,
            HistoryError::Endless => "validator history rebuild: the stored chain does not come to an end"@,
            HistoryError::Incomplete => "validator history rebuild: evidence does not cover the stored chain"@,
        }
    }

    /// What the operator gets to read.
    pub fn message(&self) -> (r: String)
        ensures
            r@ == self.text(),
    {
        match self {
            HistoryError::Storage(e) => e.message(),
            HistoryError::MissingGenesis(h) => joined(
                "validator history rebuild: genesis block missing from pending_blocks and storage: ",
                hex_encode(h.as_slice()).as_str(),
            ),
            HistoryError::MissingBlock(h) => joined(
                "validator history rebuild: storage missing committed block: ",
                hex_encode(h.as_slice()).as_str(),
            ),
            HistoryError::ForeignGenesis { walked, configured } => {
                let mut s = joined(
                    "validator history rebuild: walked-chain genesis hash ",
                    hex_encode(walked.as_slice()).as_str(),
                );
                s.append(" does not match configured genesis hash ");
                s.append(hex_encode(configured.as_slice()).as_str());
                s
            },
            HistoryError::CommitmentMismatch { height, view, hash, claimed, actual } => {
                let mut s = joined(
                    "validator_history_commitment mismatch at block height=",
                    decimal_string(*height).as_str(),
                );
                s.append(" view=");
                s.append(decimal_string(*view).as_str());
                s.append(" hash=");
                s.append(hex_encode(hash.as_slice()).as_str());
                s.append(": block claims ");
                s.append(hex_encode(claimed.as_slice()).as_str());
                s.append(" but rebuild from chain produces ");
                s.append(hex_encode(actual.as_slice()).as_str());
                s
            },
            HistoryError::Committees => String::from_str(
                "validator_history_rebuild_mismatch: loaded validator_history does not match rebuild from chain",
            ),
            HistoryError::SigningKeys => String::from_str(
                "validator_key_history_rebuild_mismatch: loaded validator_key_history does not match rebuild from chain",
            ),
            HistoryError::BlsKeys => String::from_str(
                "bls_key_history_rebuild_mismatch: loaded bls_key_history does not match rebuild from chain",
            ),
            HistoryError::Endless => String::from_str(
                "validator history rebuild: the stored chain does not come to an end",
            ),
            HistoryError::Incomplete => String::from_str(
                "validator history rebuild: evidence does not cover the stored chain",
            ),
        }
    }
}

/// The block with hash `cursor`. The configured genesis block is taken from
/// memory if it is there.
pub open spec fn fetched<D: Digests>(
    d: &D,
    m: Map<Seq<u8>, Seq<u8>>,
    n: NodeView,
    cursor: BlockHash,
) -> Result<BlockView, HistoryError> {
    if cursor == n.state.genesis_hash && n.state.pending_blocks.contains_key(cursor) {
        Ok(n.state.pending_blocks[cursor])
    } else {
        match read_block(d, lookup(m, block_key(cursor))) {
            Err(e) => Err(HistoryError::Storage(e)),
            Ok(Some(b)) => Ok(b),
            Ok(None) => if cursor == n.state.genesis_hash {
                Err(HistoryError::MissingGenesis(cursor))
            } else {
                Err(HistoryError::MissingBlock(cursor))
            },
        }
    }
}

/// The chain that ends with `cursor`, from the block at height zero on, if
/// `fuel` links are enough to get there.
pub open spec fn chain_to<D: Digests>(
    d: &D,
    m: Map<Seq<u8>, Seq<u8>>,
    n: NodeView,
    cursor: BlockHash,
    fuel: nat,
) -> Option<Result<Seq<BlockView>, HistoryError>>
    decreases fuel,
{
    if fuel == 0 {
        None
    } else {
        match fetched(d, m, n, cursor) {
            Err(e) => Some(Err(e)),
            Ok(b) => if b.header.height == 0 {
                Some(Ok(seq![b]))
            } else {
                match chain_to(d, m, n, b.header.parent_hash, (fuel - 1) as nat) {
                    None => None,
                    Some(Err(e)) => Some(Err(e)),
                    Some(Ok(rest)) => Some(Ok(rest.push(b))),
                }
            },
        }
    }
}

/// The chain that ends with `cursor`, unless it is longer than any list can
/// be.
pub open spec fn chain_of<D: Digests>(d: &D, m: Map<Seq<u8>, Seq<u8>>, n: NodeView, cursor: BlockHash) -> Result<
    Seq<BlockView>,
    HistoryError,
> {
    match chain_to(d, m, n, cursor, usize::MAX as nat) {
        Some(r) => r,
        None => Err(HistoryError::Endless),
    }
}

/// The checkpoint in the store, if something has been committed.
pub open spec fn tip(m: Map<Seq<u8>, Seq<u8>>) -> Result<Option<BlockHash>, HistoryError> {
    match lookup(m, key_bytes(STORAGE_KEY_LAST_COMMITTED)) {
        None => Ok(None),
        Some(bytes) => match parse_last_committed(bytes) {
            None => Err(HistoryError::Storage(NodeError::Corrupt(Record::LastCommitted))),
            Some(l) => if l.height == 0 {
                Ok(None)
            } else {
                Ok(Some(l.last_committed_hash))
            },
        },
    }
}

/// The committed chain in the store, from genesis on; none where nothing was
/// committed.
pub open spec fn committed<D: Digests>(d: &D, m: Map<Seq<u8>, Seq<u8>>, n: NodeView) -> Result<
    Option<Seq<BlockView>>,
    HistoryError,
> {
    match tip(m) {
        Err(e) => Err(e),
        Ok(None) => Ok(None),
        Ok(Some(h)) => match chain_of(d, m, n, h) {
            Err(e) => Err(e),
            Ok(chain) => if chain[0].hash == n.state.genesis_hash {
                Ok(Some(chain))
            } else {
                Err(
                    HistoryError::ForeignGenesis { walked: chain[0].hash, configured: n.state.genesis_hash },
                )
            },
        },
    }
}

/// Along parent links in the store, heights fall.
pub open spec fn stored_heights_fall<D: Digests>(d: &D, m: Map<Seq<u8>, Seq<u8>>, n: NodeView) -> bool {
    forall|h: BlockHash|
        {
            let b = #[trigger] fetched(d, m, n, h);
            b is Ok && b->Ok_0.header.height > 0 ==> {
                let p = fetched(d, m, n, b->Ok_0.header.parent_hash);
                p is Ok ==> p->Ok_0.header.height < b->Ok_0.header.height
            }
        }
}

proof fn lemma_fall_ends<D: Digests>(d: &D, m: Map<Seq<u8>, Seq<u8>>, n: NodeView, cursor: BlockHash, fuel: nat)
    requires
        stored_heights_fall(d, m, n),
        fetched(d, m, n, cursor) matches Ok(b) ==> b.header.height < fuel,
        fuel > 0,
    ensures
        chain_to(d, m, n, cursor, fuel) is Some,
    decreases fuel,
{
    match fetched(d, m, n, cursor) {
        Ok(b) => {
            if b.header.height != 0 {
                lemma_fall_ends(d, m, n, b.header.parent_hash, (fuel - 1) as nat);
            }
        },
        Err(_) => {},
    }
}

/// Where heights fall along parent links, every walk comes to an end.
pub proof fn falling_heights_end_the_chain<D: Digests>(
    d: &D,
    m: Map<Seq<u8>, Seq<u8>>,
    n: NodeView,
    cursor: BlockHash,
)
    requires
        stored_heights_fall(d, m, n),
        fetched(d, m, n, cursor) matches Ok(b) ==> b.header.height < usize::MAX,
    ensures
        chain_of(d, m, n, cursor) == chain_to(d, m, n, cursor, usize::MAX as nat)->0,
        chain_to(d, m, n, cursor, usize::MAX as nat) is Some,
{
    lemma_fall_ends(d, m, n, cursor, usize::MAX as nat);
}

/// The blocks from the end of a list to its front.
fn reversed(v: Vec<Block>) -> (r: Vec<Block>)
    ensures
        blocks_view(r@) == blocks_view(v@).reverse(),
{
    let ghost all = blocks_view(v@);
    let mut v = v;
    let mut out: Vec<Block> = Vec::new();
    while v.len() > 0
        invariant
            v@.len() + out@.len() == all.len(),
            blocks_view(v@) =~= all.take(v@.len() as int),
            blocks_view(out@) =~= all.skip(v@.len() as int).reverse(),
        decreases v.len(),
    {
        let ghost seen = blocks_view(v@);
        let ghost done = blocks_view(out@);
        let n = v.len();
        let b = v.remove(n - 1);
        let ghost bv = b@;
        out.push(b);
        proof {
            assert(seen[n - 1] == bv);
            assert(seen[n - 1] == all[n - 1]);
            assert forall|i: int| 0 <= i < v@.len() implies blocks_view(v@)[i] == seen[i] by {}
            assert(blocks_view(out@) =~= done.push(bv));
            let now = all.skip(n - 1).reverse();
            let before = all.skip(n as int).reverse();
            assert(now =~= before.push(all[n - 1]));
        }
    }
    assert(all.skip(0) =~= all);
    out
}

impl ConsensusNode {
    /// The block with hash `cursor`.
    fn fetch<S: Storage, D: Digests>(&self, storage: &S, digests: &D, cursor: &BlockHash) -> (r: Result<
        Block,
        HistoryError,
    >)
        requires
            self.wf(),
        ensures
            match r {
                Ok(b) => fetched(digests, storage.contents(), self@, *cursor) == Ok::<BlockView, HistoryError>(b@),
                Err(HistoryError::Storage(NodeError::Read(_))) => !storage.steady(),
                Err(e) => fetched(digests, storage.contents(), self@, *cursor) == Err::<BlockView, HistoryError>(e),
            },
    {
        let is_genesis = same(cursor, &self.state.genesis_hash);
        if is_genesis {
            if let Some(b) = self.state.pending_blocks.get(cursor) {
                return Ok(b.copy());
            }
        }
        match load_block_from_storage(storage, digests, cursor) {
            Ok(Some(b)) => Ok(b),
            Ok(None) => if is_genesis {
                Err(HistoryError::MissingGenesis(*cursor))
            } else {
                Err(HistoryError::MissingBlock(*cursor))
            },
            Err(e) => Err(HistoryError::Storage(e)),
        }
    }

    /// The committed chain in the store, from genesis on; none where nothing
    /// was committed. A chain that starts from another genesis block is not
    /// this node's.
    pub fn committed_chain<S: Storage, D: Digests>(&self, storage: &S, digests: &D) -> (r: Result<
        Option<Vec<Block>>,
        HistoryError,
    >)
        requires
            self.wf(),
        ensures
            match r {
                Ok(Some(chain)) => committed(digests, storage.contents(), self@) == Ok::<
                    Option<Seq<BlockView>>,
                    HistoryError,
                >(Some(blocks_view(chain@))),
                Ok(None) => committed(digests, storage.contents(), self@) == Ok::<Option<Seq<BlockView>>, HistoryError>(None),
                Err(HistoryError::Storage(NodeError::Read(_))) => !storage.steady(),
                Err(e) => committed(digests, storage.contents(), self@) == Err::<Option<Seq<BlockView>>, HistoryError>(e),
            },
    {
        let ghost d = digests;
        let ghost m = storage.contents();
        let ghost n = self@;
        let start = match storage.get(STORAGE_KEY_LAST_COMMITTED.as_bytes()) {
            Err(_) => {
                return Err(HistoryError::Storage(NodeError::Read(Record::LastCommitted)));
            },
            Ok(None) => {
                return Ok(None);
            },
            Ok(Some(raw)) => match decode_last_committed(raw.as_slice()) {
                Ok(l) => {
                    if l.height == 0 {
                        return Ok(None);
                    }
                    l.last_committed_hash
                },
                Err(_) => {
                    return Err(HistoryError::Storage(NodeError::Corrupt(Record::LastCommitted)));
                },
            },
        };
        let mut left: usize = usize::MAX;
        let mut cursor = start;
        let mut back: Vec<Block> = Vec::new();
        let mut at_genesis = false;
        assert(blocks_view(back@) =~= seq![]);
        proof {
            if let Some(Ok(rest)) = chain_to(d, m, n, start, usize::MAX as nat) {
                assert(rest + blocks_view(back@).reverse() =~= rest);
            }
        }
        while !at_genesis
            invariant
                self.wf(),
                d == digests,
                m == storage.contents(),
                n == self@,
                !at_genesis ==> match chain_to(d, m, n, cursor, left as nat) {
                    Some(Ok(rest)) => chain_of(d, m, n, start) == Ok::<Seq<BlockView>, HistoryError>(
                        rest + blocks_view(back@).reverse(),
                    ),
                    Some(Err(e)) => chain_of(d, m, n, start) == Err::<Seq<BlockView>, HistoryError>(e),
                    None => chain_of(d, m, n, start) == Err::<Seq<BlockView>, HistoryError>(HistoryError::Endless),
                },
                at_genesis ==> chain_of(d, m, n, start) == Ok::<Seq<BlockView>, HistoryError>(
                    blocks_view(back@).reverse(),
                ),
                at_genesis ==> back@.len() > 0,
                tip(m) == Ok::<Option<BlockHash>, HistoryError>(Some(start)),
            decreases left + (if at_genesis {
                0int
            } else {
                1int
            }),
        {
            if left == 0 {
                return Err(HistoryError::Endless);
            }
            let block = match self.fetch(storage, digests, &cursor) {
                Ok(b) => b,
                Err(e) => {
                    return Err(e);
                },
            };
            let ghost seen = blocks_view(back@);
            let ghost bv = block@;
            let parent = block.header.parent_hash;
            let height: u64 = block.header.height;
            back.push(block);
            proof {
                assert(blocks_view(back@) =~= seen.push(bv));
                assert(seen.push(bv).reverse() =~= seq![bv] + seen.reverse());
            }
            if height == 0 {
                at_genesis = true;
            } else {
                proof {
                    let rest = chain_to(d, m, n, parent, (left - 1) as nat);
                    if let Some(Ok(r)) = rest {
                        assert(r.push(bv) + seen.reverse() =~= r + (seq![bv] + seen.reverse()));
                    }
                }
                cursor = parent;
            }
            left = left - 1;
        }
        let chain = reversed(back);
        proof {
            assert(chain@.len() == blocks_view(chain@).len());
            assert(blocks_view(chain@)[0] == chain@[0]@);
        }
        if !same(&chain[0].hash, &self.state.genesis_hash) {
            return Err(
                HistoryError::ForeignGenesis { walked: chain[0].hash, configured: self.state.genesis_hash },
            );
        }
        Ok(Some(chain))
    }
}

} // verus!
