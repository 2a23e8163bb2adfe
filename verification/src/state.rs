//! The safety state of a replica.

use vstd::prelude::*;

use crate::bytes::same;
use crate::types::{opt_qc, Block, BlockHash, BlockView, Locked, QcView, QuorumCertificate};
use crate::validator_history::{HistoryView, ValidatorSetHistory};
use crate::validator_set::ValidatorSet;

verus! {

/// Blocks by content hash.
#[derive(Debug)]
pub struct BlockMap {
    blocks: Vec<Block>,
}

pub open spec fn blocks_view(b: Seq<Block>) -> Seq<BlockView> {
    Seq::new(b.len(), |i: int| b[i]@)
}

/// Some block of the list has content hash `h`.
pub open spec fn has_block(s: Seq<BlockView>, h: BlockHash) -> bool {
    exists|i: int| 0 <= i < s.len() && (#[trigger] s[i]).hash == h
}

/// The list as a map from content hashes.
pub open spec fn by_hash(s: Seq<BlockView>) -> Map<BlockHash, BlockView> {
    Map::new(
        |h: BlockHash| has_block(s, h),
        |h: BlockHash| s[choose|i: int| 0 <= i < s.len() && (#[trigger] s[i]).hash == h],
    )
}

pub open spec fn distinct_hashes(s: Seq<BlockView>) -> bool {
    forall|i: int, j: int| 0 <= i < j < s.len() ==> (#[trigger] s[i]).hash != (#[trigger] s[j]).hash
}

proof fn lemma_by_hash(s: Seq<BlockView>, i: int)
    requires
        distinct_hashes(s),
        0 <= i < s.len(),
    ensures
        by_hash(s).contains_key(s[i].hash),
        by_hash(s)[s[i].hash] == s[i],
{
    let h = s[i].hash;
    assert(has_block(s, h));
    let k = choose|k: int| 0 <= k < s.len() && (#[trigger] s[k]).hash == h;
    if k < i {
        assert(s[k].hash != s[i].hash);
    } else if i < k {
        assert(s[i].hash != s[k].hash);
    }
}

impl View for BlockMap {
    type V = Map<BlockHash, BlockView>;

    closed spec fn view(&self) -> Map<BlockHash, BlockView> {
        by_hash(blocks_view(self.blocks@))
    }
}

/// Every block is filed under its own hash.
pub open spec fn filed_by_hash(m: Map<BlockHash, BlockView>) -> bool {
    forall|h: BlockHash| #[trigger] m.contains_key(h) ==> m[h].hash == h
}

impl BlockMap {
    pub closed spec fn wf(&self) -> bool {
        distinct_hashes(blocks_view(self.blocks@))
    }

    pub fn new() -> (r: BlockMap)
        ensures
            r.wf(),
            r@ == Map::<BlockHash, BlockView>::empty(),
    {
        let r = BlockMap { blocks: Vec::new() };
        assert(r@ =~= Map::<BlockHash, BlockView>::empty());
        r
    }

    /// Every block is filed under its own hash.
    pub proof fn blocks_are_filed_under_their_hash(&self)
        requires
            self.wf(),
        ensures
            filed_by_hash(self@),
            self@.dom().finite(),
    {
        let s = blocks_view(self.blocks@);
        assert forall|h: BlockHash| #[trigger] self@.contains_key(h) implies self@[h].hash == h by {
            let i = choose|i: int| 0 <= i < s.len() && (#[trigger] s[i]).hash == h;
            assert(s[i].hash == h);
        }
        lemma_finite(s);
    }

    /// The block with content hash `hash`.
    pub fn get(&self, hash: &BlockHash) -> (r: Option<&Block>)
        requires
            self.wf(),
        ensures
            match r {
                Some(b) => self@.contains_key(*hash) && b@ == self@[*hash],
                None => !self@.contains_key(*hash),
            },
    {
        let ghost s = blocks_view(self.blocks@);
        let mut i: usize = 0;
        while i < self.blocks.len()
            invariant
                i <= self.blocks.len(),
                s == blocks_view(self.blocks@),
                distinct_hashes(s),
                forall|j: int| 0 <= j < i ==> (#[trigger] s[j]).hash != *hash,
            decreases self.blocks.len() - i,
        {
            assert(s[i as int] == self.blocks@[i as int]@);
            if same(&self.blocks[i].hash, hash) {
                proof {
                    lemma_by_hash(s, i as int);
                }
                return Some(&self.blocks[i]);
            }
            i = i + 1;
        }
        None
    }

    pub fn contains_key(&self, hash: &BlockHash) -> (r: bool)
        requires
            self.wf(),
        ensures
            r == self@.contains_key(*hash),
    {
        match self.get(hash) {
            Some(_) => true,
            None => false,
        }
    }

    /// Files `block` under its hash, in place of a block that is there.
    pub fn insert(&mut self, block: Block)
        requires
            old(self).wf(),
        ensures
            final(self).wf(),
            final(self)@ == old(self)@.insert(block@.hash, block@),
    {
        let ghost s = blocks_view(self.blocks@);
        let ghost b = block@;
        let mut i: usize = 0;
        while i < self.blocks.len()
            invariant
                i <= self.blocks.len(),
                self.blocks@ == old(self).blocks@,
                s == blocks_view(self.blocks@),
                distinct_hashes(s),
                b == block@,
                forall|j: int| 0 <= j < i ==> (#[trigger] s[j]).hash != b.hash,
            decreases self.blocks.len() - i,
        {
            assert(s[i as int] == self.blocks@[i as int]@);
            if same(&self.blocks[i].hash, &block.hash) {
                self.blocks.set(i, block);
                proof {
                    let t = blocks_view(self.blocks@);
                    assert(t =~= s.update(i as int, b));
                    lemma_replaced(s, i as int, b);
                }
                return;
            }
            i = i + 1;
        }
        self.blocks.push(block);
        proof {
            let t = blocks_view(self.blocks@);
            assert(t =~= s.push(b));
            lemma_appended(s, b);
        }
    }

    /// The number of blocks.
    pub fn len(&self) -> (r: usize)
        requires
            self.wf(),
        ensures
            r == self@.len(),
    {
        proof {
            lemma_size(blocks_view(self.blocks@));
        }
        self.blocks.len()
    }
}

proof fn lemma_replaced(s: Seq<BlockView>, i: int, b: BlockView)
    requires
        distinct_hashes(s),
        0 <= i < s.len(),
        s[i].hash == b.hash,
    ensures
        distinct_hashes(s.update(i, b)),
        by_hash(s.update(i, b)) == by_hash(s).insert(b.hash, b),
{
    let t = s.update(i, b);
    assert forall|x: int, y: int| 0 <= x < y < t.len() implies (#[trigger] t[x]).hash != (#[trigger] t[y]).hash by {
        assert(s[x].hash != s[y].hash);
    }
    let m = by_hash(s).insert(b.hash, b);
    assert forall|h: BlockHash| by_hash(t).contains_key(h) == m.contains_key(h) by {
        if has_block(t, h) {
            let k = choose|k: int| 0 <= k < t.len() && (#[trigger] t[k]).hash == h;
            assert(s[k].hash == h);
        }
        if has_block(s, h) {
            let k = choose|k: int| 0 <= k < s.len() && (#[trigger] s[k]).hash == h;
            assert(t[k].hash == h);
        }
        assert(t[i].hash == b.hash);
    }
    assert forall|h: BlockHash| #[trigger] by_hash(t).contains_key(h) implies by_hash(t)[h] == m[h] by {
        let k = choose|k: int| 0 <= k < t.len() && (#[trigger] t[k]).hash == h;
        lemma_by_hash(t, k);
        lemma_by_hash(s, k);
        if k != i {
            if k < i {
                assert(s[k].hash != s[i].hash);
            } else {
                assert(s[i].hash != s[k].hash);
            }
        }
    }
    assert(by_hash(t) =~= m);
}

proof fn lemma_appended(s: Seq<BlockView>, b: BlockView)
    requires
        distinct_hashes(s),
        forall|j: int| 0 <= j < s.len() ==> (#[trigger] s[j]).hash != b.hash,
    ensures
        distinct_hashes(s.push(b)),
        by_hash(s.push(b)) == by_hash(s).insert(b.hash, b),
        !by_hash(s).contains_key(b.hash),
{
    let t = s.push(b);
    assert forall|x: int, y: int| 0 <= x < y < t.len() implies (#[trigger] t[x]).hash != (#[trigger] t[y]).hash by {
        assert(t[x] == s[x]);
        if y < s.len() {
            assert(t[y] == s[y]);
        }
    }
    let m = by_hash(s).insert(b.hash, b);
    assert forall|h: BlockHash| by_hash(t).contains_key(h) == m.contains_key(h) by {
        if has_block(t, h) {
            let k = choose|k: int| 0 <= k < t.len() && (#[trigger] t[k]).hash == h;
            if k < s.len() {
                assert(s[k].hash == h);
            }
        }
        if has_block(s, h) {
            let k = choose|k: int| 0 <= k < s.len() && (#[trigger] s[k]).hash == h;
            assert(t[k].hash == h);
        }
        assert(t[s.len() as int].hash == b.hash);
    }
    assert forall|h: BlockHash| #[trigger] by_hash(t).contains_key(h) implies by_hash(t)[h] == m[h] by {
        let k = choose|k: int| 0 <= k < t.len() && (#[trigger] t[k]).hash == h;
        lemma_by_hash(t, k);
        if k < s.len() {
            assert(t[k] == s[k]);
            lemma_by_hash(s, k);
        }
    }
    assert(by_hash(t) =~= m);
}

proof fn lemma_finite(s: Seq<BlockView>)
    requires
        distinct_hashes(s),
    ensures
        by_hash(s).dom().finite(),
    decreases s.len(),
{
    lemma_size(s);
}

proof fn lemma_size(s: Seq<BlockView>)
    requires
        distinct_hashes(s),
    ensures
        by_hash(s).dom().finite(),
        by_hash(s).len() == s.len(),
    decreases s.len(),
{
    if s.len() == 0 {
        assert(by_hash(s) =~= Map::<BlockHash, BlockView>::empty());
    } else {
        let d = s.drop_last();
        let b = s.last();
        assert(s =~= d.push(b));
        assert forall|x: int, y: int| 0 <= x < y < d.len() implies (#[trigger] d[x]).hash != (#[trigger] d[y]).hash by {
            assert(d[x] == s[x] && d[y] == s[y]);
        }
        assert forall|j: int| 0 <= j < d.len() implies (#[trigger] d[j]).hash != b.hash by {
            assert(d[j] == s[j]);
            assert(s[s.len() - 1] == b);
        }
        lemma_size(d);
        lemma_appended(d, b);
    }
}

/// What a replica must remember to stay safe, and the blocks it works on.
#[derive(Debug)]
pub struct HotStuffState {
    pub current_view: u64,
    pub last_voted_view: u64,
    pub locked: Option<Locked>,
    pub high_qc: Option<QuorumCertificate>,
    pub pending_blocks: BlockMap,
    pub genesis_hash: BlockHash,
    pub validator_history: ValidatorSetHistory,
}

#[verifier::ext_equal]
pub struct StateView {
    pub current_view: u64,
    pub last_voted_view: u64,
    pub locked: Option<Locked>,
    pub high_qc: Option<QcView>,
    pub pending_blocks: Map<BlockHash, BlockView>,
    pub genesis_hash: BlockHash,
    pub validator_history: HistoryView,
}

impl View for HotStuffState {
    type V = StateView;

    open spec fn view(&self) -> StateView {
        StateView {
            current_view: self.current_view,
            last_voted_view: self.last_voted_view,
            locked: self.locked,
            high_qc: opt_qc(self.high_qc),
            pending_blocks: self.pending_blocks@,
            genesis_hash: self.genesis_hash,
            validator_history: self.validator_history@,
        }
    }
}

/// The state of a replica that has seen nothing but genesis.
pub open spec fn fresh_state(set: Seq<crate::validator_set::Member>, genesis: BlockView) -> StateView {
    StateView {
        current_view: 0,
        last_voted_view: 0,
        locked: None,
        high_qc: None,
        pending_blocks: Map::empty().insert(genesis.hash, genesis),
        genesis_hash: genesis.hash,
        validator_history: seq![(0u64, set)],
    }
}

impl HotStuffState {
    pub open spec fn wf(&self) -> bool {
        &&& self.pending_blocks.wf()
        &&& self.validator_history.wf()
    }

    /// A replica that has seen nothing but genesis.
    pub fn new(validator_set: ValidatorSet, genesis: Block) -> (r: HotStuffState)
        requires
            validator_set.wf(),
        ensures
            r.wf(),
            r@ == fresh_state(validator_set@, genesis@),
    {
        let genesis_hash = genesis.hash();
        let mut pending_blocks = BlockMap::new();
        pending_blocks.insert(genesis);
        HotStuffState {
            current_view: 0,
            last_voted_view: 0,
            locked: None,
            high_qc: None,
            pending_blocks,
            genesis_hash,
            validator_history: ValidatorSetHistory::from_genesis(validator_set),
        }
    }

    /// Files a block among the pending ones.
    pub fn insert_pending(&mut self, block: Block)
        requires
            old(self).wf(),
        ensures
            final(self).wf(),
            final(self)@ == (StateView {
                pending_blocks: old(self)@.pending_blocks.insert(block@.hash, block@),
                ..old(self)@
            }),
    {
        self.pending_blocks.insert(block);
    }
}

} // verus!
