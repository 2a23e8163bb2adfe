//! The plain data of the protocol: blocks, certificates, locks and votes.

use vstd::prelude::*;

use crate::bytes::{copy_bytes, copy_payloads, payloads, Bytes32};
use crate::validator_set::NodeId;

verus! {

/// The content hash of a block.
pub type BlockHash = Bytes32;

/// What a block says about itself besides its commands.
#[derive(Clone, Copy, Debug, PartialEq, Eq)]
pub struct BlockHeader {
    pub parent_hash: BlockHash,
    pub height: u64,
    pub view: u64,
    pub proposer: NodeId,
    pub state_commitment: Bytes32,
    pub commands_commitment: Bytes32,
    pub validator_history_commitment: Bytes32,
}

/// A block: its header, its commands, and the content hash that peers and
/// storage know it by. The hash is computed where a block is made, received
/// or read from the store, and travels with it.
#[derive(Debug, PartialEq, Eq)]
pub struct Block {
    pub header: BlockHeader,
    pub commands: Vec<Vec<u8>>,
    pub hash: BlockHash,
}

#[verifier::ext_equal]
pub struct BlockView {
    pub header: BlockHeader,
    pub commands: Seq<Seq<u8>>,
    pub hash: BlockHash,
}

impl View for Block {
    type V = BlockView;

    open spec fn view(&self) -> BlockView {
        BlockView { header: self.header, commands: payloads(self.commands@), hash: self.hash }
    }
}

impl Block {
    /// The first block of a chain: height and view zero, no parent, no
    /// commands.
    pub fn genesis(state_commitment: Bytes32, validator_history_commitment: Bytes32, hash: BlockHash) -> (r: Block)
        ensures
            r@.header.height == 0,
            r@.header.view == 0,
            blank(r@.header.parent_hash),
            blank(r@.header.proposer),
            blank(r@.header.commands_commitment),
            r@.header.state_commitment == state_commitment,
            r@.header.validator_history_commitment == validator_history_commitment,
            r@.commands == Seq::<Seq<u8>>::empty(),
            r@.hash == hash,
    {
        let r = Block {
            header: BlockHeader {
                parent_hash: [0u8; 32],
                height: 0,
                view: 0,
                proposer: [0u8; 32],
                state_commitment,
                commands_commitment: [0u8; 32],
                validator_history_commitment,
            },
            commands: Vec::new(),
            hash,
        };
        assert(r@.commands =~= Seq::<Seq<u8>>::empty());
        r
    }

    /// The content hash.
    pub fn hash(&self) -> (r: BlockHash)
        ensures
            r == self@.hash,
    {
        self.hash
    }

    pub fn copy(&self) -> (r: Block)
        ensures
            r@ == self@,
    {
        Block { header: self.header, commands: copy_payloads(&self.commands), hash: self.hash }
    }
}

impl Clone for Block {
    fn clone(&self) -> (r: Self)
        ensures
            r@ == self@,
    {
        self.copy()
    }
}

/// A block whose content hash has not been computed yet.
#[derive(Debug, PartialEq, Eq)]
pub struct BlockDraft {
    pub header: BlockHeader,
    pub commands: Vec<Vec<u8>>,
}

#[verifier::ext_equal]
pub struct DraftView {
    pub header: BlockHeader,
    pub commands: Seq<Seq<u8>>,
}

impl BlockView {
    /// Everything but the hash.
    pub open spec fn content(self) -> DraftView {
        DraftView { header: self.header, commands: self.commands }
    }
}

impl View for BlockDraft {
    type V = DraftView;

    open spec fn view(&self) -> DraftView {
        DraftView { header: self.header, commands: payloads(self.commands@) }
    }
}

impl BlockDraft {
    /// The block, now that its content hash is known.
    pub fn seal(self, hash: BlockHash) -> (r: Block)
        ensures
            r@ == (BlockView { header: self.header, commands: payloads(self.commands@), hash }),
    {
        Block { header: self.header, commands: self.commands, hash }
    }
}

/// All 32 bytes are zero.
pub open spec fn blank(b: Bytes32) -> bool {
    forall|i: int| 0 <= i < 32 ==> #[trigger] b@[i] == 0
}

/// Proof that a quorum voted for a block at a view: who signed, by committee
/// position, and the signature bytes as the chain's scheme lays them out.
#[derive(Debug, PartialEq, Eq)]
pub struct QuorumCertificate {
    pub view: u64,
    pub block_hash: BlockHash,
    pub signers: Vec<bool>,
    pub signatures: Vec<u8>,
}

#[verifier::ext_equal]
pub struct QcView {
    pub view: u64,
    pub block_hash: BlockHash,
    pub signers: Seq<bool>,
    pub signatures: Seq<u8>,
}

impl View for QuorumCertificate {
    type V = QcView;

    open spec fn view(&self) -> QcView {
        QcView {
            view: self.view,
            block_hash: self.block_hash,
            signers: self.signers@,
            signatures: self.signatures@,
        }
    }
}

/// How many entries are set.
pub open spec fn set_count(s: Seq<bool>) -> nat
    decreases s.len(),
{
    if s.len() == 0 {
        0
    } else {
        set_count(s.drop_last()) + (if s.last() {
            1nat
        } else {
            0nat
        })
    }
}

impl QuorumCertificate {
    /// A certificate that nobody has signed yet, for a committee of `n`.
    pub fn new(view: u64, block_hash: BlockHash, n: usize) -> (r: QuorumCertificate)
        ensures
            r@ == unsigned_qc(view, block_hash, n as nat),
    {
        let mut signers: Vec<bool> = Vec::new();
        let mut i: usize = 0;
        while i < n
            invariant
                i <= n,
                signers@ =~= Seq::new(i as nat, |k: int| false),
            decreases n - i,
        {
            signers.push(false);
            i = i + 1;
        }
        QuorumCertificate { view, block_hash, signers, signatures: Vec::new() }
    }

    /// Adds the signature of the validator at position `i`.
    pub fn add_signature(&mut self, i: usize, signature: [u8; 64])
        requires
            i < old(self)@.signers.len(),
        ensures
            final(self)@ == (QcView {
                signers: old(self)@.signers.update(i as int, true),
                signatures: old(self)@.signatures + signature@,
                ..old(self)@
            }),
    {
        self.signers.set(i, true);
        let mut k: usize = 0;
        let ghost before = self.signatures@;
        while k < 64
            invariant
                k <= 64,
                self.signatures@ == before + signature@.take(k as int),
                self.signers@ == old(self).signers@.update(i as int, true),
                self.view == old(self).view,
                self.block_hash == old(self).block_hash,
            decreases 64 - k,
        {
            self.signatures.push(signature[k]);
            k = k + 1;
            assert(self.signatures@ =~= before + signature@.take(k as int));
        }
        assert(signature@.take(64) =~= signature@);
    }

    /// How many validators signed.
    pub fn signer_count(&self) -> (r: usize)
        ensures
            r == set_count(self@.signers),
    {
        let mut count: usize = 0;
        let mut i: usize = 0;
        while i < self.signers.len()
            invariant
                i <= self.signers.len(),
                count <= i,
                count == set_count(self.signers@.take(i as int)),
            decreases self.signers.len() - i,
        {
            proof {
                assert(self.signers@.take(i + 1).drop_last() =~= self.signers@.take(i as int));
                assert(self.signers@.take(i + 1).last() == self.signers@[i as int]);
            }
            if self.signers[i] {
                count = count + 1;
            }
            i = i + 1;
        }
        assert(self.signers@.take(i as int) =~= self.signers@);
        count
    }

    pub fn copy(&self) -> (r: QuorumCertificate)
        ensures
            r@ == self@,
    {
        QuorumCertificate {
            view: self.view,
            block_hash: self.block_hash,
            signers: copy_bools(&self.signers),
            signatures: copy_bytes(self.signatures.as_slice()),
        }
    }
}

impl Clone for QuorumCertificate {
    fn clone(&self) -> (r: Self)
        ensures
            r@ == self@,
    {
        self.copy()
    }
}

fn copy_bools(v: &Vec<bool>) -> (r: Vec<bool>)
    ensures
        r@ == v@,
{
    let mut out: Vec<bool> = Vec::new();
    let mut i: usize = 0;
    while i < v.len()
        invariant
            i <= v.len(),
            out@ =~= v@.take(i as int),
        decreases v.len() - i,
    {
        out.push(v[i]);
        i = i + 1;
    }
    assert(v@.take(v@.len() as int) =~= v@);
    out
}

pub open spec fn unsigned_qc(view: u64, block_hash: BlockHash, n: nat) -> QcView {
    QcView { view, block_hash, signers: Seq::new(n, |k: int| false), signatures: seq![] }
}

/// The certificate for genesis that every replica of an Ed25519 chain starts
/// from: every position carries an all-zero placeholder signature.
pub open spec fn genesis_qc_view(hash: BlockHash, n: nat) -> QcView {
    QcView {
        view: 0,
        block_hash: hash,
        signers: Seq::new(n, |k: int| true),
        signatures: Seq::new(64 * n, |k: int| 0u8),
    }
}

/// The genesis certificate of a chain that collects Ed25519 signatures.
pub fn genesis_qc(genesis: &Block, n: usize) -> (r: QuorumCertificate)
    ensures
        r@ == genesis_qc_view(genesis@.hash, n as nat),
{
    let mut qc = QuorumCertificate::new(0, genesis.hash(), n);
    let mut i: usize = 0;
    while i < n
        invariant
            i <= n,
            qc.view == 0,
            qc.block_hash == genesis@.hash,
            qc.signers@ =~= Seq::new(n as nat, |k: int| k < i),
            qc.signatures@ =~= Seq::new(64 * (i as nat), |k: int| 0u8),
        decreases n - i,
    {
        let placeholder: [u8; 64] = [0u8; 64];
        qc.add_signature(i, placeholder);
        i = i + 1;
    }
    assert(qc@ =~= genesis_qc_view(genesis@.hash, n as nat));
    qc
}

/// The genesis certificate of a chain that aggregates BLS signatures: no
/// signers and an empty aggregate.
pub fn genesis_qc_bls(genesis: &Block, n: usize) -> (r: QuorumCertificate)
    ensures
        r@ == unsigned_qc(0, genesis@.hash, n as nat),
{
    QuorumCertificate::new(0, genesis.hash(), n)
}

/// The block a replica is locked on.
#[derive(Clone, Copy, Debug, PartialEq, Eq)]
pub struct Locked {
    pub view: u64,
    pub height: u64,
    pub block_hash: BlockHash,
}

/// The most recently committed block: its height, view and content hash.
/// Before the first commit all three are zero.
#[derive(Clone, Copy, Debug, PartialEq, Eq)]
pub struct LastCommitted {
    pub height: u64,
    pub view: u64,
    pub last_committed_hash: BlockHash,
}

/// A replica's notice that it gives up on `view`, with the freshest
/// certificate it knows.
#[derive(Debug, PartialEq, Eq)]
pub struct TimeoutVote {
    pub view: u64,
    pub high_qc: Option<QuorumCertificate>,
}

#[verifier::ext_equal]
pub struct TimeoutVoteView {
    pub view: u64,
    pub high_qc: Option<QcView>,
}

pub open spec fn opt_qc(o: Option<QuorumCertificate>) -> Option<QcView> {
    match o {
        Some(qc) => Some(qc@),
        None => None,
    }
}

pub fn copy_opt_qc(o: &Option<QuorumCertificate>) -> (r: Option<QuorumCertificate>)
    ensures
        opt_qc(r) == opt_qc(*o),
{
    match o {
        Some(qc) => Some(qc.copy()),
        None => None,
    }
}

impl View for TimeoutVote {
    type V = TimeoutVoteView;

    open spec fn view(&self) -> TimeoutVoteView {
        TimeoutVoteView { view: self.view, high_qc: opt_qc(self.high_qc) }
    }
}

impl TimeoutVote {
    pub fn copy(&self) -> (r: TimeoutVote)
        ensures
            r@ == self@,
    {
        TimeoutVote { view: self.view, high_qc: copy_opt_qc(&self.high_qc) }
    }
}

impl Clone for TimeoutVote {
    fn clone(&self) -> (r: Self)
        ensures
            r@ == self@,
    {
        self.copy()
    }
}

/// How a chain signs its quorum certificates. Fixed at genesis.
#[derive(Clone, Copy, Debug, PartialEq, Eq, Structural)]
pub enum SignatureSchemeChoice {
    Ed25519Collected,
    BlsAggregated,
}

impl Default for SignatureSchemeChoice {
    fn default() -> (r: Self)
        ensures
            r == SignatureSchemeChoice::Ed25519Collected,
    {
        SignatureSchemeChoice::Ed25519Collected
    }
}

} // verus!
