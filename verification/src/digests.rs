//! Content hashes and commitments.

use vstd::bytes::{spec_u64_to_le_bytes, u64_to_le_bytes};
use vstd::prelude::*;

use crate::bytes::{payloads, Bytes32};
use crate::codec::{array_of, enc_draft, enc_list, lemma_array_of, put_header, put_list};
use crate::history_codec::{enc_history, enc_keys, encode_key_history, encode_validator_history};
use crate::node::rebuild::{Histories, HistoriesView};
use crate::types::{Block, BlockDraft, BlockHash, BlockHeader, BlockView, DraftView};

verus! {

/// How a chain hashes what it agrees on. All replicas of a chain use one
/// such function for each purpose: what they hash to depends on the content
/// alone.
pub trait Digests {
    /// The hash of a block with this content.
    closed spec fn block_digest(&self, content: DraftView) -> BlockHash {
        arbitrary()
    }

    /// The commitment to the commands of a block.
    closed spec fn commands_digest(&self, commands: Seq<Seq<u8>>) -> Bytes32 {
        arbitrary()
    }

    /// The commitment to committees and keys.
    closed spec fn history_digest(&self, histories: HistoriesView) -> Bytes32 {
        arbitrary()
    }

    fn hash_block(&self, header: &BlockHeader, commands: &Vec<Vec<u8>>) -> (r: BlockHash)
        ensures
            r == self.block_digest((DraftView { header: *header, commands: payloads(commands@) })),
    ;

    fn commit_commands(&self, commands: &Vec<Vec<u8>>) -> (r: Bytes32)
        ensures
            r == self.commands_digest(payloads(commands@)),
    ;

    fn commit_histories(&self, histories: &Histories) -> (r: Bytes32)
        requires
            histories.wf(),
        ensures
            r == self.history_digest(histories@),
    ;
}

/// The block with this content.
pub open spec fn sealed<D: Digests>(d: &D, content: DraftView) -> BlockView {
    BlockView { header: content.header, commands: content.commands, hash: d.block_digest(content) }
}

/// The block goes by the hash of its content.
pub open spec fn genuine<D: Digests>(d: &D, b: BlockView) -> bool {
    b.hash == d.block_digest(b.content())
}

impl BlockDraft {
    /// The block, under the hash of its content.
    pub fn sealed_by<D: Digests>(self, digests: &D) -> (r: Block)
        ensures
            r@ == sealed(digests, self@),
    {
        let hash = digests.hash_block(&self.header, &self.commands);
        self.seal(hash)
    }
}

// ---- fingerprints --------------------------------------------------------

/// Fast digests of 64 bits, for simulations. They depend on every byte, and
/// they are no protection against anybody who looks for two contents with
/// one digest.
#[derive(Clone, Copy, Debug, PartialEq, Eq, Structural)]
pub struct Fingerprints;

/// The digest of nothing.
pub const FINGERPRINT_START: u64 = 0xcbf2_9ce4_8422_2325;

/// What the digest is multiplied by at each byte.
pub const FINGERPRINT_FACTOR: u64 = 0x100_0000_01b3;

/// The digest, byte by byte.
pub open spec fn fingerprint(s: Seq<u8>) -> u64
    decreases s.len(),
{
    if s.len() == 0 {
        FINGERPRINT_START
    } else {
        (fingerprint(s.drop_last()) ^ (s.last() as u64)).wrapping_mul(FINGERPRINT_FACTOR)
    }
}

/// The digest in the shape of a hash: its eight bytes, then zeros.
pub open spec fn fingerprint_hash(s: Seq<u8>) -> Bytes32 {
    array_of(spec_u64_to_le_bytes(fingerprint(s)) + Seq::new(24, |i: int| 0u8))
}

/// Committees and keys in one byte string.
pub open spec fn enc_histories(h: HistoriesView) -> Seq<u8> {
    enc_history(h.committees) + enc_keys(h.signing) + (match h.bls {
        Some(b) => enc_keys(b),
        None => seq![],
    })
}

fn digest_of(bytes: &Vec<u8>) -> (r: Bytes32)
    ensures
        r == fingerprint_hash(bytes@),
{
    let mut acc: u64 = FINGERPRINT_START;
    let mut i: usize = 0;
    assert(bytes@.take(0) =~= seq![]);
    while i < bytes.len()
        invariant
            i <= bytes.len(),
            acc == fingerprint(bytes@.take(i as int)),
        decreases bytes.len() - i,
    {
        acc = (acc ^ (bytes[i] as u64)).wrapping_mul(FINGERPRINT_FACTOR);
        proof {
            assert(bytes@.take(i + 1).drop_last() =~= bytes@.take(i as int));
        }
        i = i + 1;
    }
    assert(bytes@.take(i as int) =~= bytes@);
    let le = u64_to_le_bytes(acc);
    let mut r: Bytes32 = [0u8; 32];
    let mut k: usize = 0;
    while k < 8
        invariant
            k <= 8,
            le@.len() == 8,
            forall|j: int| 0 <= j < k ==> r@[j] == le@[j],
            forall|j: int| k <= j < 32 ==> r@[j] == 0,
        decreases 8 - k,
    {
        r[k] = le[k];
        k = k + 1;
    }
    proof {
        let s = spec_u64_to_le_bytes(fingerprint(bytes@)) + Seq::new(24, |i: int| 0u8);
        assert(s.len() == 32);
        assert(r@ =~= s);
        lemma_array_of(r);
    }
    r
}

impl Digests for Fingerprints {
    open spec fn block_digest(&self, content: DraftView) -> BlockHash {
        fingerprint_hash(enc_draft(content))
    }

    open spec fn commands_digest(&self, commands: Seq<Seq<u8>>) -> Bytes32 {
        fingerprint_hash(enc_list(commands))
    }

    open spec fn history_digest(&self, histories: HistoriesView) -> Bytes32 {
        fingerprint_hash(enc_histories(histories))
    }

    fn hash_block(&self, header: &BlockHeader, commands: &Vec<Vec<u8>>) -> (r: BlockHash) {
        let mut out: Vec<u8> = Vec::new();
        put_header(&mut out, header);
        put_list(&mut out, commands);
        assert(out@ =~= enc_draft((DraftView { header: *header, commands: payloads(commands@) })));
        digest_of(&out)
    }

    fn commit_commands(&self, commands: &Vec<Vec<u8>>) -> (r: Bytes32) {
        let mut out: Vec<u8> = Vec::new();
        put_list(&mut out, commands);
        assert(out@ =~= enc_list(payloads(commands@)));
        digest_of(&out)
    }

    fn commit_histories(&self, histories: &Histories) -> (r: Bytes32) {
        let mut out = encode_validator_history(&histories.committees);
        let mut keys = encode_key_history(&histories.keys);
        out.append(&mut keys);
        if let Some(b) = &histories.bls {
            let mut bls = encode_key_history(b);
            out.append(&mut bls);
        }
        assert(out@ =~= enc_histories(histories@));
        digest_of(&out)
    }
}

} // verus!
