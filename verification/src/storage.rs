//! The durable key-value store and the keys the node keeps there.

use vstd::prelude::*;
use vstd::utf8::{encode_utf8, is_ascii_chars_encode_utf8};

use crate::bytes::{copy_bytes, same_bytes};
use crate::types::BlockHash;

verus! {

/// Where the last view in which this replica voted is kept. It is written
/// before a vote leaves the node and read back when the node starts.
pub const STORAGE_KEY_LAST_VOTED_VIEW: &'static str = "consensus/last_voted_view";

/// Where the lock is kept.
pub const STORAGE_KEY_LOCKED: &'static str = "consensus/locked";

/// Where the highest known certificate is kept.
pub const STORAGE_KEY_HIGH_QC: &'static str = "consensus/high_qc";

/// Where the highest view in which this replica proposed is kept, so that a
/// restarted leader does not propose twice at one view.
pub const STORAGE_KEY_PROPOSED_IN_VIEW: &'static str = "consensus/proposed_in_view";

/// The prefix of the keys under which blocks are kept; the content hash
/// follows it.
pub const STORAGE_KEY_BLOCK_PREFIX: &'static str = "consensus/block/";

/// Where the commit checkpoint is kept.
pub const STORAGE_KEY_LAST_COMMITTED: &'static str = "consensus/last_committed";

/// Where the history of the committees is kept.
pub const STORAGE_KEY_VALIDATOR_HISTORY: &'static str = "consensus/validator_history";

/// Where the history of the signing keys is kept.
pub const STORAGE_KEY_VALIDATOR_KEY_HISTORY: &'static str = "consensus/validator_key_history";

/// Where the history of the BLS keys is kept.
pub const STORAGE_KEY_BLS_KEY_HISTORY: &'static str = "consensus/bls_key_history";

/// Where the last timeout vote is kept, so that it can be sent again as it
/// was.
pub const STORAGE_KEY_LAST_TIMEOUT_VOTE: &'static str = "consensus/last_timeout_vote";

/// The bytes of a key.
pub open spec fn key_bytes(key: &'static str) -> Seq<u8> {
    encode_utf8(key@)
}

/// The key of the block with content hash `hash`.
pub open spec fn block_key(hash: BlockHash) -> Seq<u8> {
    key_bytes(STORAGE_KEY_BLOCK_PREFIX) + hash@
}

/// The lengths of the keys, and the byte in which keys of one length differ.
pub proof fn lemma_key_shapes()
    ensures
        key_bytes(STORAGE_KEY_LAST_VOTED_VIEW).len() == 25,
        key_bytes(STORAGE_KEY_LAST_VOTED_VIEW)[10] == 0x6c,
        key_bytes(STORAGE_KEY_LOCKED).len() == 16,
        key_bytes(STORAGE_KEY_HIGH_QC).len() == 17,
        key_bytes(STORAGE_KEY_PROPOSED_IN_VIEW).len() == 26,
        key_bytes(STORAGE_KEY_BLOCK_PREFIX).len() == 16,
        key_bytes(STORAGE_KEY_LAST_COMMITTED).len() == 24,
        key_bytes(STORAGE_KEY_VALIDATOR_HISTORY).len() == 27,
        key_bytes(STORAGE_KEY_VALIDATOR_HISTORY)[10] == 0x76,
        key_bytes(STORAGE_KEY_VALIDATOR_KEY_HISTORY).len() == 31,
        key_bytes(STORAGE_KEY_BLS_KEY_HISTORY).len() == 25,
        key_bytes(STORAGE_KEY_BLS_KEY_HISTORY)[10] == 0x62,
        key_bytes(STORAGE_KEY_LAST_TIMEOUT_VOTE).len() == 27,
        key_bytes(STORAGE_KEY_LAST_TIMEOUT_VOTE)[10] == 0x6c,
{
    reveal_strlit("consensus/last_voted_view");
    reveal_strlit("consensus/locked");
    reveal_strlit("consensus/high_qc");
    reveal_strlit("consensus/proposed_in_view");
    reveal_strlit("consensus/block/");
    reveal_strlit("consensus/last_committed");
    reveal_strlit("consensus/validator_history");
    reveal_strlit("consensus/validator_key_history");
    reveal_strlit("consensus/bls_key_history");
    reveal_strlit("consensus/last_timeout_vote");
    is_ascii_chars_encode_utf8(STORAGE_KEY_LAST_VOTED_VIEW@);
    is_ascii_chars_encode_utf8(STORAGE_KEY_LOCKED@);
    is_ascii_chars_encode_utf8(STORAGE_KEY_HIGH_QC@);
    is_ascii_chars_encode_utf8(STORAGE_KEY_PROPOSED_IN_VIEW@);
    is_ascii_chars_encode_utf8(STORAGE_KEY_BLOCK_PREFIX@);
    is_ascii_chars_encode_utf8(STORAGE_KEY_LAST_COMMITTED@);
    is_ascii_chars_encode_utf8(STORAGE_KEY_VALIDATOR_HISTORY@);
    is_ascii_chars_encode_utf8(STORAGE_KEY_VALIDATOR_KEY_HISTORY@);
    is_ascii_chars_encode_utf8(STORAGE_KEY_BLS_KEY_HISTORY@);
    is_ascii_chars_encode_utf8(STORAGE_KEY_LAST_TIMEOUT_VOTE@);
    assert(STORAGE_KEY_LAST_VOTED_VIEW@[10] == 'l');
    assert(STORAGE_KEY_VALIDATOR_HISTORY@[10] == 'v');
    assert(STORAGE_KEY_BLS_KEY_HISTORY@[10] == 'b');
    assert(STORAGE_KEY_LAST_TIMEOUT_VOTE@[10] == 'l');
}

/// The keys of the node's own records.
pub open spec fn record_keys() -> Seq<Seq<u8>> {
    seq![
        key_bytes(STORAGE_KEY_LAST_VOTED_VIEW),
        key_bytes(STORAGE_KEY_LOCKED),
        key_bytes(STORAGE_KEY_HIGH_QC),
        key_bytes(STORAGE_KEY_PROPOSED_IN_VIEW),
        key_bytes(STORAGE_KEY_LAST_COMMITTED),
        key_bytes(STORAGE_KEY_VALIDATOR_HISTORY),
        key_bytes(STORAGE_KEY_VALIDATOR_KEY_HISTORY),
        key_bytes(STORAGE_KEY_BLS_KEY_HISTORY),
        key_bytes(STORAGE_KEY_LAST_TIMEOUT_VOTE),
    ]
}

/// No two records share a key, no block is filed under the key of a record,
/// and no two blocks share a key.
pub proof fn keys_do_not_collide(hash: BlockHash, other: BlockHash)
    ensures
        forall|i: int, j: int|
            0 <= i < j < record_keys().len() ==> #[trigger] record_keys()[i] != #[trigger] record_keys()[j],
        forall|i: int| 0 <= i < record_keys().len() ==> #[trigger] record_keys()[i] != block_key(hash),
        block_key(hash) == block_key(other) ==> hash == other,
{
    lemma_key_shapes();
    assert(block_key(hash).len() == 48);
    if block_key(hash) == block_key(other) {
        assert(block_key(hash).skip(16) =~= hash@);
        assert(block_key(other).skip(16) =~= other@);
        assert(hash =~= other);
    }
}

/// The key under which the block with content hash `hash` is kept.
pub fn block_storage_key(hash: &BlockHash) -> (r: Vec<u8>)
    ensures
        r@ == block_key(*hash),
{
    let mut key: Vec<u8> = copy_bytes(STORAGE_KEY_BLOCK_PREFIX.as_bytes());
    let ghost prefix = key@;
    let mut i: usize = 0;
    while i < 32
        invariant
            i <= 32,
            key@ == prefix + hash@.take(i as int),
        decreases 32 - i,
    {
        key.push(hash[i]);
        i = i + 1;
        assert(key@ =~= prefix + hash@.take(i as int));
    }
    assert(hash@.take(32) =~= hash@);
    key
}

/// The store refused a read or a write.
#[derive(Clone, Copy, Debug, PartialEq, Eq, Structural)]
pub struct StorageError;

/// One write: a key and its new value.
#[derive(Debug, PartialEq, Eq)]
pub struct Write {
    pub key: Vec<u8>,
    pub value: Vec<u8>,
}

/// The contents of a list of writes.
pub open spec fn writes_view(w: Seq<Write>) -> Seq<(Seq<u8>, Seq<u8>)> {
    Seq::new(w.len(), |i: int| (w[i].key@, w[i].value@))
}

/// A store after the writes, in order: the last write to a key stays.
pub open spec fn apply_writes(m: Map<Seq<u8>, Seq<u8>>, w: Seq<(Seq<u8>, Seq<u8>)>) -> Map<Seq<u8>, Seq<u8>>
    decreases w.len(),
{
    if w.len() == 0 {
        m
    } else {
        apply_writes(m, w.drop_last()).insert(w.last().0, w.last().1)
    }
}

/// Applying two lists of writes one after the other is applying their
/// concatenation.
pub proof fn lemma_apply_concat(
    m: Map<Seq<u8>, Seq<u8>>,
    a: Seq<(Seq<u8>, Seq<u8>)>,
    b: Seq<(Seq<u8>, Seq<u8>)>,
)
    ensures
        apply_writes(m, a + b) == apply_writes(apply_writes(m, a), b),
    decreases b.len(),
{
    if b.len() == 0 {
        assert(a + b =~= a);
    } else {
        assert((a + b).drop_last() =~= a + b.drop_last());
        lemma_apply_concat(m, a, b.drop_last());
    }
}

/// A key that no write names keeps its value.
pub proof fn lemma_untouched(m: Map<Seq<u8>, Seq<u8>>, w: Seq<(Seq<u8>, Seq<u8>)>, key: Seq<u8>)
    requires
        forall|i: int| 0 <= i < w.len() ==> (#[trigger] w[i]).0 != key,
    ensures
        apply_writes(m, w).contains_key(key) == m.contains_key(key),
        m.contains_key(key) ==> apply_writes(m, w)[key] == m[key],
    decreases w.len(),
{
    if w.len() > 0 {
        let d = w.drop_last();
        assert forall|i: int| 0 <= i < d.len() implies (#[trigger] d[i]).0 != key by {
            assert(d[i] == w[i]);
        }
        lemma_untouched(m, d, key);
        assert(w.last() == w[w.len() - 1]);
    }
}

/// What the store answers when asked for `key`.
pub open spec fn lookup(m: Map<Seq<u8>, Seq<u8>>, key: Seq<u8>) -> Option<Seq<u8>> {
    if m.contains_key(key) {
        Some(m[key])
    } else {
        None
    }
}

pub open spec fn opt_bytes(o: Option<Vec<u8>>) -> Option<Seq<u8>> {
    match o {
        Some(v) => Some(v@),
        None => None,
    }
}

/// A durable key-value store. Whether a call succeeds is the store's own
/// affair, unless it is a steady one; a batch that fails leaves no trace.
pub trait Storage {
    /// What the store holds.
    closed spec fn contents(&self) -> Map<Seq<u8>, Seq<u8>> {
        arbitrary()
    }

    /// No call on the store ever fails.
    closed spec fn steady(&self) -> bool {
        false
    }

    fn get(&self, key: &[u8]) -> (r: Result<Option<Vec<u8>>, StorageError>)
        ensures
            r matches Ok(found) ==> opt_bytes(found) == lookup(self.contents(), key@),
            self.steady() ==> r is Ok,
    ;

    /// Performs all writes or none.
    fn batch(&mut self, writes: &Vec<Write>) -> (r: Result<(), StorageError>)
        ensures
            r is Ok ==> final(self).contents() == apply_writes(old(self).contents(), writes_view(writes@)),
            r is Err ==> final(self).contents() == old(self).contents(),
            old(self).steady() ==> r is Ok,
            final(self).steady() == old(self).steady(),
    ;
}

/// A store in memory. It never refuses.
#[derive(Debug)]
pub struct MemoryStorage {
    entries: Vec<Write>,
}

pub open spec fn entries_map(e: Seq<Write>) -> Map<Seq<u8>, Seq<u8>> {
    apply_writes(Map::empty(), writes_view(e))
}

impl MemoryStorage {
    pub fn new() -> (r: MemoryStorage)
        ensures
            r.contents() == Map::<Seq<u8>, Seq<u8>>::empty(),
    {
        let r = MemoryStorage { entries: Vec::new() };
        assert(writes_view(r.entries@) =~= seq![]);
        r
    }

    /// Writes one key.
    pub fn put(&mut self, key: &[u8], value: &[u8])
        ensures
            final(self).contents() == old(self).contents().insert(key@, value@),
    {
        let ghost before = self.entries@;
        self.entries.push(Write { key: copy_bytes(key), value: copy_bytes(value) });
        proof {
            assert(writes_view(self.entries@).drop_last() =~= writes_view(before));
            assert(writes_view(self.entries@).last() == (key@, value@));
        }
    }
}

impl Storage for MemoryStorage {
    closed spec fn contents(&self) -> Map<Seq<u8>, Seq<u8>> {
        entries_map(self.entries@)
    }

    open spec fn steady(&self) -> bool {
        true
    }

    fn get(&self, key: &[u8]) -> (r: Result<Option<Vec<u8>>, StorageError>) {
        let mut i: usize = self.entries.len();
        let ghost all = writes_view(self.entries@);
        assert(all.take(i as int) =~= all);
        while i > 0
            invariant
                i <= self.entries.len(),
                all == writes_view(self.entries@),
                lookup(apply_writes(Map::empty(), all), key@) == lookup(
                    apply_writes(Map::empty(), all.take(i as int)),
                    key@,
                ),
            decreases i,
        {
            let ghost t = all.take(i as int);
            assert(t.drop_last() =~= all.take(i - 1));
            assert(t.last() == all[i - 1]);
            if same_bytes(self.entries[i - 1].key.as_slice(), key) {
                return Ok(Some(copy_bytes(self.entries[i - 1].value.as_slice())));
            }
            i = i - 1;
        }
        Ok(None)
    }

    fn batch(&mut self, writes: &Vec<Write>) -> (r: Result<(), StorageError>) {
        let ghost w = writes_view(writes@);
        let ghost m0 = self.contents();
        let mut i: usize = 0;
        assert(w.take(0) =~= seq![]);
        while i < writes.len()
            invariant
                i <= writes.len(),
                w == writes_view(writes@),
                self.contents() == apply_writes(m0, w.take(i as int)),
            decreases writes.len() - i,
        {
            self.put(writes[i].key.as_slice(), writes[i].value.as_slice());
            proof {
                let t = w.take(i + 1);
                assert(t.drop_last() =~= w.take(i as int));
                assert(t.last() == w[i as int]);
            }
            i = i + 1;
        }
        assert(w.take(i as int) =~= w);
        Ok(())
    }
}

} // verus!
