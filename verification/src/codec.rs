//! The stored and transmitted form of the protocol's records.
//!
//! Integers have variable length; digests and identifiers are their raw
//! bytes; byte strings and lists carry their length in front; an optional
//! value carries a zero or one in front. A record is its fields in order.

use vstd::prelude::*;
use vstd::slice::slice_subrange;

use crate::bytes::{payloads, Bytes32};
use crate::trusted::{
    postcard_encode_u32, postcard_encode_u64, postcard_take_u32, postcard_take_u64, take_groups, take_varint,
    take_varint32, varint,
};
use crate::types::{
    Block, BlockDraft, BlockHeader, BlockView, DraftView, LastCommitted, Locked, QcView, QuorumCertificate,
    TimeoutVote, TimeoutVoteView,
};

verus! {

/// The records that the codec knows.
#[derive(Clone, Copy, Debug, PartialEq, Eq, Structural)]
pub enum Record {
    LastVotedView,
    Locked,
    HighQc,
    ProposedInView,
    Block,
    LastCommitted,
    TimeoutVote,
    ValidatorHistory,
    ValidatorKeyHistory,
    BlsKeyHistory,
    WireMessage,
    SafetyUpdates,
}

impl Record {
    pub open spec fn label(self) -> Seq<char> {
        match self {
            Record::LastVotedView => "last_voted_view"@,
            Record::Locked => "locked"@,
            Record::HighQc => "high_qc"@,
            Record::ProposedInView => "proposed_in_view"@,
            Record::Block => "committed block"@,
            Record::LastCommitted => "last_committed"@,
            Record::TimeoutVote => "last_timeout_vote"@,
            Record::ValidatorHistory => "validator_history"@,
            Record::ValidatorKeyHistory => "validator_key_history"@,
            Record::BlsKeyHistory => "bls_key_history"@,
            Record::WireMessage => "wire message"@,
            Record::SafetyUpdates => "safety updates"@,
        }
    }

    /// The name of the record in messages to the operator.
    pub fn name(self) -> (r: &'static str)
        ensures
            r@ == self.label(),
    {
        match self {
            Record::LastVotedView => "last_voted_view",
            Record::Locked => "locked",
            Record::HighQc => "high_qc",
            Record::ProposedInView => "proposed_in_view",
            Record::Block => "committed block",
            Record::LastCommitted => "last_committed",
            Record::TimeoutVote => "last_timeout_vote",
            Record::ValidatorHistory => "validator_history",
            Record::ValidatorKeyHistory => "validator_key_history",
            Record::BlsKeyHistory => "bls_key_history",
            Record::WireMessage => "wire message",
            Record::SafetyUpdates => "safety updates",
        }
    }
}

/// The bytes of a record are not its encoding.
#[derive(Clone, Copy, Debug, PartialEq, Eq, Structural)]
pub struct CodecError {
    pub record: Record,
}

// ---- integers ------------------------------------------------------------

/// One more than the largest number that `groups` groups can hold, the last
/// of them no more than `last`.
pub open spec fn group_limit(groups: nat, last: nat) -> nat
    decreases groups,
{
    if groups <= 1 {
        last + 1
    } else {
        128 * group_limit((groups - 1) as nat, last)
    }
}

proof fn lemma_groups(n: nat, groups: nat, last: nat, tail: Seq<u8>)
    requires
        groups > 0,
        last < 128,
        n < group_limit(groups, last),
    ensures
        take_groups(varint(n) + tail, groups, last) == Some((n, tail)),
    decreases groups,
{
    let s = varint(n) + tail;
    if n < 128 {
        assert(varint(n) =~= seq![n as u8]);
        assert(s[0] == n);
        assert(s.skip(1) =~= tail);
    } else {
        let first = (n % 128 + 128) as u8;
        assert(varint(n) =~= seq![first] + varint(n / 128));
        assert(s[0] == first);
        assert(s.skip(1) =~= varint(n / 128) + tail);
        lemma_groups(n / 128, (groups - 1) as nat, last, tail);
    }
}

/// Reading back an encoded integer gives the integer and what stood behind
/// it.
pub proof fn varint_reads_back(n: u64, tail: Seq<u8>)
    ensures
        take_varint(varint(n as nat) + tail) == Some((n as nat, tail)),
{
    reveal_with_fuel(group_limit, 11);
    lemma_groups(n as nat, 10, 1, tail);
}

/// The same for a 32-bit integer.
pub proof fn varint32_reads_back(n: u32, tail: Seq<u8>)
    ensures
        take_varint32(varint(n as nat) + tail) == Some((n as nat, tail)),
{
    reveal_with_fuel(group_limit, 6);
    lemma_groups(n as nat, 5, 15, tail);
}

fn push_all(out: &mut Vec<u8>, bytes: &[u8])
    ensures
        final(out)@ == old(out)@ + bytes@,
{
    let ghost before = out@;
    let mut i: usize = 0;
    while i < bytes.len()
        invariant
            i <= bytes.len(),
            out@ == before + bytes@.take(i as int),
        decreases bytes.len() - i,
    {
        out.push(bytes[i]);
        i = i + 1;
        assert(out@ =~= before + bytes@.take(i as int));
    }
    assert(bytes@.take(bytes@.len() as int) =~= bytes@);
}

pub(crate) fn put_u64(out: &mut Vec<u8>, v: u64)
    ensures
        final(out)@ == old(out)@ + varint(v as nat),
{
    match postcard_encode_u64(v) {
        Ok(bytes) => push_all(out, bytes.as_slice()),
        Err(_) => {},
    }
}

pub(crate) fn put_u32(out: &mut Vec<u8>, v: u32)
    ensures
        final(out)@ == old(out)@ + varint(v as nat),
{
    match postcard_encode_u32(v) {
        Ok(bytes) => push_all(out, bytes.as_slice()),
        Err(_) => {},
    }
}

pub(crate) fn take_u32<'a>(s: &'a [u8]) -> (r: Option<(u32, &'a [u8])>)
    ensures
        match r {
            Some((v, rest)) => take_varint32(s@) == Some((v as nat, rest@)),
            None => take_varint32(s@) is None,
        },
{
    match postcard_take_u32(s) {
        Ok((v, rest)) => Some((v, rest)),
        Err(_) => None,
    }
}

pub(crate) fn take_u64<'a>(s: &'a [u8]) -> (r: Option<(u64, &'a [u8])>)
    ensures
        match r {
            Some((v, rest)) => take_varint(s@) == Some((v as nat, rest@)),
            None => take_varint(s@) is None,
        },
{
    match postcard_take_u64(s) {
        Ok((v, rest)) => Some((v, rest)),
        Err(_) => None,
    }
}

// ---- digests and identifiers ---------------------------------------------

/// The array with the bytes `s`.
pub open spec fn array_of(s: Seq<u8>) -> Bytes32 {
    choose|a: Bytes32| a@ == s
}

pub proof fn lemma_array_of(a: Bytes32)
    ensures
        array_of(a@) == a,
{
    let b = array_of(a@);
    assert(b@ == a@);
    assert(b =~= a);
}

/// Reads 32 raw bytes off the front of `s`.
pub open spec fn take_array(s: Seq<u8>) -> Option<(Bytes32, Seq<u8>)> {
    if s.len() >= 32 {
        Some((array_of(s.take(32)), s.skip(32)))
    } else {
        None
    }
}

pub proof fn array_reads_back(a: Bytes32, tail: Seq<u8>)
    ensures
        take_array(a@ + tail) == Some((a, tail)),
{
    assert((a@ + tail).take(32) =~= a@);
    assert((a@ + tail).skip(32) =~= tail);
    lemma_array_of(a);
}

pub(crate) fn put_array(out: &mut Vec<u8>, a: &Bytes32)
    ensures
        final(out)@ == old(out)@ + a@,
{
    let ghost before = out@;
    let mut i: usize = 0;
    while i < 32
        invariant
            i <= 32,
            out@ == before + a@.take(i as int),
        decreases 32 - i,
    {
        out.push(a[i]);
        i = i + 1;
        assert(out@ =~= before + a@.take(i as int));
    }
    assert(a@.take(32) =~= a@);
}

pub(crate) fn take_array32<'a>(s: &'a [u8]) -> (r: Option<(Bytes32, &'a [u8])>)
    ensures
        match r {
            Some((a, rest)) => take_array(s@) == Some((a, rest@)),
            None => take_array(s@) is None,
        },
{
    if s.len() < 32 {
        return None;
    }
    let mut a: Bytes32 = [0u8; 32];
    let mut i: usize = 0;
    while i < 32
        invariant
            i <= 32,
            s@.len() >= 32,
            forall|k: int| 0 <= k < i ==> a@[k] == s@[k],
        decreases 32 - i,
    {
        a[i] = s[i];
        i = i + 1;
    }
    assert(a@ =~= s@.take(32));
    proof {
        lemma_array_of(a);
    }
    let rest = slice_subrange(s, 32, s.len());
    assert(rest@ =~= s@.skip(32));
    Some((a, rest))
}

// ---- byte strings and lists ----------------------------------------------

/// A byte string: its length, then its bytes.
pub open spec fn enc_bytes(b: Seq<u8>) -> Seq<u8> {
    varint(b.len()) + b
}

pub open spec fn take_bytes(s: Seq<u8>) -> Option<(Seq<u8>, Seq<u8>)> {
    match take_varint(s) {
        Some((n, rest)) => if n <= rest.len() {
            Some((rest.take(n as int), rest.skip(n as int)))
        } else {
            None
        },
        None => None,
    }
}

pub proof fn bytes_read_back(b: Seq<u8>, tail: Seq<u8>)
    requires
        b.len() <= u64::MAX,
    ensures
        take_bytes(enc_bytes(b) + tail) == Some((b, tail)),
{
    assert(enc_bytes(b) + tail =~= varint(b.len()) + (b + tail));
    varint_reads_back(b.len() as u64, b + tail);
    assert((b + tail).take(b.len() as int) =~= b);
    assert((b + tail).skip(b.len() as int) =~= tail);
}

pub(crate) fn put_bytes(out: &mut Vec<u8>, b: &[u8])
    ensures
        final(out)@ == old(out)@ + enc_bytes(b@),
{
    put_u64(out, b.len() as u64);
    push_all(out, b);
    assert(out@ =~= old(out)@ + enc_bytes(b@));
}

pub(crate) fn take_byte_string<'a>(s: &'a [u8]) -> (r: Option<(Vec<u8>, &'a [u8])>)
    ensures
        match r {
            Some((b, rest)) => take_bytes(s@) == Some((b@, rest@)),
            None => take_bytes(s@) is None,
        },
{
    match take_u64(s) {
        Some((n, rest)) => {
            if n > rest.len() as u64 {
                return None;
            }
            let k: usize = n as usize;
            let mut b: Vec<u8> = Vec::new();
            let body = slice_subrange(rest, 0, k);
            push_all(&mut b, body);
            assert(b@ =~= rest@.take(k as int));
            let tail = slice_subrange(rest, k, rest.len());
            assert(tail@ =~= rest@.skip(k as int));
            Some((b, tail))
        },
        None => None,
    }
}

/// The items of a list, one after the other.
pub open spec fn enc_items(items: Seq<Seq<u8>>) -> Seq<u8>
    decreases items.len(),
{
    if items.len() == 0 {
        seq![]
    } else {
        enc_bytes(items[0]) + enc_items(items.skip(1))
    }
}

/// A list of byte strings: its length, then its items.
pub open spec fn enc_list(items: Seq<Seq<u8>>) -> Seq<u8> {
    varint(items.len()) + enc_items(items)
}

pub open spec fn take_items(s: Seq<u8>, n: nat) -> Option<(Seq<Seq<u8>>, Seq<u8>)>
    decreases n,
{
    if n == 0 {
        Some((seq![], s))
    } else {
        match take_bytes(s) {
            Some((b, rest)) => match take_items(rest, (n - 1) as nat) {
                Some((more, rest2)) => Some((seq![b] + more, rest2)),
                None => None,
            },
            None => None,
        }
    }
}

pub open spec fn take_list(s: Seq<u8>) -> Option<(Seq<Seq<u8>>, Seq<u8>)> {
    match take_varint(s) {
        Some((n, rest)) => take_items(rest, n),
        None => None,
    }
}

/// Every item is short enough for its length to be written down.
pub open spec fn encodable_items(items: Seq<Seq<u8>>) -> bool {
    &&& items.len() <= u64::MAX
    &&& forall|i: int| 0 <= i < items.len() ==> (#[trigger] items[i]).len() <= u64::MAX
}

proof fn lemma_items(items: Seq<Seq<u8>>, tail: Seq<u8>)
    requires
        encodable_items(items),
    ensures
        take_items(enc_items(items) + tail, items.len()) == Some((items, tail)),
    decreases items.len(),
{
    if items.len() == 0 {
        assert(enc_items(items) + tail =~= tail);
        assert(items =~= seq![]);
    } else {
        let more = items.skip(1);
        assert forall|i: int| 0 <= i < more.len() implies (#[trigger] more[i]).len() <= u64::MAX by {
            assert(more[i] == items[i + 1]);
        }
        lemma_items(more, tail);
        assert(enc_items(items) + tail =~= enc_bytes(items[0]) + (enc_items(more) + tail));
        bytes_read_back(items[0], enc_items(more) + tail);
        assert(seq![items[0]] + more =~= items);
    }
}

pub proof fn list_reads_back(items: Seq<Seq<u8>>, tail: Seq<u8>)
    requires
        encodable_items(items),
    ensures
        take_list(enc_list(items) + tail) == Some((items, tail)),
{
    assert(enc_list(items) + tail =~= varint(items.len()) + (enc_items(items) + tail));
    varint_reads_back(items.len() as u64, enc_items(items) + tail);
    lemma_items(items, tail);
}

proof fn lemma_items_push(items: Seq<Seq<u8>>, b: Seq<u8>)
    ensures
        enc_items(items.push(b)) == enc_items(items) + enc_bytes(b),
    decreases items.len(),
{
    if items.len() == 0 {
        reveal_with_fuel(enc_items, 2);
        assert(items.push(b).skip(1) =~= seq![]);
        assert(items.push(b)[0] == b);
        assert(enc_items(items.push(b)) =~= enc_bytes(b));
        assert(enc_items(items) + enc_bytes(b) =~= enc_bytes(b));
    } else {
        assert(items.push(b).skip(1) =~= items.skip(1).push(b));
        assert(items.push(b)[0] == items[0]);
        lemma_items_push(items.skip(1), b);
        assert(enc_items(items.push(b)) =~= enc_items(items) + enc_bytes(b));
    }
}

pub(crate) fn put_list(out: &mut Vec<u8>, items: &Vec<Vec<u8>>)
    ensures
        final(out)@ == old(out)@ + enc_list(payloads(items@)),
{
    let ghost all = payloads(items@);
    put_u64(out, items.len() as u64);
    let ghost head = out@;
    let mut i: usize = 0;
    assert(all.take(0) =~= seq![]);
    assert(head + enc_items(all.take(0)) =~= head);
    while i < items.len()
        invariant
            i <= items.len(),
            all == payloads(items@),
            out@ == head + enc_items(all.take(i as int)),
        decreases items.len() - i,
    {
        put_bytes(out, items[i].as_slice());
        proof {
            assert(all.take(i + 1) =~= all.take(i as int).push(all[i as int]));
            lemma_items_push(all.take(i as int), all[i as int]);
            assert(out@ =~= head + enc_items(all.take(i + 1)));
        }
        i = i + 1;
    }
    assert(all.take(i as int) =~= all);
    assert(out@ =~= old(out)@ + enc_list(all));
}

pub(crate) fn take_byte_strings<'a>(s: &'a [u8]) -> (r: Option<(Vec<Vec<u8>>, &'a [u8])>)
    ensures
        match r {
            Some((items, rest)) => take_list(s@) == Some((payloads(items@), rest@)),
            None => take_list(s@) is None,
        },
{
    let (n, body) = match take_u64(s) {
        Some((n, rest)) => (n, rest),
        None => {
            return None;
        },
    };
    let mut items: Vec<Vec<u8>> = Vec::new();
    let mut rest: &'a [u8] = body;
    let mut i: u64 = 0;
    assert(payloads(items@) =~= seq![]);
    proof {
        match take_items(body@, n as nat) {
            Some((more, end)) => {
                assert(payloads(items@) + more =~= more);
            },
            None => {},
        }
    }
    while i < n
        invariant
            i <= n,
            take_items(body@, n as nat) == (match take_items(rest@, (n - i) as nat) {
                Some((more, end)) => Some((payloads(items@) + more, end)),
                None => None::<(Seq<Seq<u8>>, Seq<u8>)>,
            }),
            take_varint(s@) == Some((n as nat, body@)),
        decreases n - i,
    {
        match take_byte_string(rest) {
            Some((b, tail)) => {
                let ghost done = payloads(items@);
                let ghost bv = b@;
                items.push(b);
                proof {
                    assert(payloads(items@) =~= done.push(bv));
                    match take_items(tail@, (n - i - 1) as nat) {
                        Some((more, end)) => {
                            assert(done + (seq![bv] + more) =~= payloads(items@) + more);
                        },
                        None => {},
                    }
                }
                rest = tail;
                i = i + 1;
            },
            None => {
                return None;
            },
        }
    }
    assert(payloads(items@) + Seq::<Seq<u8>>::empty() =~= payloads(items@));
    Some((items, rest))
}

// ---- flags ---------------------------------------------------------------

pub open spec fn flag_byte(b: bool) -> u8 {
    if b {
        1
    } else {
        0
    }
}

/// A list of flags: its length, then a zero or one for each.
pub open spec fn enc_flags(f: Seq<bool>) -> Seq<u8> {
    varint(f.len()) + Seq::new(f.len(), |i: int| flag_byte(f[i]))
}

pub open spec fn take_flags(s: Seq<u8>) -> Option<(Seq<bool>, Seq<u8>)> {
    match take_varint(s) {
        Some((n, rest)) => if n <= rest.len() && forall|i: int| 0 <= i < n ==> #[trigger] rest[i] <= 1 {
            Some((Seq::new(n, |i: int| rest[i] == 1), rest.skip(n as int)))
        } else {
            None
        },
        None => None,
    }
}

pub proof fn flags_read_back(f: Seq<bool>, tail: Seq<u8>)
    requires
        f.len() <= u64::MAX,
    ensures
        take_flags(enc_flags(f) + tail) == Some((f, tail)),
{
    let body = Seq::new(f.len(), |i: int| flag_byte(f[i]));
    assert(enc_flags(f) + tail =~= varint(f.len()) + (body + tail));
    varint_reads_back(f.len() as u64, body + tail);
    let rest = body + tail;
    assert forall|i: int| 0 <= i < f.len() implies #[trigger] rest[i] <= 1 by {
        assert(rest[i] == body[i]);
    }
    assert(Seq::new(f.len(), |i: int| rest[i] == 1) =~= f);
    assert(rest.skip(f.len() as int) =~= tail);
}

pub(crate) fn put_flags(out: &mut Vec<u8>, f: &Vec<bool>)
    ensures
        final(out)@ == old(out)@ + enc_flags(f@),
{
    put_u64(out, f.len() as u64);
    let ghost head = out@;
    let ghost body = Seq::new(f@.len(), |i: int| flag_byte(f@[i]));
    let mut i: usize = 0;
    assert(head + body.take(0) =~= head);
    while i < f.len()
        invariant
            i <= f.len(),
            body == Seq::new(f@.len(), |i: int| flag_byte(f@[i])),
            out@ == head + body.take(i as int),
        decreases f.len() - i,
    {
        if f[i] {
            out.push(1);
        } else {
            out.push(0);
        }
        i = i + 1;
        assert(out@ =~= head + body.take(i as int));
    }
    assert(body.take(i as int) =~= body);
    assert(out@ =~= old(out)@ + enc_flags(f@));
}

pub(crate) fn take_flag_list<'a>(s: &'a [u8]) -> (r: Option<(Vec<bool>, &'a [u8])>)
    ensures
        match r {
            Some((f, rest)) => take_flags(s@) == Some((f@, rest@)),
            None => take_flags(s@) is None,
        },
{
    let (n, body) = match take_u64(s) {
        Some((n, rest)) => (n, rest),
        None => {
            return None;
        },
    };
    if n > body.len() as u64 {
        return None;
    }
    let k: usize = n as usize;
    let mut f: Vec<bool> = Vec::new();
    let mut i: usize = 0;
    while i < k
        invariant
            i <= k,
            k <= body@.len(),
            k == n,
            take_varint(s@) == Some((n as nat, body@)),
            f@ =~= Seq::new(i as nat, |j: int| body@[j] == 1),
            forall|j: int| 0 <= j < i ==> #[trigger] body@[j] <= 1,
        decreases k - i,
    {
        if body[i] > 1 {
            assert(body@[i as int] > 1);
            return None;
        }
        f.push(body[i] == 1);
        i = i + 1;
    }
    let rest = slice_subrange(body, k, body.len());
    assert(rest@ =~= body@.skip(k as int));
    Some((f, rest))
}

// ---- quorum certificates -------------------------------------------------

pub open spec fn enc_qc(qc: QcView) -> Seq<u8> {
    varint(qc.view as nat) + qc.block_hash@ + enc_flags(qc.signers) + enc_bytes(qc.signatures)
}

pub open spec fn take_qc(s: Seq<u8>) -> Option<(QcView, Seq<u8>)> {
    match take_varint(s) {
        Some((view, s1)) => match take_array(s1) {
            Some((block_hash, s2)) => match take_flags(s2) {
                Some((signers, s3)) => match take_bytes(s3) {
                    Some((signatures, s4)) => Some(
                        (QcView { view: view as u64, block_hash, signers, signatures }, s4),
                    ),
                    None => None,
                },
                None => None,
            },
            None => None,
        },
        None => None,
    }
}

/// The lists of the certificate are short enough to be written down, as those
/// of every certificate in memory are.
pub open spec fn encodable_qc(qc: QcView) -> bool {
    &&& qc.signers.len() <= u64::MAX
    &&& qc.signatures.len() <= u64::MAX
}

pub proof fn qc_reads_back(qc: QcView, tail: Seq<u8>)
    requires
        encodable_qc(qc),
    ensures
        take_qc(enc_qc(qc) + tail) == Some((qc, tail)),
{
    let t3 = enc_bytes(qc.signatures) + tail;
    let t2 = enc_flags(qc.signers) + t3;
    let t1 = qc.block_hash@ + t2;
    assert(enc_qc(qc) + tail =~= varint(qc.view as nat) + t1);
    varint_reads_back(qc.view, t1);
    array_reads_back(qc.block_hash, t2);
    flags_read_back(qc.signers, t3);
    bytes_read_back(qc.signatures, tail);
}

pub(crate) fn put_qc(out: &mut Vec<u8>, qc: &QuorumCertificate)
    ensures
        final(out)@ == old(out)@ + enc_qc(qc@),
{
    put_u64(out, qc.view);
    put_array(out, &qc.block_hash);
    put_flags(out, &qc.signers);
    put_bytes(out, qc.signatures.as_slice());
    assert(out@ =~= old(out)@ + enc_qc(qc@));
}

pub(crate) fn take_certificate<'a>(s: &'a [u8]) -> (r: Option<(QuorumCertificate, &'a [u8])>)
    ensures
        match r {
            Some((qc, rest)) => take_qc(s@) == Some((qc@, rest@)),
            None => take_qc(s@) is None,
        },
{
    match take_u64(s) {
        Some((view, s1)) => match take_array32(s1) {
            Some((block_hash, s2)) => match take_flag_list(s2) {
                Some((signers, s3)) => match take_byte_string(s3) {
                    Some((signatures, s4)) => Some((QuorumCertificate { view, block_hash, signers, signatures }, s4)),
                    None => None,
                },
                None => None,
            },
            None => None,
        },
        None => None,
    }
}

// ---- blocks --------------------------------------------------------------

pub open spec fn enc_header(h: BlockHeader) -> Seq<u8> {
    h.parent_hash@ + varint(h.height as nat) + varint(h.view as nat) + h.proposer@ + h.state_commitment@
        + h.commands_commitment@ + h.validator_history_commitment@
}

pub open spec fn enc_draft(d: DraftView) -> Seq<u8> {
    enc_header(d.header) + enc_list(d.commands)
}

/// A block is stored under its content hash; the stored bytes do not repeat
/// it.
pub open spec fn enc_block(b: BlockView) -> Seq<u8> {
    enc_draft(b.content())
}

pub open spec fn take_header(s: Seq<u8>) -> Option<(BlockHeader, Seq<u8>)> {
    match take_array(s) {
        Some((parent_hash, s1)) => match take_varint(s1) {
            Some((height, s2)) => match take_varint(s2) {
                Some((view, s3)) => match take_array(s3) {
                    Some((proposer, s4)) => match take_array(s4) {
                        Some((state_commitment, s5)) => match take_array(s5) {
                            Some((commands_commitment, s6)) => match take_array(s6) {
                                Some((validator_history_commitment, s7)) => Some(
                                    (
                                        BlockHeader {
                                            parent_hash,
                                            height: height as u64,
                                            view: view as u64,
                                            proposer,
                                            state_commitment,
                                            commands_commitment,
                                            validator_history_commitment,
                                        },
                                        s7,
                                    ),
                                ),
                                None => None,
                            },
                            None => None,
                        },
                        None => None,
                    },
                    None => None,
                },
                None => None,
            },
            None => None,
        },
        None => None,
    }
}

pub open spec fn take_draft(s: Seq<u8>) -> Option<(DraftView, Seq<u8>)> {
    match take_header(s) {
        Some((header, s1)) => match take_list(s1) {
            Some((commands, s2)) => Some((DraftView { header, commands }, s2)),
            None => None,
        },
        None => None,
    }
}

pub proof fn header_reads_back(h: BlockHeader, tail: Seq<u8>)
    ensures
        take_header(enc_header(h) + tail) == Some((h, tail)),
{
    let t6 = h.validator_history_commitment@ + tail;
    let t5 = h.commands_commitment@ + t6;
    let t4 = h.state_commitment@ + t5;
    let t3 = h.proposer@ + t4;
    let t2 = varint(h.view as nat) + t3;
    let t1 = varint(h.height as nat) + t2;
    assert(enc_header(h) + tail =~= h.parent_hash@ + t1);
    array_reads_back(h.parent_hash, t1);
    varint_reads_back(h.height, t2);
    varint_reads_back(h.view, t3);
    array_reads_back(h.proposer, t4);
    array_reads_back(h.state_commitment, t5);
    array_reads_back(h.commands_commitment, t6);
    array_reads_back(h.validator_history_commitment, tail);
}

pub proof fn draft_reads_back(d: DraftView, tail: Seq<u8>)
    requires
        encodable_items(d.commands),
    ensures
        take_draft(enc_draft(d) + tail) == Some((d, tail)),
{
    assert(enc_draft(d) + tail =~= enc_header(d.header) + (enc_list(d.commands) + tail));
    header_reads_back(d.header, enc_list(d.commands) + tail);
    list_reads_back(d.commands, tail);
}

pub(crate) fn put_header(out: &mut Vec<u8>, h: &BlockHeader)
    ensures
        final(out)@ == old(out)@ + enc_header(*h),
{
    put_array(out, &h.parent_hash);
    put_u64(out, h.height);
    put_u64(out, h.view);
    put_array(out, &h.proposer);
    put_array(out, &h.state_commitment);
    put_array(out, &h.commands_commitment);
    put_array(out, &h.validator_history_commitment);
    assert(out@ =~= old(out)@ + enc_header(*h));
}

pub(crate) fn put_draft(out: &mut Vec<u8>, d: &BlockDraft)
    ensures
        final(out)@ == old(out)@ + enc_draft(d@),
{
    put_header(out, &d.header);
    put_list(out, &d.commands);
    assert(out@ =~= old(out)@ + enc_draft(d@));
}

pub(crate) fn put_block(out: &mut Vec<u8>, b: &Block)
    ensures
        final(out)@ == old(out)@ + enc_block(b@),
{
    put_header(out, &b.header);
    put_list(out, &b.commands);
    assert(out@ =~= old(out)@ + enc_block(b@));
}

pub(crate) fn take_block_header<'a>(s: &'a [u8]) -> (r: Option<(BlockHeader, &'a [u8])>)
    ensures
        match r {
            Some((h, rest)) => take_header(s@) == Some((h, rest@)),
            None => take_header(s@) is None,
        },
{
    let (parent_hash, s1) = match take_array32(s) {
        Some((v, rest)) => (v, rest),
        None => {
            return None;
        },
    };
    let (height, s2) = match take_u64(s1) {
        Some((v, rest)) => (v, rest),
        None => {
            return None;
        },
    };
    let (view, s3) = match take_u64(s2) {
        Some((v, rest)) => (v, rest),
        None => {
            return None;
        },
    };
    let (proposer, s4) = match take_array32(s3) {
        Some((v, rest)) => (v, rest),
        None => {
            return None;
        },
    };
    let (state_commitment, s5) = match take_array32(s4) {
        Some((v, rest)) => (v, rest),
        None => {
            return None;
        },
    };
    let (commands_commitment, s6) = match take_array32(s5) {
        Some((v, rest)) => (v, rest),
        None => {
            return None;
        },
    };
    let (validator_history_commitment, s7) = match take_array32(s6) {
        Some((v, rest)) => (v, rest),
        None => {
            return None;
        },
    };
    Some(
        (
            BlockHeader {
                parent_hash,
                height,
                view,
                proposer,
                state_commitment,
                commands_commitment,
                validator_history_commitment,
            },
            s7,
        ),
    )
}

pub(crate) fn take_block_draft<'a>(s: &'a [u8]) -> (r: Option<(BlockDraft, &'a [u8])>)
    ensures
        match r {
            Some((d, rest)) => take_draft(s@) == Some((d@, rest@)),
            None => take_draft(s@) is None,
        },
{
    match take_block_header(s) {
        Some((header, s1)) => match take_byte_strings(s1) {
            Some((commands, s2)) => Some((BlockDraft { header, commands }, s2)),
            None => None,
        },
        None => None,
    }
}

// ---- locks and the commit checkpoint -------------------------------------

pub open spec fn enc_locked(l: Locked) -> Seq<u8> {
    varint(l.view as nat) + varint(l.height as nat) + l.block_hash@
}

pub open spec fn enc_last_committed(l: LastCommitted) -> Seq<u8> {
    varint(l.height as nat) + varint(l.view as nat) + l.last_committed_hash@
}

/// Two integers and a digest.
pub open spec fn take_triple(s: Seq<u8>) -> Option<(u64, u64, Bytes32)> {
    match take_varint(s) {
        Some((a, s1)) => match take_varint(s1) {
            Some((b, s2)) => match take_array(s2) {
                Some((c, _)) => Some((a as u64, b as u64, c)),
                None => None,
            },
            None => None,
        },
        None => None,
    }
}

proof fn lemma_triple(a: u64, b: u64, c: Bytes32)
    ensures
        take_triple(varint(a as nat) + varint(b as nat) + c@) == Some((a, b, c)),
{
    let none = Seq::<u8>::empty();
    let t2 = c@ + none;
    let t1 = varint(b as nat) + t2;
    assert(varint(a as nat) + varint(b as nat) + c@ =~= varint(a as nat) + t1);
    varint_reads_back(a, t1);
    varint_reads_back(b, t2);
    array_reads_back(c, none);
}

fn take_two_and_digest(s: &[u8]) -> (r: Option<(u64, u64, Bytes32)>)
    ensures
        r == take_triple(s@),
{
    match take_u64(s) {
        Some((a, s1)) => match take_u64(s1) {
            Some((b, s2)) => match take_array32(s2) {
                Some((c, _)) => Some((a, b, c)),
                None => None,
            },
            None => None,
        },
        None => None,
    }
}

// ---- timeout votes -------------------------------------------------------

/// An optional certificate: a zero, or a one and the certificate.
pub open spec fn enc_opt_qc(o: Option<QcView>) -> Seq<u8> {
    match o {
        Some(qc) => seq![1u8] + enc_qc(qc),
        None => seq![0u8],
    }
}

pub open spec fn take_opt_qc(s: Seq<u8>) -> Option<(Option<QcView>, Seq<u8>)> {
    if s.len() == 0 || s[0] > 1 {
        None
    } else if s[0] == 0 {
        Some((None, s.skip(1)))
    } else {
        match take_qc(s.skip(1)) {
            Some((qc, rest)) => Some((Some(qc), rest)),
            None => None,
        }
    }
}

pub proof fn opt_qc_reads_back(o: Option<QcView>, tail: Seq<u8>)
    requires
        o matches Some(qc) ==> encodable_qc(qc),
    ensures
        take_opt_qc(enc_opt_qc(o) + tail) == Some((o, tail)),
{
    let s = enc_opt_qc(o) + tail;
    match o {
        Some(qc) => {
            assert(s[0] == 1);
            assert(s.skip(1) =~= enc_qc(qc) + tail);
            qc_reads_back(qc, tail);
        },
        None => {
            assert(s[0] == 0);
            assert(s.skip(1) =~= tail);
        },
    }
}

pub(crate) fn put_opt_qc(out: &mut Vec<u8>, o: &Option<QuorumCertificate>)
    ensures
        final(out)@ == old(out)@ + enc_opt_qc(crate::types::opt_qc(*o)),
{
    match o {
        Some(qc) => {
            out.push(1);
            put_qc(out, qc);
        },
        None => {
            out.push(0);
        },
    }
    assert(out@ =~= old(out)@ + enc_opt_qc(crate::types::opt_qc(*o)));
}

pub(crate) fn take_optional_certificate<'a>(s: &'a [u8]) -> (r: Option<(Option<QuorumCertificate>, &'a [u8])>)
    ensures
        match r {
            Some((o, rest)) => take_opt_qc(s@) == Some((crate::types::opt_qc(o), rest@)),
            None => take_opt_qc(s@) is None,
        },
{
    if s.len() == 0 {
        return None;
    }
    if s[0] > 1 {
        return None;
    }
    let rest = slice_subrange(s, 1, s.len());
    assert(rest@ =~= s@.skip(1));
    if s[0] == 0 {
        return Some((None, rest));
    }
    match take_certificate(rest) {
        Some((qc, tail)) => Some((Some(qc), tail)),
        None => None,
    }
}

pub open spec fn enc_timeout_vote(t: TimeoutVoteView) -> Seq<u8> {
    varint(t.view as nat) + enc_opt_qc(t.high_qc)
}

pub open spec fn take_timeout_vote(s: Seq<u8>) -> Option<(TimeoutVoteView, Seq<u8>)> {
    match take_varint(s) {
        Some((view, s1)) => match take_opt_qc(s1) {
            Some((high_qc, s2)) => Some((TimeoutVoteView { view: view as u64, high_qc }, s2)),
            None => None,
        },
        None => None,
    }
}

pub proof fn timeout_vote_reads_back(t: TimeoutVoteView, tail: Seq<u8>)
    requires
        t.high_qc matches Some(qc) ==> encodable_qc(qc),
    ensures
        take_timeout_vote(enc_timeout_vote(t) + tail) == Some((t, tail)),
{
    assert(enc_timeout_vote(t) + tail =~= varint(t.view as nat) + (enc_opt_qc(t.high_qc) + tail));
    varint_reads_back(t.view, enc_opt_qc(t.high_qc) + tail);
    opt_qc_reads_back(t.high_qc, tail);
}

pub(crate) fn put_timeout_vote(out: &mut Vec<u8>, t: &TimeoutVote)
    ensures
        final(out)@ == old(out)@ + enc_timeout_vote(t@),
{
    put_u64(out, t.view);
    put_opt_qc(out, &t.high_qc);
    assert(out@ =~= old(out)@ + enc_timeout_vote(t@));
}

pub(crate) fn take_vote<'a>(s: &'a [u8]) -> (r: Option<(TimeoutVote, &'a [u8])>)
    ensures
        match r {
            Some((t, rest)) => take_timeout_vote(s@) == Some((t@, rest@)),
            None => take_timeout_vote(s@) is None,
        },
{
    match take_u64(s) {
        Some((view, s1)) => match take_optional_certificate(s1) {
            Some((high_qc, s2)) => Some((TimeoutVote { view, high_qc }, s2)),
            None => None,
        },
        None => None,
    }
}

// ---- the stored records --------------------------------------------------

/// The stored form of the last view in which this replica voted.
pub fn encode_voted_view(view: u64) -> (r: Result<Vec<u8>, CodecError>)
    ensures
        r is Ok,
        r->Ok_0@ == varint(view as nat),
{
    let mut out: Vec<u8> = Vec::new();
    put_u64(&mut out, view);
    assert(out@ =~= varint(view as nat));
    Ok(out)
}

/// Inverse of [`encode_voted_view`]. Bytes behind the record are ignored.
pub fn decode_voted_view(bytes: &[u8]) -> (r: Result<u64, CodecError>)
    ensures
        match take_varint(bytes@) {
            Some((v, _)) => r is Ok && r->Ok_0 == v,
            None => r == Err::<u64, CodecError>(CodecError { record: Record::LastVotedView }),
        },
{
    match take_u64(bytes) {
        Some((v, _)) => Ok(v),
        None => Err(CodecError { record: Record::LastVotedView }),
    }
}

/// The stored form of the highest view in which this replica proposed.
pub fn encode_proposed_in_view(view: u64) -> (r: Result<Vec<u8>, CodecError>)
    ensures
        r is Ok,
        r->Ok_0@ == varint(view as nat),
{
    encode_voted_view(view)
}

/// Inverse of [`encode_proposed_in_view`]. Bytes behind the record are
/// ignored.
pub fn decode_proposed_in_view(bytes: &[u8]) -> (r: Result<u64, CodecError>)
    ensures
        match take_varint(bytes@) {
            Some((v, _)) => r is Ok && r->Ok_0 == v,
            None => r == Err::<u64, CodecError>(CodecError { record: Record::ProposedInView }),
        },
{
    match take_u64(bytes) {
        Some((v, _)) => Ok(v),
        None => Err(CodecError { record: Record::ProposedInView }),
    }
}

/// The stored form of a lock.
pub fn encode_locked(locked: &Locked) -> (r: Result<Vec<u8>, CodecError>)
    ensures
        r is Ok,
        r->Ok_0@ == enc_locked(*locked),
{
    let mut out: Vec<u8> = Vec::new();
    put_u64(&mut out, locked.view);
    put_u64(&mut out, locked.height);
    put_array(&mut out, &locked.block_hash);
    assert(out@ =~= enc_locked(*locked));
    Ok(out)
}

pub open spec fn parse_locked(s: Seq<u8>) -> Option<Locked> {
    match take_triple(s) {
        Some((view, height, block_hash)) => Some(Locked { view, height, block_hash }),
        None => None,
    }
}

/// Inverse of [`encode_locked`]. Bytes behind the record are ignored.
pub fn decode_locked(bytes: &[u8]) -> (r: Result<Locked, CodecError>)
    ensures
        r == (match parse_locked(bytes@) {
            Some(l) => Ok(l),
            None => Err::<Locked, CodecError>(CodecError { record: Record::Locked }),
        }),
{
    match take_two_and_digest(bytes) {
        Some((view, height, block_hash)) => Ok(Locked { view, height, block_hash }),
        None => Err(CodecError { record: Record::Locked }),
    }
}

/// The stored form of a quorum certificate.
pub fn encode_high_qc(qc: &QuorumCertificate) -> (r: Result<Vec<u8>, CodecError>)
    ensures
        r is Ok,
        r->Ok_0@ == enc_qc(qc@),
{
    let mut out: Vec<u8> = Vec::new();
    put_qc(&mut out, qc);
    assert(out@ =~= enc_qc(qc@));
    Ok(out)
}

pub open spec fn parse_qc(s: Seq<u8>) -> Option<QcView> {
    match take_qc(s) {
        Some((qc, _)) => Some(qc),
        None => None,
    }
}

/// Inverse of [`encode_high_qc`]. Bytes behind the record are ignored.
pub fn decode_high_qc(bytes: &[u8]) -> (r: Result<QuorumCertificate, CodecError>)
    ensures
        match parse_qc(bytes@) {
            Some(qc) => r is Ok && r->Ok_0@ == qc,
            None => r is Err && r->Err_0 == (CodecError { record: Record::HighQc }),
        },
{
    match take_certificate(bytes) {
        Some((qc, _)) => Ok(qc),
        None => Err(CodecError { record: Record::HighQc }),
    }
}

/// The stored form of a block.
pub fn encode_block(block: &Block) -> (r: Result<Vec<u8>, CodecError>)
    ensures
        r is Ok,
        r->Ok_0@ == enc_block(block@),
{
    let mut out: Vec<u8> = Vec::new();
    put_block(&mut out, block);
    assert(out@ =~= enc_block(block@));
    Ok(out)
}

pub open spec fn parse_draft(s: Seq<u8>) -> Option<DraftView> {
    match take_draft(s) {
        Some((d, _)) => Some(d),
        None => None,
    }
}

/// Inverse of [`encode_block`], but for the hash, which is not stored. Bytes
/// behind the record are ignored.
pub fn decode_block(bytes: &[u8]) -> (r: Result<BlockDraft, CodecError>)
    ensures
        match parse_draft(bytes@) {
            Some(d) => r is Ok && r->Ok_0@ == d,
            None => r is Err && r->Err_0 == (CodecError { record: Record::Block }),
        },
{
    match take_block_draft(bytes) {
        Some((d, _)) => Ok(d),
        None => Err(CodecError { record: Record::Block }),
    }
}

/// The stored form of the commit checkpoint.
pub fn encode_last_committed(lc: &LastCommitted) -> (r: Result<Vec<u8>, CodecError>)
    ensures
        r is Ok,
        r->Ok_0@ == enc_last_committed(*lc),
{
    let mut out: Vec<u8> = Vec::new();
    put_u64(&mut out, lc.height);
    put_u64(&mut out, lc.view);
    put_array(&mut out, &lc.last_committed_hash);
    assert(out@ =~= enc_last_committed(*lc));
    Ok(out)
}

pub open spec fn parse_last_committed(s: Seq<u8>) -> Option<LastCommitted> {
    match take_triple(s) {
        Some((height, view, last_committed_hash)) => Some(LastCommitted { height, view, last_committed_hash }),
        None => None,
    }
}

/// Inverse of [`encode_last_committed`]. Bytes behind the record are ignored.
pub fn decode_last_committed(bytes: &[u8]) -> (r: Result<LastCommitted, CodecError>)
    ensures
        r == (match parse_last_committed(bytes@) {
            Some(l) => Ok(l),
            None => Err::<LastCommitted, CodecError>(CodecError { record: Record::LastCommitted }),
        }),
{
    match take_two_and_digest(bytes) {
        Some((height, view, last_committed_hash)) => Ok(LastCommitted { height, view, last_committed_hash }),
        None => Err(CodecError { record: Record::LastCommitted }),
    }
}

/// The stored form of a timeout vote.
pub fn encode_timeout_vote(t: &TimeoutVote) -> (r: Result<Vec<u8>, CodecError>)
    ensures
        r is Ok,
        r->Ok_0@ == enc_timeout_vote(t@),
{
    let mut out: Vec<u8> = Vec::new();
    put_timeout_vote(&mut out, t);
    assert(out@ =~= enc_timeout_vote(t@));
    Ok(out)
}

pub open spec fn parse_timeout_vote(s: Seq<u8>) -> Option<TimeoutVoteView> {
    match take_timeout_vote(s) {
        Some((t, _)) => Some(t),
        None => None,
    }
}

/// Inverse of [`encode_timeout_vote`]. Bytes behind the record are ignored.
pub fn decode_timeout_vote(bytes: &[u8]) -> (r: Result<TimeoutVote, CodecError>)
    ensures
        match parse_timeout_vote(bytes@) {
            Some(t) => r is Ok && r->Ok_0@ == t,
            None => r is Err && r->Err_0 == (CodecError { record: Record::TimeoutVote }),
        },
{
    match take_vote(bytes) {
        Some((t, _)) => Ok(t),
        None => Err(CodecError { record: Record::TimeoutVote }),
    }
}

// ---- what was written is what is read ------------------------------------

/// A stored view reads back as itself.
pub proof fn stored_view_reads_back(view: u64)
    ensures
        take_varint(varint(view as nat)) matches Some((v, _)) && v == view,
{
    varint_reads_back(view, seq![]);
    assert(varint(view as nat) + Seq::<u8>::empty() =~= varint(view as nat));
}

/// A stored lock reads back as itself.
pub proof fn stored_lock_reads_back(l: Locked)
    ensures
        parse_locked(enc_locked(l)) == Some(l),
{
    lemma_triple(l.view, l.height, l.block_hash);
}

/// A stored certificate reads back as itself.
pub proof fn stored_qc_reads_back(qc: QcView)
    requires
        encodable_qc(qc),
    ensures
        parse_qc(enc_qc(qc)) == Some(qc),
{
    qc_reads_back(qc, seq![]);
    assert(enc_qc(qc) + Seq::<u8>::empty() =~= enc_qc(qc));
}

/// The content of a stored block reads back as itself.
pub proof fn stored_block_reads_back(b: BlockView)
    requires
        encodable_items(b.commands),
    ensures
        parse_draft(enc_block(b)) == Some(b.content()),
{
    draft_reads_back(b.content(), seq![]);
    assert(enc_block(b) + Seq::<u8>::empty() =~= enc_block(b));
}

/// A stored commit checkpoint reads back as itself.
pub proof fn stored_checkpoint_reads_back(l: LastCommitted)
    ensures
        parse_last_committed(enc_last_committed(l)) == Some(l),
{
    lemma_triple(l.height, l.view, l.last_committed_hash);
}

/// A stored timeout vote reads back as itself.
pub proof fn stored_timeout_vote_reads_back(t: TimeoutVoteView)
    requires
        t.high_qc matches Some(qc) ==> encodable_qc(qc),
    ensures
        parse_timeout_vote(enc_timeout_vote(t)) == Some(t),
{
    timeout_vote_reads_back(t, seq![]);
    assert(enc_timeout_vote(t) + Seq::<u8>::empty() =~= enc_timeout_vote(t));
}

/// The lists of every certificate in memory can be written down.
pub proof fn certificate_is_encodable(qc: &QuorumCertificate)
    ensures
        encodable_qc(qc@),
{
    assert(qc.signers.len() == qc.signers@.len());
    assert(qc.signatures.len() == qc.signatures@.len());
}

/// The commands of every block in memory can be written down.
pub proof fn block_is_encodable(b: &Block)
    ensures
        encodable_items(b@.commands),
{
    assert(b.commands.len() == b.commands@.len());
    assert forall|i: int| 0 <= i < b@.commands.len() implies (#[trigger] b@.commands[i]).len() <= u64::MAX by {
        assert(b.commands@[i].len() == b.commands@[i]@.len());
    }
}

} // verus!
