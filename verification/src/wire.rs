//! The messages that replicas exchange, and their form on the wire.
//!
//! A message is the tag of its kind and then its fields in order. Blocks go
//! without their content hash; whoever receives one computes it.

use vstd::prelude::*;
use vstd::slice::slice_subrange;

use crate::bls_partial::{deserialize, enc_partial, partial_reads_back, serialize, take_partial, BlsPartialSig};
use crate::codec::{
    array_reads_back, bytes_read_back, draft_reads_back, enc_bytes, enc_draft, enc_qc, enc_timeout_vote,
    encodable_items, encodable_qc, put_array, put_bytes, put_draft, put_qc, put_timeout_vote, put_u32, put_u64,
    qc_reads_back, take_array, take_array32, take_block_draft, take_byte_string, take_bytes, take_certificate,
    take_draft, take_qc, take_timeout_vote, take_u32, take_u64, take_vote, timeout_vote_reads_back,
    varint32_reads_back, varint_reads_back, CodecError, Record,
};
use crate::history_codec::{lemma_key_of, put_key, take_key, take_key_bytes};
use crate::messages::{NewView, Signed, Vote};
use crate::node::admission::{MessageKind, KINDS};
use crate::storage::opt_bytes;
use crate::trusted::{take_varint, take_varint32, varint};
use crate::types::{BlockDraft, BlockHash, DraftView, QcView, QuorumCertificate, TimeoutVote, TimeoutVoteView};
use crate::validator_set::NodeId;

verus! {

/// A proposal on the wire.
#[derive(Debug, PartialEq, Eq)]
pub struct ProposalPayload {
    pub block: BlockDraft,
    pub justify: QuorumCertificate,
}

/// The answer to a request for a block. It names the hash that was asked
/// for, so that the signature binds the answer to the request; the block is
/// missing where the responder does not have it.
#[derive(Debug, PartialEq, Eq)]
pub struct BlockResponsePayload {
    pub requested_hash: BlockHash,
    pub block: Option<BlockDraft>,
}

/// Everything that goes over a peer connection. The order of the variants is
/// part of the wire format.
#[derive(Debug, PartialEq, Eq)]
pub enum WireMessage {
    Proposal(Signed<ProposalPayload>),
    /// A vote, on chains with BLS keys with a partial signature beside it.
    Vote(Signed<Vote>, Option<BlsPartialSig>),
    NewView(Signed<NewView>),
    TimeoutVote(Signed<TimeoutVote>),
    BlockRequest(BlockHash),
    BlockResponse(Signed<BlockResponsePayload>),
    /// The latest snapshot, or the one at a height.
    SnapshotManifestRequest { height: Option<u64> },
    /// A manifest as its producer wrote it down, if there is one.
    SnapshotManifestResponse(Option<Vec<u8>>),
    SnapshotChunkRequest { at: u64, chunk_idx: u32 },
    SnapshotChunkResponse { at: u64, chunk_idx: u32, payload: Option<Vec<u8>> },
}

/// Who signed, and the signature.
pub struct Seal {
    pub signer: NodeId,
    pub sig: [u8; 64],
}

/// A message as a value.
pub enum WireView {
    Proposal(DraftView, QcView, Seal),
    Vote(Vote, Seal, Option<BlsPartialSig>),
    NewView(QcView, Seal),
    TimeoutVote(TimeoutVoteView, Seal),
    BlockRequest(BlockHash),
    BlockResponse(BlockHash, Option<DraftView>, Seal),
    SnapshotManifestRequest(Option<u64>),
    SnapshotManifestResponse(Option<Seq<u8>>),
    SnapshotChunkRequest(u64, u32),
    SnapshotChunkResponse(u64, u32, Option<Seq<u8>>),
}

pub open spec fn seal_of<T>(s: Signed<T>) -> Seal {
    Seal { signer: s.signer, sig: s.sig }
}

pub open spec fn opt_draft(o: Option<BlockDraft>) -> Option<DraftView> {
    match o {
        Some(d) => Some(d@),
        None => None,
    }
}

impl View for WireMessage {
    type V = WireView;

    open spec fn view(&self) -> WireView {
        match *self {
            WireMessage::Proposal(s) => WireView::Proposal(s.payload.block@, s.payload.justify@, seal_of(s)),
            WireMessage::Vote(s, partial) => WireView::Vote(s.payload, seal_of(s), partial),
            WireMessage::NewView(s) => WireView::NewView(s.payload.high_qc@, seal_of(s)),
            WireMessage::TimeoutVote(s) => WireView::TimeoutVote(s.payload@, seal_of(s)),
            WireMessage::BlockRequest(h) => WireView::BlockRequest(h),
            WireMessage::BlockResponse(s) => WireView::BlockResponse(
                s.payload.requested_hash,
                opt_draft(s.payload.block),
                seal_of(s),
            ),
            WireMessage::SnapshotManifestRequest { height } => WireView::SnapshotManifestRequest(height),
            WireMessage::SnapshotManifestResponse(m) => WireView::SnapshotManifestResponse(opt_bytes(m)),
            WireMessage::SnapshotChunkRequest { at, chunk_idx } => WireView::SnapshotChunkRequest(at, chunk_idx),
            WireMessage::SnapshotChunkResponse { at, chunk_idx, payload } => WireView::SnapshotChunkResponse(
                at,
                chunk_idx,
                opt_bytes(payload),
            ),
        }
    }
}

impl WireView {
    pub open spec fn kind(self) -> MessageKind {
        match self {
            WireView::Proposal(..) => MessageKind::Proposal,
            WireView::Vote(..) => MessageKind::Vote,
            WireView::NewView(..) => MessageKind::NewView,
            WireView::TimeoutVote(..) => MessageKind::TimeoutVote,
            WireView::BlockRequest(_) => MessageKind::BlockRequest,
            WireView::BlockResponse(..) => MessageKind::BlockResponse,
            WireView::SnapshotManifestRequest(_) => MessageKind::SnapshotManifestRequest,
            WireView::SnapshotManifestResponse(_) => MessageKind::SnapshotManifestResponse,
            WireView::SnapshotChunkRequest(..) => MessageKind::SnapshotChunkRequest,
            WireView::SnapshotChunkResponse(..) => MessageKind::SnapshotChunkResponse,
        }
    }
}

// ---- pieces --------------------------------------------------------------

/// An optional value: a zero, or a one and the value.
pub open spec fn enc_opt(o: Option<Seq<u8>>) -> Seq<u8> {
    match o {
        Some(b) => seq![1u8] + b,
        None => seq![0u8],
    }
}

/// What stands behind the mark of an optional value, and whether there is a
/// value.
pub open spec fn take_mark(s: Seq<u8>) -> Option<(bool, Seq<u8>)> {
    if s.len() == 0 || s[0] > 1 {
        None
    } else {
        Some((s[0] == 1, s.skip(1)))
    }
}

pub proof fn mark_reads_back(b: bool, tail: Seq<u8>)
    ensures
        take_mark(seq![if b {
            1u8
        } else {
            0u8
        }] + tail) == Some((b, tail)),
{
    let s = seq![if b {
        1u8
    } else {
        0u8
    }] + tail;
    assert(s.skip(1) =~= tail);
}

pub(crate) fn take_mark_byte<'a>(s: &'a [u8]) -> (r: Option<(bool, &'a [u8])>)
    ensures
        match r {
            Some((b, rest)) => take_mark(s@) == Some((b, rest@)),
            None => take_mark(s@) is None,
        },
{
    if s.len() == 0 {
        return None;
    }
    if s[0] > 1 {
        return None;
    }
    let rest = slice_subrange(s, 1, s.len());
    assert(rest@ =~= s@.skip(1));
    Some((s[0] == 1, rest))
}

pub open spec fn enc_seal(s: Seal) -> Seq<u8> {
    s.signer@ + s.sig@
}

pub open spec fn take_seal(s: Seq<u8>) -> Option<(Seal, Seq<u8>)> {
    match take_array(s) {
        Some((signer, s1)) => match take_key::<64>(s1) {
            Some((sig, s2)) => Some((Seal { signer, sig }, s2)),
            None => None,
        },
        None => None,
    }
}

proof fn key_reads_back<const N: usize>(k: [u8; N], tail: Seq<u8>)
    ensures
        take_key::<N>(k@ + tail) == Some((k, tail)),
{
    let t = k@ + tail;
    assert(t.take(N as int) =~= k@);
    assert(t.skip(N as int) =~= tail);
    lemma_key_of(k);
}

proof fn seal_reads_back(x: Seal, tail: Seq<u8>)
    ensures
        take_seal(enc_seal(x) + tail) == Some((x, tail)),
{
    assert(enc_seal(x) + tail =~= x.signer@ + (x.sig@ + tail));
    array_reads_back(x.signer, x.sig@ + tail);
    key_reads_back::<64>(x.sig, tail);
}

fn put_seal<T>(out: &mut Vec<u8>, s: &Signed<T>)
    ensures
        final(out)@ == old(out)@ + enc_seal(seal_of(*s)),
{
    put_array(out, &s.signer);
    put_key::<64>(out, &s.sig);
    assert(out@ =~= old(out)@ + enc_seal(seal_of(*s)));
}

/// A seal, and the payload that it goes with.
fn take_signed<'a, T>(s: &'a [u8], payload: T) -> (r: Option<(Signed<T>, &'a [u8])>)
    ensures
        match r {
            Some((x, rest)) => x.payload == payload && take_seal(s@) == Some((seal_of(x), rest@)),
            None => take_seal(s@) is None,
        },
{
    match take_array32(s) {
        Some((signer, s1)) => match take_key_bytes::<64>(s1) {
            Some((sig, s2)) => Some((Signed { payload, signer, sig }, s2)),
            None => None,
        },
        None => None,
    }
}

pub open spec fn enc_opt_draft(o: Option<DraftView>) -> Seq<u8> {
    match o {
        Some(d) => enc_opt(Some(enc_draft(d))),
        None => enc_opt(None),
    }
}

pub open spec fn take_opt_draft(s: Seq<u8>) -> Option<(Option<DraftView>, Seq<u8>)> {
    match take_mark(s) {
        None => None,
        Some((false, rest)) => Some((None, rest)),
        Some((true, rest)) => match take_draft(rest) {
            Some((d, end)) => Some((Some(d), end)),
            None => None,
        },
    }
}

proof fn opt_draft_reads_back(o: Option<DraftView>, tail: Seq<u8>)
    requires
        o matches Some(d) ==> encodable_items(d.commands),
    ensures
        take_opt_draft(enc_opt_draft(o) + tail) == Some((o, tail)),
{
    match o {
        Some(d) => {
            assert(enc_opt_draft(o) + tail =~= seq![1u8] + (enc_draft(d) + tail));
            mark_reads_back(true, enc_draft(d) + tail);
            draft_reads_back(d, tail);
        },
        None => {
            mark_reads_back(false, tail);
        },
    }
}

pub open spec fn enc_opt_bytes(o: Option<Seq<u8>>) -> Seq<u8> {
    match o {
        Some(b) => enc_opt(Some(enc_bytes(b))),
        None => enc_opt(None),
    }
}

pub open spec fn take_opt_bytes(s: Seq<u8>) -> Option<(Option<Seq<u8>>, Seq<u8>)> {
    match take_mark(s) {
        None => None,
        Some((false, rest)) => Some((None, rest)),
        Some((true, rest)) => match take_bytes(rest) {
            Some((b, end)) => Some((Some(b), end)),
            None => None,
        },
    }
}

pub proof fn opt_bytes_read_back(o: Option<Seq<u8>>, tail: Seq<u8>)
    requires
        o matches Some(b) ==> b.len() <= u64::MAX,
    ensures
        take_opt_bytes(enc_opt_bytes(o) + tail) == Some((o, tail)),
{
    match o {
        Some(b) => {
            assert(enc_opt_bytes(o) + tail =~= seq![1u8] + (enc_bytes(b) + tail));
            mark_reads_back(true, enc_bytes(b) + tail);
            bytes_read_back(b, tail);
        },
        None => {
            mark_reads_back(false, tail);
        },
    }
}

pub(crate) fn put_opt_bytes(out: &mut Vec<u8>, o: &Option<Vec<u8>>)
    ensures
        final(out)@ == old(out)@ + enc_opt_bytes(opt_bytes(*o)),
{
    match o {
        Some(b) => {
            out.push(1);
            put_bytes(out, b.as_slice());
        },
        None => {
            out.push(0);
        },
    }
    assert(out@ =~= old(out)@ + enc_opt_bytes(opt_bytes(*o)));
}

pub(crate) fn take_optional_bytes<'a>(s: &'a [u8]) -> (r: Option<(Option<Vec<u8>>, &'a [u8])>)
    ensures
        match r {
            Some((o, rest)) => take_opt_bytes(s@) == Some((opt_bytes(o), rest@)),
            None => take_opt_bytes(s@) is None,
        },
{
    match take_mark_byte(s) {
        None => None,
        Some((false, rest)) => Some((None, rest)),
        Some((true, rest)) => match take_byte_string(rest) {
            Some((b, end)) => Some((Some(b), end)),
            None => None,
        },
    }
}

pub open spec fn enc_opt_u64(o: Option<u64>) -> Seq<u8> {
    match o {
        Some(v) => enc_opt(Some(varint(v as nat))),
        None => enc_opt(None),
    }
}

pub open spec fn take_opt_u64(s: Seq<u8>) -> Option<(Option<u64>, Seq<u8>)> {
    match take_mark(s) {
        None => None,
        Some((false, rest)) => Some((None, rest)),
        Some((true, rest)) => match take_varint(rest) {
            Some((v, end)) => Some((Some(v as u64), end)),
            None => None,
        },
    }
}

proof fn opt_u64_reads_back(o: Option<u64>, tail: Seq<u8>)
    ensures
        take_opt_u64(enc_opt_u64(o) + tail) == Some((o, tail)),
{
    match o {
        Some(v) => {
            assert(enc_opt_u64(o) + tail =~= seq![1u8] + (varint(v as nat) + tail));
            mark_reads_back(true, varint(v as nat) + tail);
            varint_reads_back(v, tail);
        },
        None => {
            mark_reads_back(false, tail);
        },
    }
}

// ---- messages ------------------------------------------------------------

/// The fields of a message.
pub open spec fn enc_fields(m: WireView) -> Seq<u8> {
    match m {
        WireView::Proposal(d, qc, s) => enc_draft(d) + enc_qc(qc) + enc_seal(s),
        WireView::Vote(v, s, p) => varint(v.view as nat) + v.block_hash@ + enc_seal(s) + enc_partial(p),
        WireView::NewView(qc, s) => enc_qc(qc) + enc_seal(s),
        WireView::TimeoutVote(t, s) => enc_timeout_vote(t) + enc_seal(s),
        WireView::BlockRequest(h) => h@,
        WireView::BlockResponse(h, d, s) => h@ + enc_opt_draft(d) + enc_seal(s),
        WireView::SnapshotManifestRequest(h) => enc_opt_u64(h),
        WireView::SnapshotManifestResponse(b) => enc_opt_bytes(b),
        WireView::SnapshotChunkRequest(h, i) => varint(h as nat) + varint(i as nat),
        WireView::SnapshotChunkResponse(h, i, b) => varint(h as nat) + varint(i as nat) + enc_opt_bytes(b),
    }
}

/// A message on the wire.
pub open spec fn enc_wire(m: WireView) -> Seq<u8> {
    varint(m.kind().tag() as nat) + enc_fields(m)
}

/// The fields of a message of the given kind, off the front of `s`.
pub open spec fn take_fields(s: Seq<u8>, tag: nat) -> Option<WireView> {
    if tag == 0 {
        match take_draft(s) {
            Some((d, s1)) => match take_qc(s1) {
                Some((qc, s2)) => match take_seal(s2) {
                    Some((x, _)) => Some(WireView::Proposal(d, qc, x)),
                    None => None,
                },
                None => None,
            },
            None => None,
        }
    } else if tag == 1 {
        match take_varint(s) {
            Some((view, s1)) => match take_array(s1) {
                Some((block_hash, s2)) => match take_seal(s2) {
                    Some((x, s3)) => match take_partial(s3) {
                        Ok((p, _)) => Some(WireView::Vote(Vote { view: view as u64, block_hash }, x, p)),
                        Err(_) => None,
                    },
                    None => None,
                },
                None => None,
            },
            None => None,
        }
    } else if tag == 2 {
        match take_qc(s) {
            Some((qc, s1)) => match take_seal(s1) {
                Some((x, _)) => Some(WireView::NewView(qc, x)),
                None => None,
            },
            None => None,
        }
    } else if tag == 3 {
        match take_timeout_vote(s) {
            Some((t, s1)) => match take_seal(s1) {
                Some((x, _)) => Some(WireView::TimeoutVote(t, x)),
                None => None,
            },
            None => None,
        }
    } else if tag == 4 {
        match take_array(s) {
            Some((h, _)) => Some(WireView::BlockRequest(h)),
            None => None,
        }
    } else if tag == 5 {
        match take_array(s) {
            Some((h, s1)) => match take_opt_draft(s1) {
                Some((d, s2)) => match take_seal(s2) {
                    Some((x, _)) => Some(WireView::BlockResponse(h, d, x)),
                    None => None,
                },
                None => None,
            },
            None => None,
        }
    } else if tag == 6 {
        match take_opt_u64(s) {
            Some((h, _)) => Some(WireView::SnapshotManifestRequest(h)),
            None => None,
        }
    } else if tag == 7 {
        match take_opt_bytes(s) {
            Some((b, _)) => Some(WireView::SnapshotManifestResponse(b)),
            None => None,
        }
    } else if tag == 8 {
        match take_varint(s) {
            Some((h, s1)) => match take_varint32(s1) {
                Some((i, _)) => Some(WireView::SnapshotChunkRequest(h as u64, i as u32)),
                None => None,
            },
            None => None,
        }
    } else if tag == 9 {
        match take_varint(s) {
            Some((h, s1)) => match take_varint32(s1) {
                Some((i, s2)) => match take_opt_bytes(s2) {
                    Some((b, _)) => Some(WireView::SnapshotChunkResponse(h as u64, i as u32, b)),
                    None => None,
                },
                None => None,
            },
            None => None,
        }
    } else {
        None
    }
}

/// The message that the bytes stand for. Bytes behind it are ignored.
pub open spec fn parse_wire(s: Seq<u8>) -> Option<WireView> {
    match take_varint32(s) {
        Some((tag, s1)) => take_fields(s1, tag),
        None => None,
    }
}

/// Encodes a message.
pub fn encode_wire(m: &WireMessage) -> (r: Vec<u8>)
    ensures
        r@ == enc_wire(m@),
{
    let mut out: Vec<u8> = Vec::new();
    match m {
        WireMessage::Proposal(s) => {
            put_u32(&mut out, 0);
            put_draft(&mut out, &s.payload.block);
            put_qc(&mut out, &s.payload.justify);
            put_seal(&mut out, s);
        },
        WireMessage::Vote(s, partial) => {
            put_u32(&mut out, 1);
            put_u64(&mut out, s.payload.view);
            put_array(&mut out, &s.payload.block_hash);
            put_seal(&mut out, s);
            serialize(partial, &mut out);
        },
        WireMessage::NewView(s) => {
            put_u32(&mut out, 2);
            put_qc(&mut out, &s.payload.high_qc);
            put_seal(&mut out, s);
        },
        WireMessage::TimeoutVote(s) => {
            put_u32(&mut out, 3);
            put_timeout_vote(&mut out, &s.payload);
            put_seal(&mut out, s);
        },
        WireMessage::BlockRequest(h) => {
            put_u32(&mut out, 4);
            put_array(&mut out, h);
        },
        WireMessage::BlockResponse(s) => {
            put_u32(&mut out, 5);
            put_array(&mut out, &s.payload.requested_hash);
            match &s.payload.block {
                Some(d) => {
                    out.push(1);
                    put_draft(&mut out, d);
                },
                None => {
                    out.push(0);
                },
            }
            put_seal(&mut out, s);
        },
        WireMessage::SnapshotManifestRequest { height } => {
            put_u32(&mut out, 6);
            match height {
                Some(h) => {
                    out.push(1);
                    put_u64(&mut out, *h);
                },
                None => {
                    out.push(0);
                },
            }
        },
        WireMessage::SnapshotManifestResponse(b) => {
            put_u32(&mut out, 7);
            put_opt_bytes(&mut out, b);
        },
        WireMessage::SnapshotChunkRequest { at, chunk_idx } => {
            put_u32(&mut out, 8);
            put_u64(&mut out, *at);
            put_u32(&mut out, *chunk_idx);
        },
        WireMessage::SnapshotChunkResponse { at, chunk_idx, payload } => {
            put_u32(&mut out, 9);
            put_u64(&mut out, *at);
            put_u32(&mut out, *chunk_idx);
            put_opt_bytes(&mut out, payload);
        },
    }
    assert(out@ =~= enc_wire(m@));
    out
}

fn take_proposal(s: &[u8]) -> (r: Option<WireMessage>)
    ensures
        match r {
            Some(m) => take_fields(s@, 0) == Some(m@),
            None => take_fields(s@, 0) is None,
        },
{
    match take_block_draft(s) {
        Some((block, s1)) => match take_certificate(s1) {
            Some((justify, s2)) => match take_signed(s2, ProposalPayload { block, justify }) {
                Some((x, _)) => Some(WireMessage::Proposal(x)),
                None => None,
            },
            None => None,
        },
        None => None,
    }
}

fn take_vote_message(s: &[u8]) -> (r: Option<WireMessage>)
    ensures
        match r {
            Some(m) => take_fields(s@, 1) == Some(m@),
            None => take_fields(s@, 1) is None,
        },
{
    match take_u64(s) {
        Some((view, s1)) => match take_array32(s1) {
            Some((block_hash, s2)) => match take_signed(s2, Vote { view, block_hash }) {
                Some((x, s3)) => match deserialize(s3) {
                    Ok((p, _)) => Some(WireMessage::Vote(x, p)),
                    Err(_) => None,
                },
                None => None,
            },
            None => None,
        },
        None => None,
    }
}

fn take_new_view(s: &[u8]) -> (r: Option<WireMessage>)
    ensures
        match r {
            Some(m) => take_fields(s@, 2) == Some(m@),
            None => take_fields(s@, 2) is None,
        },
{
    match take_certificate(s) {
        Some((high_qc, s1)) => match take_signed(s1, NewView { high_qc }) {
            Some((x, _)) => Some(WireMessage::NewView(x)),
            None => None,
        },
        None => None,
    }
}

fn take_timeout_message(s: &[u8]) -> (r: Option<WireMessage>)
    ensures
        match r {
            Some(m) => take_fields(s@, 3) == Some(m@),
            None => take_fields(s@, 3) is None,
        },
{
    match take_vote(s) {
        Some((t, s1)) => match take_signed(s1, t) {
            Some((x, _)) => Some(WireMessage::TimeoutVote(x)),
            None => None,
        },
        None => None,
    }
}

fn take_block_response(s: &[u8]) -> (r: Option<WireMessage>)
    ensures
        match r {
            Some(m) => take_fields(s@, 5) == Some(m@),
            None => take_fields(s@, 5) is None,
        },
{
    let (requested_hash, s1) = match take_array32(s) {
        Some((h, rest)) => (h, rest),
        None => {
            return None;
        },
    };
    let (block, s2) = match take_mark_byte(s1) {
        None => {
            return None;
        },
        Some((false, rest)) => (None, rest),
        Some((true, rest)) => match take_block_draft(rest) {
            Some((d, end)) => (Some(d), end),
            None => {
                return None;
            },
        },
    };
    match take_signed(s2, BlockResponsePayload { requested_hash, block }) {
        Some((x, _)) => Some(WireMessage::BlockResponse(x)),
        None => None,
    }
}

fn take_manifest_request(s: &[u8]) -> (r: Option<WireMessage>)
    ensures
        match r {
            Some(m) => take_fields(s@, 6) == Some(m@),
            None => take_fields(s@, 6) is None,
        },
{
    match take_mark_byte(s) {
        None => None,
        Some((false, _)) => Some(WireMessage::SnapshotManifestRequest { height: None }),
        Some((true, rest)) => match take_u64(rest) {
            Some((h, _)) => Some(WireMessage::SnapshotManifestRequest { height: Some(h) }),
            None => None,
        },
    }
}

fn take_chunk_message(s: &[u8], response: bool) -> (r: Option<WireMessage>)
    ensures
        match r {
            Some(m) => take_fields(s@, if response {
                9
            } else {
                8
            }) == Some(m@),
            None => take_fields(s@, if response {
                9
            } else {
                8
            }) is None,
        },
{
    let (at, s1) = match take_u64(s) {
        Some((h, rest)) => (h, rest),
        None => {
            return None;
        },
    };
    let (chunk_idx, s2) = match take_u32(s1) {
        Some((i, rest)) => (i, rest),
        None => {
            return None;
        },
    };
    if !response {
        return Some(WireMessage::SnapshotChunkRequest { at, chunk_idx });
    }
    match take_optional_bytes(s2) {
        Some((payload, _)) => Some(WireMessage::SnapshotChunkResponse { at, chunk_idx, payload }),
        None => None,
    }
}

/// Decodes a message. Bytes behind it are ignored; a tag that is no
/// message's is refused.
pub fn decode_wire(bytes: &[u8]) -> (r: Result<WireMessage, CodecError>)
    ensures
        match parse_wire(bytes@) {
            Some(m) => r is Ok && r->Ok_0@ == m,
            None => r is Err && r->Err_0 == (CodecError { record: Record::WireMessage }),
        },
{
    let found = match take_u32(bytes) {
        None => None,
        Some((tag, s)) => match MessageKind::from_wire_tag(if tag < KINDS as u32 {
            tag as u8
        } else {
            KINDS
        }) {
            None => None,
            Some(MessageKind::Proposal) => take_proposal(s),
            Some(MessageKind::Vote) => take_vote_message(s),
            Some(MessageKind::NewView) => take_new_view(s),
            Some(MessageKind::TimeoutVote) => take_timeout_message(s),
            Some(MessageKind::BlockRequest) => match take_array32(s) {
                Some((h, _)) => Some(WireMessage::BlockRequest(h)),
                None => None,
            },
            Some(MessageKind::BlockResponse) => take_block_response(s),
            Some(MessageKind::SnapshotManifestRequest) => take_manifest_request(s),
            Some(MessageKind::SnapshotManifestResponse) => match take_optional_bytes(s) {
                Some((b, _)) => Some(WireMessage::SnapshotManifestResponse(b)),
                None => None,
            },
            Some(MessageKind::SnapshotChunkRequest) => take_chunk_message(s, false),
            Some(MessageKind::SnapshotChunkResponse) => take_chunk_message(s, true),
        },
    };
    match found {
        Some(m) => Ok(m),
        None => Err(CodecError { record: Record::WireMessage }),
    }
}

// ---- laws ----------------------------------------------------------------

/// The lists in the message are short enough to be written down, as those of
/// every message in memory are.
pub open spec fn encodable_wire(m: WireView) -> bool {
    match m {
        WireView::Proposal(d, qc, _) => encodable_items(d.commands) && encodable_qc(qc),
        WireView::NewView(qc, _) => encodable_qc(qc),
        WireView::TimeoutVote(t, _) => t.high_qc matches Some(qc) ==> encodable_qc(qc),
        WireView::BlockResponse(_, d, _) => d matches Some(x) ==> encodable_items(x.commands),
        WireView::SnapshotManifestResponse(b) => b matches Some(x) ==> x.len() <= u64::MAX,
        WireView::SnapshotChunkResponse(_, _, b) => b matches Some(x) ==> x.len() <= u64::MAX,
        _ => true,
    }
}

/// What one replica sends, the other reads.
pub proof fn messages_read_back(m: WireView)
    requires
        encodable_wire(m),
    ensures
        parse_wire(enc_wire(m)) == Some(m),
{
    let none = Seq::<u8>::empty();
    let tag = m.kind().tag();
    let f = enc_fields(m);
    varint32_reads_back(tag as u32, f);
    match m {
        WireView::Proposal(d, qc, s) => {
            assert(f =~= enc_draft(d) + (enc_qc(qc) + (enc_seal(s) + none)));
            draft_reads_back(d, enc_qc(qc) + (enc_seal(s) + none));
            qc_reads_back(qc, enc_seal(s) + none);
            seal_reads_back(s, none);
        },
        WireView::Vote(v, s, p) => {
            let t2 = enc_seal(s) + (enc_partial(p) + none);
            assert(f =~= varint(v.view as nat) + (v.block_hash@ + t2));
            varint_reads_back(v.view, v.block_hash@ + t2);
            array_reads_back(v.block_hash, t2);
            seal_reads_back(s, enc_partial(p) + none);
            partial_reads_back(p, none);
        },
        WireView::NewView(qc, s) => {
            assert(f =~= enc_qc(qc) + (enc_seal(s) + none));
            qc_reads_back(qc, enc_seal(s) + none);
            seal_reads_back(s, none);
        },
        WireView::TimeoutVote(t, s) => {
            assert(f =~= enc_timeout_vote(t) + (enc_seal(s) + none));
            timeout_vote_reads_back(t, enc_seal(s) + none);
            seal_reads_back(s, none);
        },
        WireView::BlockRequest(h) => {
            assert(f =~= h@ + none);
            array_reads_back(h, none);
        },
        WireView::BlockResponse(h, d, s) => {
            let t1 = enc_opt_draft(d) + (enc_seal(s) + none);
            assert(f =~= h@ + t1);
            array_reads_back(h, t1);
            opt_draft_reads_back(d, enc_seal(s) + none);
            seal_reads_back(s, none);
        },
        WireView::SnapshotManifestRequest(h) => {
            assert(f =~= enc_opt_u64(h) + none);
            opt_u64_reads_back(h, none);
        },
        WireView::SnapshotManifestResponse(b) => {
            assert(f =~= enc_opt_bytes(b) + none);
            opt_bytes_read_back(b, none);
        },
        WireView::SnapshotChunkRequest(h, i) => {
            assert(f =~= varint(h as nat) + (varint(i as nat) + none));
            varint_reads_back(h, varint(i as nat) + none);
            varint32_reads_back(i, none);
        },
        WireView::SnapshotChunkResponse(h, i, b) => {
            let t1 = varint(i as nat) + (enc_opt_bytes(b) + none);
            assert(f =~= varint(h as nat) + t1);
            varint_reads_back(h, t1);
            varint32_reads_back(i, enc_opt_bytes(b) + none);
            opt_bytes_read_back(b, none);
        },
    }
}

/// The first byte of a message tells its kind, so that a frame can be judged
/// before it is decoded.
pub proof fn the_first_byte_is_the_tag(m: WireView)
    ensures
        enc_wire(m).len() > 0,
        enc_wire(m)[0] == m.kind().tag(),
{
    let t = m.kind().tag() as nat;
    assert(varint(t) =~= seq![t as u8]);
    assert(enc_wire(m)[0] == varint(t)[0]);
}

} // verus!
