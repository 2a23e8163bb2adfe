//! The order of fields in what is stored and sent. Replicas of different
//! builds read each other by it.

use vstd::prelude::*;

use crate::bls_partial::{enc_partial, BlsPartialSig};
use crate::bytes::Bytes32;
use crate::codec::{enc_draft, enc_header, enc_last_committed, enc_list, enc_locked, enc_qc, enc_timeout_vote};
use crate::digests::{genuine, sealed, Digests};
use crate::history_codec::{enc_boundary, enc_committee, enc_entry, enc_history, enc_keys, enc_member, enc_timeline};
use crate::key_history::{KeyEntry, Timelines};
use crate::messages::Vote;
use crate::trusted::varint;
use crate::types::{set_count, BlockHeader, BlockView, DraftView, LastCommitted, Locked, QcView, TimeoutVoteView};
use crate::validator_history::HistoryView;
use crate::validator_set::{Member, NodeId};
use crate::wire::{enc_fields, enc_wire, Seal, WireView};

verus! {

/// Records are their fields in order: integers of variable length, digests as
/// they are, an optional value behind a zero or a one.
pub proof fn records_are_their_fields_in_order(
    l: Locked,
    c: LastCommitted,
    t: TimeoutVoteView,
    h: BlockHeader,
    commands: Seq<Seq<u8>>,
)
    ensures
        enc_locked(l) == varint(l.view as nat) + varint(l.height as nat) + l.block_hash@,
        enc_last_committed(c) == varint(c.height as nat) + varint(c.view as nat) + c.last_committed_hash@,
        t.high_qc is None ==> enc_timeout_vote(t) == varint(t.view as nat) + seq![0u8],
        t.high_qc matches Some(qc) ==> enc_timeout_vote(t) == varint(t.view as nat) + seq![1u8] + enc_qc(qc),
        enc_header(h) == h.parent_hash@ + varint(h.height as nat) + varint(h.view as nat) + h.proposer@
            + h.state_commitment@ + h.commands_commitment@ + h.validator_history_commitment@,
        enc_draft(DraftView { header: h, commands }) == enc_header(h) + enc_list(commands),
{
    if let Some(qc) = t.high_qc {
        assert(varint(t.view as nat) + (seq![1u8] + enc_qc(qc)) =~= varint(t.view as nat) + seq![1u8] + enc_qc(qc));
    }
}

/// A list is the number of its items and then the items. A committee lists
/// identity and weight of each member, a history the view and the committee of
/// each boundary, a key history the identity and the keys of each validator,
/// each key behind the view that it is in force from.
pub proof fn histories_are_lists_of_lists(
    m: Seq<Member>,
    x: Member,
    h: HistoryView,
    b: (u64, Seq<Member>),
    k: Timelines<32>,
    id: NodeId,
    e: Seq<KeyEntry<32>>,
    y: KeyEntry<32>,
)
    ensures
        enc_member(x) == x.id.id@ + varint(x.weight as nat),
        enc_committee(seq![]) == varint(0),
        enc_committee(m).skip(varint(m.len()).len() as int) + enc_member(x) == enc_committee(m.push(x)).skip(
            varint(m.len() + 1).len() as int,
        ),
        enc_boundary(b) == varint(b.0 as nat) + enc_committee(b.1),
        enc_history(seq![]) == varint(0),
        enc_history(h).skip(varint(h.len()).len() as int) + enc_boundary(b) == enc_history(h.push(b)).skip(
            varint(h.len() + 1).len() as int,
        ),
        enc_entry(y) == varint(y.v_eff as nat) + y.key@,
        enc_keys(k).skip(varint(k.len()).len() as int) + enc_timeline((id, e)) == enc_keys(k.push((id, e))).skip(
            varint(k.len() + 1).len() as int,
        ),
{
    lemma_lists(m, x, h, b, k, id, e);
}

proof fn lemma_lists(
    m: Seq<Member>,
    x: Member,
    h: HistoryView,
    b: (u64, Seq<Member>),
    k: Timelines<32>,
    id: NodeId,
    e: Seq<KeyEntry<32>>,
)
    ensures
        enc_committee(seq![]) == varint(0),
        enc_history(seq![]) == varint(0),
        enc_committee(m).skip(varint(m.len()).len() as int) + enc_member(x) == enc_committee(m.push(x)).skip(
            varint(m.len() + 1).len() as int,
        ),
        enc_history(h).skip(varint(h.len()).len() as int) + enc_boundary(b) == enc_history(h.push(b)).skip(
            varint(h.len() + 1).len() as int,
        ),
        enc_keys(k).skip(varint(k.len()).len() as int) + enc_timeline((id, e)) == enc_keys(k.push((id, e))).skip(
            varint(k.len() + 1).len() as int,
        ),
{
    let em = crate::history_codec::member_enc();
    let eb = crate::history_codec::boundary_enc();
    let ek = crate::history_codec::timeline_enc::<32>();
    crate::history_codec::lemma_seq_push(m, x, em);
    crate::history_codec::lemma_seq_push(h, b, eb);
    crate::history_codec::lemma_seq_push(k, (id, e), ek);
    let sm = crate::history_codec::enc_seq(m, em);
    let sh = crate::history_codec::enc_seq(h, eb);
    let sk = crate::history_codec::enc_seq(k, ek);
    assert(enc_committee(seq![]) =~= varint(0));
    assert(enc_history(seq![]) =~= varint(0));
    assert(enc_committee(m).skip(varint(m.len()).len() as int) =~= sm);
    assert(enc_history(h).skip(varint(h.len()).len() as int) =~= sh);
    assert(enc_keys(k).skip(varint(k.len()).len() as int) =~= sk);
    assert(enc_committee(m.push(x)).skip(varint(m.len() + 1).len() as int) =~= crate::history_codec::enc_seq(
        m.push(x),
        em,
    ));
    assert(enc_history(h.push(b)).skip(varint(h.len() + 1).len() as int) =~= crate::history_codec::enc_seq(
        h.push(b),
        eb,
    ));
    assert(enc_keys(k.push((id, e))).skip(varint(k.len() + 1).len() as int) =~= crate::history_codec::enc_seq(
        k.push((id, e)),
        ek,
    ));
}

/// A message is the tag of its kind and then its fields in order; who signed
/// it and the signature come behind what is signed.
pub proof fn messages_are_their_fields_in_order(
    d: DraftView,
    qc: QcView,
    v: Vote,
    t: TimeoutVoteView,
    h: Bytes32,
    s: Seal,
    p: Option<BlsPartialSig>,
    n: u64,
    i: u32,
)
    ensures
        enc_fields(WireView::Proposal(d, qc, s)) == enc_draft(d) + enc_qc(qc) + s.signer@ + s.sig@,
        enc_fields(WireView::Vote(v, s, p)) == varint(v.view as nat) + v.block_hash@ + s.signer@ + s.sig@ + enc_partial(p),
        enc_fields(WireView::NewView(qc, s)) == enc_qc(qc) + s.signer@ + s.sig@,
        enc_fields(WireView::TimeoutVote(t, s)) == enc_timeout_vote(t) + s.signer@ + s.sig@,
        enc_fields(WireView::BlockRequest(h)) == h@,
        enc_fields(WireView::BlockResponse(h, None, s)) == h@ + seq![0u8] + s.signer@ + s.sig@,
        enc_fields(WireView::BlockResponse(h, Some(d), s)) == h@ + seq![1u8] + enc_draft(d) + s.signer@ + s.sig@,
        enc_fields(WireView::SnapshotManifestRequest(None)) == seq![0u8],
        enc_fields(WireView::SnapshotManifestRequest(Some(n))) == seq![1u8] + varint(n as nat),
        enc_fields(WireView::SnapshotChunkRequest(n, i)) == varint(n as nat) + varint(i as nat),
        enc_fields(WireView::SnapshotChunkResponse(n, i, None)) == varint(n as nat) + varint(i as nat) + seq![0u8],
{
    assert(enc_fields(WireView::Proposal(d, qc, s)) =~= enc_draft(d) + enc_qc(qc) + s.signer@ + s.sig@);
    assert(enc_fields(WireView::Vote(v, s, p)) =~= varint(v.view as nat) + v.block_hash@ + s.signer@ + s.sig@
        + enc_partial(p));
    assert(enc_fields(WireView::NewView(qc, s)) =~= enc_qc(qc) + s.signer@ + s.sig@);
    assert(enc_fields(WireView::TimeoutVote(t, s)) =~= enc_timeout_vote(t) + s.signer@ + s.sig@);
    assert(enc_fields(WireView::BlockResponse(h, None, s)) =~= h@ + seq![0u8] + s.signer@ + s.sig@);
    assert(enc_fields(WireView::BlockResponse(h, Some(d), s)) =~= h@ + seq![1u8] + enc_draft(d) + s.signer@ + s.sig@);
}

/// Behind the tag of a message stand its fields, and the tags are those of the
/// kinds in order.
pub proof fn kinds_are_numbered_in_order(m: WireView)
    ensures
        enc_wire(m) == varint(m.kind().tag() as nat) + enc_fields(m),
        m is Proposal ==> m.kind().tag() == 0,
        m is Vote ==> m.kind().tag() == 1,
        m is NewView ==> m.kind().tag() == 2,
        m is TimeoutVote ==> m.kind().tag() == 3,
        m is BlockRequest ==> m.kind().tag() == 4,
        m is BlockResponse ==> m.kind().tag() == 5,
        m is SnapshotManifestRequest ==> m.kind().tag() == 6,
        m is SnapshotManifestResponse ==> m.kind().tag() == 7,
        m is SnapshotChunkRequest ==> m.kind().tag() == 8,
        m is SnapshotChunkResponse ==> m.kind().tag() == 9,
{
}

/// A block that is sealed has the content that it was made of and goes by the
/// hash of all of it.
pub proof fn a_sealed_block_goes_by_its_content<D: Digests>(d: &D, c: DraftView, b: BlockView)
    ensures
        sealed(d, c).header == c.header,
        sealed(d, c).commands == c.commands,
        sealed(d, c).hash == d.block_digest(c),
        genuine(d, b) <==> b.hash == d.block_digest(DraftView { header: b.header, commands: b.commands }),
{
}

/// The signers of a certificate are counted one by one.
pub proof fn signers_are_counted_one_by_one(a: Seq<bool>, b: Seq<bool>, x: bool)
    ensures
        set_count(a + b) == set_count(a) + set_count(b),
        set_count(seq![x]) == (if x {
            1nat
        } else {
            0nat
        }),
        set_count(seq![]) == 0,
    decreases b.len(),
{
    reveal_with_fuel(set_count, 2);
    assert(seq![x].drop_last() =~= seq![]);
    if b.len() == 0 {
        assert(a + b =~= a);
    } else {
        assert((a + b).drop_last() =~= a + b.drop_last());
        signers_are_counted_one_by_one(a, b.drop_last(), x);
    }
}

} // verus!
