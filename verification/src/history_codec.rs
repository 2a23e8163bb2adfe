//! The stored form of the committee and key histories.
//!
//! Each is one blob over the whole history. Reading one back checks what
//! holds of every history, so that a damaged blob is refused.

use vstd::prelude::*;
use vstd::slice::slice_subrange;

use crate::codec::{
    array_reads_back, put_array, put_u64, take_array, take_array32, take_u64, varint_reads_back, CodecError, Record,
};
use crate::key_history::{keys_ok, timelines_view, KeyEntry, KeyHistory, KeyTimeline, Timelines};
use crate::trusted::{take_varint, varint};
use crate::validator_history::{boundaries_view, history_ok, Boundary, HistoryView, ValidatorSetHistory};
use crate::validator_set::{committee, Member, NodeId, ValidatorId, ValidatorSet};

verus! {

// ---- lists in general ----------------------------------------------------

/// The encodings of the items, one after the other.
pub open spec fn enc_seq<T>(s: Seq<T>, enc: spec_fn(T) -> Seq<u8>) -> Seq<u8>
    decreases s.len(),
{
    if s.len() == 0 {
        seq![]
    } else {
        enc(s[0]) + enc_seq(s.skip(1), enc)
    }
}

/// Reads `n` items off the front of `s`.
pub open spec fn take_seq<T>(
    s: Seq<u8>,
    n: nat,
    take: spec_fn(Seq<u8>) -> Option<(T, Seq<u8>)>,
) -> Option<(Seq<T>, Seq<u8>)>
    decreases n,
{
    if n == 0 {
        Some((seq![], s))
    } else {
        match take(s) {
            Some((x, rest)) => match take_seq(rest, (n - 1) as nat, take) {
                Some((more, rest2)) => Some((seq![x] + more, rest2)),
                None => None,
            },
            None => None,
        }
    }
}

pub proof fn lemma_seq_push<T>(s: Seq<T>, x: T, enc: spec_fn(T) -> Seq<u8>)
    ensures
        enc_seq(s.push(x), enc) == enc_seq(s, enc) + enc(x),
    decreases s.len(),
{
    if s.len() == 0 {
        reveal_with_fuel(enc_seq, 2);
        assert(s.push(x).skip(1) =~= seq![]);
        assert(enc_seq(s.push(x), enc) =~= enc(x));
        assert(enc_seq(s, enc) + enc(x) =~= enc(x));
    } else {
        assert(s.push(x).skip(1) =~= s.skip(1).push(x));
        lemma_seq_push(s.skip(1), x, enc);
        assert(enc_seq(s.push(x), enc) =~= enc_seq(s, enc) + enc(x));
    }
}

/// If every item reads back, so does the list.
pub proof fn seq_reads_back<T>(
    s: Seq<T>,
    tail: Seq<u8>,
    enc: spec_fn(T) -> Seq<u8>,
    take: spec_fn(Seq<u8>) -> Option<(T, Seq<u8>)>,
)
    requires
        forall|i: int, t: Seq<u8>|
            0 <= i < s.len() ==> #[trigger] take(enc(s[i]) + t) == Some((s[i], t)),
    ensures
        take_seq(enc_seq(s, enc) + tail, s.len(), take) == Some((s, tail)),
    decreases s.len(),
{
    if s.len() == 0 {
        assert(enc_seq(s, enc) + tail =~= tail);
        assert(s =~= seq![]);
    } else {
        let more = s.skip(1);
        assert forall|i: int, t: Seq<u8>| 0 <= i < more.len() implies #[trigger] take(enc(more[i]) + t) == Some(
            (more[i], t),
        ) by {
            assert(more[i] == s[i + 1]);
            assert(take(enc(s[i + 1]) + t) == Some((s[i + 1], t)));
        }
        seq_reads_back(more, tail, enc, take);
        let t = enc_seq(more, enc) + tail;
        assert(enc_seq(s, enc) + tail =~= enc(s[0]) + t);
        assert(take(enc(s[0]) + t) == Some((s[0], t)));
        assert(seq![s[0]] + more =~= s);
    }
}

// ---- the committee history -----------------------------------------------

pub open spec fn enc_member(m: Member) -> Seq<u8> {
    m.id.id@ + varint(m.weight as nat)
}

pub open spec fn member_enc() -> spec_fn(Member) -> Seq<u8> {
    |m: Member| enc_member(m)
}

pub open spec fn take_member(s: Seq<u8>) -> Option<(Member, Seq<u8>)> {
    match take_array(s) {
        Some((id, s1)) => match take_varint(s1) {
            Some((weight, s2)) => Some((Member { id: ValidatorId { id }, weight: weight as u64 }, s2)),
            None => None,
        },
        None => None,
    }
}

pub open spec fn member_take() -> spec_fn(Seq<u8>) -> Option<(Member, Seq<u8>)> {
    |s: Seq<u8>| take_member(s)
}

pub open spec fn enc_committee(m: Seq<Member>) -> Seq<u8> {
    varint(m.len()) + enc_seq(m, member_enc())
}

pub open spec fn take_committee(s: Seq<u8>) -> Option<(Seq<Member>, Seq<u8>)> {
    match take_varint(s) {
        Some((n, rest)) => take_seq(rest, n, member_take()),
        None => None,
    }
}

pub open spec fn enc_boundary(b: (u64, Seq<Member>)) -> Seq<u8> {
    varint(b.0 as nat) + enc_committee(b.1)
}

pub open spec fn boundary_enc() -> spec_fn((u64, Seq<Member>)) -> Seq<u8> {
    |b: (u64, Seq<Member>)| enc_boundary(b)
}

pub open spec fn take_boundary(s: Seq<u8>) -> Option<((u64, Seq<Member>), Seq<u8>)> {
    match take_varint(s) {
        Some((v, s1)) => match take_committee(s1) {
            Some((m, s2)) => Some(((v as u64, m), s2)),
            None => None,
        },
        None => None,
    }
}

pub open spec fn boundary_take() -> spec_fn(Seq<u8>) -> Option<((u64, Seq<Member>), Seq<u8>)> {
    |s: Seq<u8>| take_boundary(s)
}

/// The stored form of a committee history.
pub open spec fn enc_history(h: HistoryView) -> Seq<u8> {
    varint(h.len()) + enc_seq(h, boundary_enc())
}

pub open spec fn parse_history(s: Seq<u8>) -> Option<HistoryView> {
    match take_varint(s) {
        Some((n, rest)) => match take_seq(rest, n, boundary_take()) {
            Some((h, _)) => if history_ok(h) {
                Some(h)
            } else {
                None
            },
            None => None,
        },
        None => None,
    }
}

proof fn member_reads_back(m: Member, tail: Seq<u8>)
    ensures
        take_member(enc_member(m) + tail) == Some((m, tail)),
{
    assert(enc_member(m) + tail =~= m.id.id@ + (varint(m.weight as nat) + tail));
    array_reads_back(m.id.id, varint(m.weight as nat) + tail);
    varint_reads_back(m.weight, tail);
}

proof fn committee_reads_back(m: Seq<Member>, tail: Seq<u8>)
    requires
        m.len() <= u64::MAX,
    ensures
        take_committee(enc_committee(m) + tail) == Some((m, tail)),
{
    let body = enc_seq(m, member_enc());
    assert(enc_committee(m) + tail =~= varint(m.len()) + (body + tail));
    varint_reads_back(m.len() as u64, body + tail);
    assert forall|i: int, t: Seq<u8>| 0 <= i < m.len() implies #[trigger] member_take()(member_enc()(m[i]) + t)
        == Some((m[i], t)) by {
        member_reads_back(m[i], t);
    }
    seq_reads_back(m, tail, member_enc(), member_take());
}

/// A stored committee history reads back as itself.
pub proof fn stored_history_reads_back(h: HistoryView)
    requires
        history_ok(h),
        h.len() <= u64::MAX,
    ensures
        parse_history(enc_history(h)) == Some(h),
{
    let none = Seq::<u8>::empty();
    let body = enc_seq(h, boundary_enc());
    assert(enc_history(h) =~= varint(h.len()) + (body + none));
    varint_reads_back(h.len() as u64, body + none);
    assert forall|i: int, t: Seq<u8>| 0 <= i < h.len() implies #[trigger] boundary_take()(boundary_enc()(h[i]) + t)
        == Some((h[i], t)) by {
        let b = h[i];
        assert(committee(b.1));
        assert(enc_boundary(b) + t =~= varint(b.0 as nat) + (enc_committee(b.1) + t));
        varint_reads_back(b.0, enc_committee(b.1) + t);
        committee_reads_back(b.1, t);
    }
    seq_reads_back(h, none, boundary_enc(), boundary_take());
}

fn put_set(out: &mut Vec<u8>, set: &ValidatorSet)
    ensures
        final(out)@ == old(out)@ + enc_committee(set@),
{
    put_u64(out, set.len() as u64);
    let ghost head = out@;
    let mut i: usize = 0;
    assert(set@.take(0) =~= seq![]);
    assert(head + enc_seq(set@.take(0), member_enc()) =~= head);
    while i < set.len()
        invariant
            i <= set@.len(),
            out@ == head + enc_seq(set@.take(i as int), member_enc()),
        decreases set@.len() - i,
    {
        let m = set.member(i);
        put_array(out, &m.id.id);
        put_u64(out, m.weight);
        proof {
            assert(set@.take(i + 1) =~= set@.take(i as int).push(m));
            lemma_seq_push(set@.take(i as int), m, member_enc());
            assert(out@ =~= head + enc_seq(set@.take(i + 1), member_enc()));
        }
        i = i + 1;
    }
    assert(set@.take(i as int) =~= set@);
    assert(out@ =~= old(out)@ + enc_committee(set@));
}

/// The stored form of a committee history.
pub fn encode_validator_history(h: &ValidatorSetHistory) -> (r: Vec<u8>)
    ensures
        r@ == enc_history(h@),
{
    let mut out: Vec<u8> = Vec::new();
    let n = h.boundary_count();
    put_u64(&mut out, n as u64);
    let ghost head = out@;
    let mut i: usize = 0;
    assert(h@.take(0) =~= seq![]);
    assert(head + enc_seq(h@.take(0), boundary_enc()) =~= head);
    while i < n
        invariant
            i <= n,
            n == h@.len(),
            out@ == head + enc_seq(h@.take(i as int), boundary_enc()),
        decreases n - i,
    {
        put_u64(&mut out, h.v_eff_of(i));
        put_set(&mut out, h.set_of(i));
        proof {
            assert(h@.take(i + 1) =~= h@.take(i as int).push(h@[i as int]));
            lemma_seq_push(h@.take(i as int), h@[i as int], boundary_enc());
            assert(out@ =~= head + enc_seq(h@.take(i + 1), boundary_enc()));
        }
        i = i + 1;
    }
    assert(h@.take(i as int) =~= h@);
    assert(out@ =~= enc_history(h@));
    out
}

fn take_members<'a>(s: &'a [u8]) -> (r: Option<(Vec<Member>, &'a [u8])>)
    ensures
        match r {
            Some((m, rest)) => take_committee(s@) == Some((m@, rest@)),
            None => take_committee(s@) is None,
        },
{
    let (n, body) = match take_u64(s) {
        Some((n, rest)) => (n, rest),
        None => {
            return None;
        },
    };
    let mut m: Vec<Member> = Vec::new();
    let mut rest: &'a [u8] = body;
    let mut i: u64 = 0;
    proof {
        match take_seq(body@, n as nat, member_take()) {
            Some((more, end)) => {
                assert(m@ + more =~= more);
            },
            None => {},
        }
    }
    while i < n
        invariant
            i <= n,
            take_seq(body@, n as nat, member_take()) == (match take_seq(rest@, (n - i) as nat, member_take()) {
                Some((more, end)) => Some((m@ + more, end)),
                None => None::<(Seq<Member>, Seq<u8>)>,
            }),
            take_varint(s@) == Some((n as nat, body@)),
        decreases n - i,
    {
        let (id, s1) = match take_array32(rest) {
            Some((id, s1)) => (id, s1),
            None => {
                return None;
            },
        };
        let (weight, s2) = match take_u64(s1) {
            Some((weight, s2)) => (weight, s2),
            None => {
                return None;
            },
        };
        let x = Member { id: ValidatorId { id }, weight };
        let ghost done = m@;
        m.push(x);
        proof {
            assert(member_take()(rest@) == Some((x, s2@)));
            match take_seq(s2@, (n - i - 1) as nat, member_take()) {
                Some((more, end)) => {
                    assert(done + (seq![x] + more) =~= m@ + more);
                },
                None => {},
            }
        }
        rest = s2;
        i = i + 1;
    }
    assert(m@ + Seq::<Member>::empty() =~= m@);
    Some((m, rest))
}

/// Reads a committee history back.
pub fn decode_validator_history(bytes: &[u8]) -> (r: Result<ValidatorSetHistory, CodecError>)
    ensures
        match parse_history(bytes@) {
            Some(h) => r is Ok && r->Ok_0@ == h && r->Ok_0.wf(),
            None => r is Err && r->Err_0 == (CodecError { record: Record::ValidatorHistory }),
        },
{
    let (n, body) = match take_u64(bytes) {
        Some((n, rest)) => (n, rest),
        None => {
            return Err(CodecError { record: Record::ValidatorHistory });
        },
    };
    let mut parts: Vec<Boundary> = Vec::new();
    let mut sound = true;
    let mut rest: &[u8] = body;
    let mut i: u64 = 0;
    let ghost mut done: HistoryView = seq![];
    proof {
        match take_seq(body@, n as nat, boundary_take()) {
            Some((more, end)) => {
                assert(done + more =~= more);
            },
            None => {},
        }
        assert(boundaries_view(parts@) =~= seq![]);
    }
    while i < n
        invariant
            i <= n,
            done.len() == i,
            take_seq(body@, n as nat, boundary_take()) == (match take_seq(rest@, (n - i) as nat, boundary_take()) {
                Some((more, end)) => Some((done + more, end)),
                None => None::<(HistoryView, Seq<u8>)>,
            }),
            take_varint(bytes@) == Some((n as nat, body@)),
            sound ==> boundaries_view(parts@) == done && forall|k: int|
                0 <= k < done.len() ==> committee((#[trigger] done[k]).1),
            !sound ==> exists|k: int| 0 <= k < done.len() && !committee((#[trigger] done[k]).1),
        decreases n - i,
    {
        let (v_eff, s1) = match take_u64(rest) {
            Some((v, s1)) => (v, s1),
            None => {
                return Err(CodecError { record: Record::ValidatorHistory });
            },
        };
        let (members, s2) = match take_members(s1) {
            Some((m, s2)) => (m, s2),
            None => {
                return Err(CodecError { record: Record::ValidatorHistory });
            },
        };
        let ghost mv = members@;
        let ghost before = done;
        proof {
            done = before.push((v_eff, mv));
            assert(boundary_take()(rest@) == Some(((v_eff, mv), s2@)));
            match take_seq(s2@, (n - i - 1) as nat, boundary_take()) {
                Some((more, end)) => {
                    assert(before + (seq![(v_eff, mv)] + more) =~= done + more);
                },
                None => {},
            }
            assert(done[before.len() as int] == (v_eff, mv));
            assert forall|k: int| 0 <= k < before.len() implies done[k] == before[k] by {}
        }
        match ValidatorSet::from_members(members) {
            Some(set) => {
                let ghost parts_before = parts@;
                if sound {
                    parts.push(Boundary { v_eff, set });
                    assert(boundaries_view(parts@) =~= done);
                } else {
                    assert(exists|k: int| 0 <= k < done.len() && !committee((#[trigger] done[k]).1)) by {
                        let k = choose|k: int| 0 <= k < before.len() && !committee((#[trigger] before[k]).1);
                        assert(done[k] == before[k]);
                    }
                }
            },
            None => {
                assert(!committee(done[before.len() as int].1));
                sound = false;
            },
        }
        rest = s2;
        i = i + 1;
    }
    assert(done + Seq::<(u64, Seq<Member>)>::empty() =~= done);
    if !sound {
        return Err(CodecError { record: Record::ValidatorHistory });
    }
    assert forall|k: int| 0 <= k < parts@.len() implies committee((#[trigger] parts@[k]).set@) by {
        assert(boundaries_view(parts@)[k].1 == parts@[k].set@);
        assert(committee(done[k].1));
    }
    match ValidatorSetHistory::from_boundaries(parts) {
        Some(h) => Ok(h),
        None => Err(CodecError { record: Record::ValidatorHistory }),
    }
}

// ---- the key histories ---------------------------------------------------

/// The array with the bytes `s`.
pub open spec fn key_of<const N: usize>(s: Seq<u8>) -> [u8; N] {
    choose|a: [u8; N]| a@ == s
}

pub proof fn lemma_key_of<const N: usize>(a: [u8; N])
    ensures
        key_of::<N>(a@) == a,
{
    let b = key_of::<N>(a@);
    assert(b@ == a@);
    assert(b =~= a);
}

pub open spec fn take_key<const N: usize>(s: Seq<u8>) -> Option<([u8; N], Seq<u8>)> {
    if s.len() >= N {
        Some((key_of::<N>(s.take(N as int)), s.skip(N as int)))
    } else {
        None
    }
}

pub open spec fn enc_entry<const N: usize>(e: KeyEntry<N>) -> Seq<u8> {
    varint(e.v_eff as nat) + e.key@
}

pub open spec fn entry_enc<const N: usize>() -> spec_fn(KeyEntry<N>) -> Seq<u8> {
    |e: KeyEntry<N>| enc_entry(e)
}

pub open spec fn take_entry<const N: usize>(s: Seq<u8>) -> Option<(KeyEntry<N>, Seq<u8>)> {
    match take_varint(s) {
        Some((v, s1)) => match take_key::<N>(s1) {
            Some((key, s2)) => Some((KeyEntry { v_eff: v as u64, key }, s2)),
            None => None,
        },
        None => None,
    }
}

pub open spec fn entry_take<const N: usize>() -> spec_fn(Seq<u8>) -> Option<(KeyEntry<N>, Seq<u8>)> {
    |s: Seq<u8>| take_entry::<N>(s)
}

pub open spec fn enc_timeline<const N: usize>(t: (NodeId, Seq<KeyEntry<N>>)) -> Seq<u8> {
    t.0@ + varint(t.1.len()) + enc_seq(t.1, entry_enc::<N>())
}

pub open spec fn timeline_enc<const N: usize>() -> spec_fn((NodeId, Seq<KeyEntry<N>>)) -> Seq<u8> {
    |t: (NodeId, Seq<KeyEntry<N>>)| enc_timeline(t)
}

pub open spec fn take_timeline<const N: usize>(s: Seq<u8>) -> Option<((NodeId, Seq<KeyEntry<N>>), Seq<u8>)> {
    match take_array(s) {
        Some((id, s1)) => match take_varint(s1) {
            Some((n, s2)) => match take_seq(s2, n, entry_take::<N>()) {
                Some((e, s3)) => Some(((id, e), s3)),
                None => None,
            },
            None => None,
        },
        None => None,
    }
}

pub open spec fn timeline_take<const N: usize>() -> spec_fn(Seq<u8>) -> Option<((NodeId, Seq<KeyEntry<N>>), Seq<u8>)> {
    |s: Seq<u8>| take_timeline::<N>(s)
}

/// The stored form of a key history.
pub open spec fn enc_keys<const N: usize>(h: Timelines<N>) -> Seq<u8> {
    varint(h.len()) + enc_seq(h, timeline_enc::<N>())
}

pub open spec fn parse_keys<const N: usize>(s: Seq<u8>) -> Option<Timelines<N>> {
    match take_varint(s) {
        Some((n, rest)) => match take_seq(rest, n, timeline_take::<N>()) {
            Some((h, _)) => if keys_ok(h) {
                Some(h)
            } else {
                None
            },
            None => None,
        },
        None => None,
    }
}

proof fn entry_reads_back<const N: usize>(e: KeyEntry<N>, tail: Seq<u8>)
    ensures
        take_entry::<N>(enc_entry(e) + tail) == Some((e, tail)),
{
    let t = e.key@ + tail;
    assert(enc_entry(e) + tail =~= varint(e.v_eff as nat) + t);
    varint_reads_back(e.v_eff, t);
    assert(t.take(N as int) =~= e.key@);
    assert(t.skip(N as int) =~= tail);
    lemma_key_of(e.key);
}

/// The lists of the history are short enough to be written down, as those of
/// every history in memory are.
pub open spec fn encodable_keys<const N: usize>(h: Timelines<N>) -> bool {
    &&& h.len() <= u64::MAX
    &&& forall|i: int| 0 <= i < h.len() ==> (#[trigger] h[i]).1.len() <= u64::MAX
}

/// A stored key history reads back as itself.
pub proof fn stored_keys_read_back<const N: usize>(h: Timelines<N>)
    requires
        keys_ok(h),
        encodable_keys(h),
    ensures
        parse_keys::<N>(enc_keys(h)) == Some(h),
{
    let none = Seq::<u8>::empty();
    let body = enc_seq(h, timeline_enc::<N>());
    assert(enc_keys(h) =~= varint(h.len()) + (body + none));
    varint_reads_back(h.len() as u64, body + none);
    assert forall|i: int, t: Seq<u8>| 0 <= i < h.len() implies #[trigger] timeline_take::<N>()(
        timeline_enc::<N>()(h[i]) + t,
    ) == Some((h[i], t)) by {
        let x = h[i];
        let inner = enc_seq(x.1, entry_enc::<N>());
        assert(enc_timeline(x) + t =~= x.0@ + (varint(x.1.len()) + (inner + t)));
        array_reads_back(x.0, varint(x.1.len()) + (inner + t));
        varint_reads_back(x.1.len() as u64, inner + t);
        assert forall|j: int, u: Seq<u8>| 0 <= j < x.1.len() implies #[trigger] entry_take::<N>()(
            entry_enc::<N>()(x.1[j]) + u,
        ) == Some((x.1[j], u)) by {
            entry_reads_back(x.1[j], u);
        }
        seq_reads_back(x.1, t, entry_enc::<N>(), entry_take::<N>());
    }
    seq_reads_back(h, none, timeline_enc::<N>(), timeline_take::<N>());
}

pub(crate) fn put_key<const N: usize>(out: &mut Vec<u8>, key: &[u8; N])
    ensures
        final(out)@ == old(out)@ + key@,
{
    let ghost before = out@;
    let mut i: usize = 0;
    while i < N
        invariant
            i <= N,
            out@ == before + key@.take(i as int),
        decreases N - i,
    {
        out.push(key[i]);
        i = i + 1;
        assert(out@ =~= before + key@.take(i as int));
    }
    assert(key@.take(N as int) =~= key@);
}

/// The stored form of a key history.
pub fn encode_key_history<const N: usize>(h: &KeyHistory<N>) -> (r: Vec<u8>)
    ensures
        r@ == enc_keys(h@),
{
    let mut out: Vec<u8> = Vec::new();
    let n = h.len();
    put_u64(&mut out, n as u64);
    let ghost head = out@;
    let mut i: usize = 0;
    assert(h@.take(0) =~= seq![]);
    assert(head + enc_seq(h@.take(0), timeline_enc::<N>()) =~= head);
    while i < n
        invariant
            i <= n,
            n == h@.len(),
            out@ == head + enc_seq(h@.take(i as int), timeline_enc::<N>()),
        decreases n - i,
    {
        let t = h.timeline(i);
        let ghost start = out@;
        put_array(&mut out, &t.stable_id.id);
        put_u64(&mut out, t.entries.len() as u64);
        let ghost inner = out@;
        let mut j: usize = 0;
        assert(t.entries@.take(0) =~= seq![]);
        assert(inner + enc_seq(t.entries@.take(0), entry_enc::<N>()) =~= inner);
        while j < t.entries.len()
            invariant
                j <= t.entries.len(),
                out@ == inner + enc_seq(t.entries@.take(j as int), entry_enc::<N>()),
            decreases t.entries.len() - j,
        {
            put_u64(&mut out, t.entries[j].v_eff);
            put_key(&mut out, &t.entries[j].key);
            proof {
                let e = t.entries@[j as int];
                assert(t.entries@.take(j + 1) =~= t.entries@.take(j as int).push(e));
                lemma_seq_push(t.entries@.take(j as int), e, entry_enc::<N>());
                assert(out@ =~= inner + enc_seq(t.entries@.take(j + 1), entry_enc::<N>()));
            }
            j = j + 1;
        }
        proof {
            assert(t.entries@.take(j as int) =~= t.entries@);
            assert(out@ =~= start + enc_timeline(h@[i as int]));
            assert(h@.take(i + 1) =~= h@.take(i as int).push(h@[i as int]));
            lemma_seq_push(h@.take(i as int), h@[i as int], timeline_enc::<N>());
            assert(out@ =~= head + enc_seq(h@.take(i + 1), timeline_enc::<N>()));
        }
        i = i + 1;
    }
    assert(h@.take(i as int) =~= h@);
    assert(out@ =~= enc_keys(h@));
    out
}

pub(crate) fn take_key_bytes<'a, const N: usize>(s: &'a [u8]) -> (r: Option<([u8; N], &'a [u8])>)
    ensures
        match r {
            Some((a, rest)) => take_key::<N>(s@) == Some((a, rest@)),
            None => take_key::<N>(s@) is None,
        },
{
    if s.len() < N {
        return None;
    }
    let mut a: [u8; N] = [0u8; N];
    let mut i: usize = 0;
    while i < N
        invariant
            i <= N,
            s@.len() >= N,
            forall|k: int| 0 <= k < i ==> a@[k] == s@[k],
        decreases N - i,
    {
        a[i] = s[i];
        i = i + 1;
    }
    assert(a@ =~= s@.take(N as int));
    proof {
        lemma_key_of(a);
    }
    let rest = slice_subrange(s, N, s.len());
    assert(rest@ =~= s@.skip(N as int));
    Some((a, rest))
}

fn take_entries<'a, const N: usize>(s: &'a [u8], n: u64) -> (r: Option<(Vec<KeyEntry<N>>, &'a [u8])>)
    ensures
        match r {
            Some((e, rest)) => take_seq(s@, n as nat, entry_take::<N>()) == Some((e@, rest@)),
            None => take_seq(s@, n as nat, entry_take::<N>()) is None,
        },
{
    let mut out: Vec<KeyEntry<N>> = Vec::new();
    let mut rest: &'a [u8] = s;
    let mut i: u64 = 0;
    proof {
        match take_seq(s@, n as nat, entry_take::<N>()) {
            Some((more, end)) => {
                assert(out@ + more =~= more);
            },
            None => {},
        }
    }
    while i < n
        invariant
            i <= n,
            take_seq(s@, n as nat, entry_take::<N>()) == (match take_seq(rest@, (n - i) as nat, entry_take::<N>()) {
                Some((more, end)) => Some((out@ + more, end)),
                None => None::<(Seq<KeyEntry<N>>, Seq<u8>)>,
            }),
        decreases n - i,
    {
        let (v_eff, s1) = match take_u64(rest) {
            Some((v, s1)) => (v, s1),
            None => {
                return None;
            },
        };
        let (key, s2) = match take_key_bytes::<N>(s1) {
            Some((k, s2)) => (k, s2),
            None => {
                return None;
            },
        };
        let x = KeyEntry { v_eff, key };
        let ghost done = out@;
        out.push(x);
        proof {
            assert(entry_take::<N>()(rest@) == Some((x, s2@)));
            match take_seq(s2@, (n - i - 1) as nat, entry_take::<N>()) {
                Some((more, end)) => {
                    assert(done + (seq![x] + more) =~= out@ + more);
                },
                None => {},
            }
        }
        rest = s2;
        i = i + 1;
    }
    assert(out@ + Seq::<KeyEntry<N>>::empty() =~= out@);
    Some((out, rest))
}

/// Reads a key history back; `record` says which one, for the error.
pub fn decode_key_history<const N: usize>(bytes: &[u8], record: Record) -> (r: Result<KeyHistory<N>, CodecError>)
    ensures
        match parse_keys::<N>(bytes@) {
            Some(h) => r is Ok && r->Ok_0@ == h && r->Ok_0.wf(),
            None => r is Err && r->Err_0 == (CodecError { record }),
        },
{
    let (n, body) = match take_u64(bytes) {
        Some((n, rest)) => (n, rest),
        None => {
            return Err(CodecError { record });
        },
    };
    let mut parts: Vec<KeyTimeline<N>> = Vec::new();
    let mut rest: &[u8] = body;
    let mut i: u64 = 0;
    proof {
        assert(timelines_view(parts@) =~= seq![]);
        match take_seq(body@, n as nat, timeline_take::<N>()) {
            Some((more, end)) => {
                assert(timelines_view(parts@) + more =~= more);
            },
            None => {},
        }
    }
    while i < n
        invariant
            i <= n,
            take_seq(body@, n as nat, timeline_take::<N>()) == (match take_seq(
                rest@,
                (n - i) as nat,
                timeline_take::<N>(),
            ) {
                Some((more, end)) => Some((timelines_view(parts@) + more, end)),
                None => None::<(Timelines<N>, Seq<u8>)>,
            }),
            take_varint(bytes@) == Some((n as nat, body@)),
        decreases n - i,
    {
        let (id, s1) = match take_array32(rest) {
            Some((id, s1)) => (id, s1),
            None => {
                return Err(CodecError { record });
            },
        };
        let (count, s2) = match take_u64(s1) {
            Some((c, s2)) => (c, s2),
            None => {
                return Err(CodecError { record });
            },
        };
        let (entries, s3) = match take_entries::<N>(s2, count) {
            Some((e, s3)) => (e, s3),
            None => {
                return Err(CodecError { record });
            },
        };
        let ghost done = timelines_view(parts@);
        let ghost x = (id, entries@);
        parts.push(KeyTimeline { stable_id: ValidatorId { id }, entries });
        proof {
            assert(timelines_view(parts@) =~= done.push(x));
            assert(timeline_take::<N>()(rest@) == Some((x, s3@)));
            match take_seq(s3@, (n - i - 1) as nat, timeline_take::<N>()) {
                Some((more, end)) => {
                    assert(done + (seq![x] + more) =~= timelines_view(parts@) + more);
                },
                None => {},
            }
        }
        rest = s3;
        i = i + 1;
    }
    assert(timelines_view(parts@) + Seq::<(NodeId, Seq<KeyEntry<N>>)>::empty() =~= timelines_view(parts@));
    match KeyHistory::from_timelines(parts) {
        Some(h) => Ok(h),
        None => Err(CodecError { record }),
    }
}

} // verus!
