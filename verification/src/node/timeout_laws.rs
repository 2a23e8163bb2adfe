//! What counting timeout votes comes to, over whole series of votes.

use vstd::prelude::*;

use crate::key_history::{key_sits_at, keys_ok, owner, owns};
use crate::node::consensus_node::NodeView;
use crate::node::driving::{
    after_timeout_vote, thresholds, timeout_decision, timeout_steps, voter, TimeoutDecision, TimeoutStepView,
};
use crate::node::timeouts::{
    after_vote, bucket_at, empty_bucket, fresher, is_lowest, lemma_lowest_exists, tally, weight_plus, with_room,
    BucketView, Buckets, Thresholds,
};
use crate::storage::{key_bytes, STORAGE_KEY_LAST_TIMEOUT_VOTE};
use crate::types::{QcView, TimeoutVoteView};
use crate::validator_set::{
    committee, has_member, lemma_one_position, lemma_weight_sum_bound, weight_at, weight_sum, NodeId,
};

verus! {

// ---- one vote ------------------------------------------------------------

/// A bucket keeps the freshest certificate that it was shown: the best one is
/// no older than the one before and no older than the one that came with the
/// vote, it is one of the two, and of two as fresh the earlier stays.
pub proof fn a_bucket_keeps_the_freshest_certificate(
    b: BucketView,
    signer: NodeId,
    weight: u128,
    qc: Option<QcView>,
)
    ensures
        ({
            let best = tally(b, signer, weight, qc).best_high_qc;
            &&& qc matches Some(q) ==> best is Some && best->0.view >= q.view
            &&& b.best_high_qc matches Some(x) ==> best is Some && best->0.view >= x.view
            &&& best == b.best_high_qc || best == qc
            &&& b.best_high_qc is Some && qc is Some && qc->0.view == b.best_high_qc->0.view ==> best == b.best_high_qc
        }),
{
}

/// A vote that counts adds its signer and its weight, and touches no bucket
/// but its own and, at capacity, the lowest one.
pub proof fn a_counted_vote_adds_its_weight(
    m: Buckets,
    view: u64,
    signer: NodeId,
    weight: u128,
    qc: Option<QcView>,
    t: Thresholds,
)
    requires
        m.dom().finite(),
        !(m.contains_key(view) && m[view].signers.contains(signer)),
        (if m.contains_key(view) {
            m[view].signer_weight as int
        } else {
            0
        }) + weight < t.quorum,
    ensures
        ({
            let n = after_vote(m, view, signer, weight, qc, t);
            &&& n.contains_key(view)
            &&& m.contains_key(view) ==> {
                &&& n[view].signers == m[view].signers.push(signer)
                &&& n[view].signer_weight == m[view].signer_weight + weight
                &&& n.dom() == m.dom()
            }
            &&& !m.contains_key(view) ==> {
                &&& n[view].signers == seq![signer]
                &&& n[view].signer_weight == weight
                &&& n[view].best_high_qc == qc
            }
            &&& forall|w: u64| w != view && #[trigger] n.contains_key(w) ==> m.contains_key(w) && n[w] == m[w]
            &&& forall|w: u64| #[trigger]
                m.contains_key(w) && !n.contains_key(w) ==> {
                    &&& m.len() >= t.capacity
                    &&& !m.contains_key(view)
                    &&& forall|x: u64| #[trigger] m.contains_key(x) ==> w <= x
                }
            &&& !m.contains_key(view) && m.len() > 0 && m.len() >= t.capacity ==> n.dom().len() == m.len()
        }),
{
    let n = after_vote(m, view, signer, weight, qc, t);
    if m.contains_key(view) {
        assert(n.dom() =~= m.dom());
    } else {
        assert(Seq::<NodeId>::empty().push(signer) =~= seq![signer]);
        if m.len() > 0 && m.len() >= t.capacity {
            lemma_lowest_exists(m);
            let low = choose|v: u64| is_lowest(m, v);
            assert(is_lowest(m, low));
            assert(n.dom() =~= m.dom().remove(low).insert(view));
        }
    }
}

/// At capacity the bucket of the lowest view leaves, and no other; below it
/// none does. The counter says so.
pub proof fn only_the_lowest_bucket_leaves(m: Buckets, capacity: nat)
    requires
        m.dom().finite(),
    ensures
        m.len() < capacity ==> with_room(m, capacity) == m,
        m.len() >= capacity && m.len() > 0 ==> exists|v: u64|
            {
                &&& #[trigger] m.contains_key(v)
                &&& with_room(m, capacity) == m.remove(v)
                &&& forall|w: u64| #[trigger] m.contains_key(w) ==> v <= w
            },
        m.len() >= capacity && m.len() > 0 ==> with_room(m, capacity).dom().len() == m.len() - 1,
{
    if m.len() >= capacity && m.len() > 0 {
        lemma_lowest_exists(m);
        let v = choose|v: u64| is_lowest(m, v);
        assert(is_lowest(m, v));
        assert(with_room(m, capacity).dom() =~= m.dom().remove(v));
    }
}

/// A vote that completes a quorum settles its view: the buckets of that view
/// and of all earlier ones are gone, those of later views stay as they were.
pub proof fn a_quorum_settles_its_view(
    m: Buckets,
    view: u64,
    signer: NodeId,
    weight: u128,
    qc: Option<QcView>,
    t: Thresholds,
)
    requires
        m.contains_key(view),
        !m[view].signers.contains(signer),
        m[view].signer_weight + weight >= t.quorum,
    ensures
        ({
            let n = after_vote(m, view, signer, weight, qc, t);
            &&& forall|w: u64| #[trigger] n.contains_key(w) <==> m.contains_key(w) && w > view
            &&& forall|w: u64| #[trigger] n.contains_key(w) ==> n[w] == m[w]
        }),
{
}

// ---- a series of votes ---------------------------------------------------

/// A timeout vote as a bucket sees it.
pub struct Ballot {
    pub signer: NodeId,
    pub weight: u128,
    pub qc: Option<QcView>,
}

/// The buckets after a series of votes for one view.
pub open spec fn polled(m: Buckets, view: u64, votes: Seq<Ballot>, t: Thresholds) -> Buckets
    decreases votes.len(),
{
    if votes.len() == 0 {
        m
    } else {
        let v = votes.last();
        after_vote(polled(m, view, votes.drop_last(), t), view, v.signer, v.weight, v.qc, t)
    }
}

/// The weight of a series of votes.
pub open spec fn votes_weight(votes: Seq<Ballot>) -> nat
    decreases votes.len(),
{
    if votes.len() == 0 {
        0
    } else {
        votes_weight(votes.drop_last()) + votes.last().weight as nat
    }
}

/// Nobody votes twice.
pub open spec fn distinct_voters(votes: Seq<Ballot>) -> bool {
    forall|i: int, j: int| 0 <= i < j < votes.len() ==> (#[trigger] votes[i]).signer != (#[trigger] votes[j]).signer
}

/// Short of a quorum, a bucket holds exactly the votes that were cast: the
/// signers in order, the sum of their weights, and a certificate that is at
/// least as fresh as every one that came with a vote, and is one of them.
pub proof fn a_bucket_holds_the_votes_that_were_cast(m: Buckets, view: u64, votes: Seq<Ballot>, t: Thresholds)
    requires
        m.dom().finite(),
        !m.contains_key(view),
        votes.len() > 0,
        distinct_voters(votes),
        votes_weight(votes) < t.quorum,
    ensures
        ({
            let n = polled(m, view, votes, t);
            let b = n[view];
            &&& n.contains_key(view)
            &&& n.dom().finite()
            &&& b.signers.len() == votes.len()
            &&& forall|i: int| 0 <= i < votes.len() ==> b.signers[i] == (#[trigger] votes[i]).signer
            &&& b.signer_weight == votes_weight(votes)
            &&& forall|i: int|
                0 <= i < votes.len() && (#[trigger] votes[i]).qc is Some ==> b.best_high_qc is Some
                    && b.best_high_qc->0.view >= votes[i].qc->0.view
            &&& b.best_high_qc is Some ==> exists|i: int|
                0 <= i < votes.len() && (#[trigger] votes[i]).qc == b.best_high_qc
        }),
    decreases votes.len(),
{
    let rest = votes.drop_last();
    let last = votes.last();
    let k = votes.len() - 1;
    let p = polled(m, view, rest, t);
    let n = polled(m, view, votes, t);
    if rest.len() == 0 {
        assert(p == m);
        assert(votes_weight(rest) == 0);
        a_counted_vote_adds_its_weight(m, view, last.signer, last.weight, last.qc, t);
        assert(votes[0] == last);
        if m.len() > 0 && m.len() >= t.capacity {
            lemma_lowest_exists(m);
        }
    } else {
        assert forall|i: int, j: int| 0 <= i < j < rest.len() implies (#[trigger] rest[i]).signer != (
        #[trigger] rest[j]).signer by {
            assert(rest[i] == votes[i] && rest[j] == votes[j]);
        }
        a_bucket_holds_the_votes_that_were_cast(m, view, rest, t);
        let b = p[view];
        assert(!b.signers.contains(last.signer)) by {
            if b.signers.contains(last.signer) {
                let i = choose|i: int| 0 <= i < b.signers.len() && b.signers[i] == last.signer;
                assert(rest[i] == votes[i]);
                assert(votes[i].signer != votes[k].signer);
            }
        }
        a_counted_vote_adds_its_weight(p, view, last.signer, last.weight, last.qc, t);
        a_bucket_keeps_the_freshest_certificate(b, last.signer, last.weight, last.qc);
        assert(n[view] == tally(b, last.signer, last.weight, last.qc));
        assert(n.dom() =~= p.dom());
        assert forall|i: int| 0 <= i < votes.len() implies n[view].signers[i] == (#[trigger] votes[i]).signer by {
            if i < k {
                assert(rest[i] == votes[i]);
            }
        }
        assert forall|i: int| 0 <= i < votes.len() && (#[trigger] votes[i]).qc is Some implies n[view].best_high_qc is Some
            && n[view].best_high_qc->0.view >= votes[i].qc->0.view by {
            if i < k {
                assert(rest[i] == votes[i]);
            }
        }
        if n[view].best_high_qc is Some {
            if n[view].best_high_qc == b.best_high_qc {
                let i = choose|i: int| 0 <= i < rest.len() && (#[trigger] rest[i]).qc == b.best_high_qc;
                assert(votes[i].qc == n[view].best_high_qc);
            } else {
                assert(votes[k].qc == n[view].best_high_qc);
            }
        }
    }
}

// ---- the node ------------------------------------------------------------

/// A timeout vote that reaches the node.
pub struct CastVote {
    pub signer: NodeId,
    pub vote: TimeoutVoteView,
    pub trusted: bool,
}

/// The node after a series of timeout votes.
pub open spec fn after_timeout_votes(n: NodeView, votes: Seq<CastVote>) -> NodeView
    decreases votes.len(),
{
    if votes.len() == 0 {
        n
    } else {
        let v = votes.last();
        after_timeout_vote(after_timeout_votes(n, votes.drop_last()), v.signer, v.vote, v.trusted)
    }
}

/// The votes as the bucket sees them: with the weight of the validator behind
/// the signing key, and the certificate only where it was verified.
pub open spec fn ballots(n: NodeView, votes: Seq<CastVote>) -> Seq<Ballot> {
    Seq::new(
        votes.len(),
        |i: int|
            Ballot {
                signer: votes[i].signer,
                weight: weight_at(n.validator_set, voter(n, votes[i].signer).unwrap()).unwrap() as u128,
                qc: if votes[i].trusted {
                    votes[i].vote.high_qc
                } else {
                    None
                },
            },
    )
}

/// All votes are of committee members, for the view `view`.
pub open spec fn members_vote_for(n: NodeView, votes: Seq<CastVote>, view: u64) -> bool {
    forall|i: int|
        0 <= i < votes.len() ==> voter(n, (#[trigger] votes[i]).signer) is Some && votes[i].vote.view == view
}

proof fn lemma_votes_fill_the_bucket(n: NodeView, votes: Seq<CastVote>, view: u64)
    requires
        members_vote_for(n, votes, view),
        view >= n.pacemaker.current_view,
    ensures
        ({
            let m = after_timeout_votes(n, votes);
            &&& m.timeout_buckets == polled(n.timeout_buckets, view, ballots(n, votes), thresholds(n))
            &&& m == (NodeView { timeout_buckets: m.timeout_buckets, eviction_counters: m.eviction_counters, ..n })
        }),
    decreases votes.len(),
{
    if votes.len() > 0 {
        let rest = votes.drop_last();
        let k = votes.len() - 1;
        assert forall|i: int| 0 <= i < rest.len() implies voter(n, (#[trigger] rest[i]).signer) is Some
            && rest[i].vote.view == view by {
            assert(rest[i] == votes[i]);
        }
        lemma_votes_fill_the_bucket(n, rest, view);
        assert(votes[k] == votes.last());
        assert(ballots(n, votes).drop_last() =~= ballots(n, rest));
        let p = after_timeout_votes(n, rest);
        assert(voter(p, votes[k].signer) == voter(n, votes[k].signer));
        assert(thresholds(p) == thresholds(n));
    } else {
        assert(ballots(n, votes) =~= seq![]);
    }
}

/// What happens to a vote, in terms of the weight behind the view: it leads to
/// a timeout certificate exactly where the signers hold more than two thirds
/// of the committee's weight with it, and to a round sync exactly where they
/// held no more than one third before and hold more with it. A vote of a
/// stranger, one that was cast before and one for a view that is over lead to
/// neither.
pub proof fn votes_are_weighed_against_the_committee(
    n: NodeView,
    signer: NodeId,
    vote: TimeoutVoteView,
    trusted: bool,
    v: u64,
    w: u128,
    q: QcView,
)
    requires
        committee(n.validator_set),
    ensures
        ({
            let steps = timeout_steps(n, signer, vote, trusted);
            let known = n.timeout_buckets.contains_key(vote.view);
            let before: int = if known {
                n.timeout_buckets[vote.view].signer_weight as int
            } else {
                0
            };
            let id = voter(n, signer);
            let after: int = before + weight_at(n.validator_set, id.unwrap()).unwrap();
            let total = weight_sum(n.validator_set);
            let counts = {
                &&& id is Some
                &&& vote.view >= n.pacemaker.current_view
                &&& !(known && n.timeout_buckets[vote.view].signers.contains(signer))
            };
            &&& steps.contains(TimeoutStepView::TimeoutCert { view: v }) <==> counts && v == vote.view && 3 * after > 2
                * total
            &&& after <= u128::MAX ==> (steps.contains(TimeoutStepView::RoundSync { view: v, weight: w }) <==> counts
                && v == vote.view && w == after && 3 * before <= total && 3 * after > total)
            &&& steps.contains(TimeoutStepView::CatchUp { to: signer, high_qc: q }) <==> id is Some && vote.view
                < n.pacemaker.current_view && n.state.high_qc == Some(q)
            &&& !counts ==> !steps.contains(TimeoutStepView::Adopt { high_qc: q })
            &&& steps.len() <= 3
            &&& steps.contains(TimeoutStepView::TimeoutCert { view: v }) ==> steps.last() == (
            TimeoutStepView::TimeoutCert { view: v })
            &&& steps.contains(TimeoutStepView::RoundSync { view: v, weight: w }) ==> steps[0] == (
            TimeoutStepView::RoundSync { view: v, weight: w })
        }),
{
    let steps = timeout_steps(n, signer, vote, trusted);
    let b = bucket_at(n.timeout_buckets, vote.view);
    let total = weight_sum(n.validator_set);
    lemma_weight_sum_bound(n.validator_set);
    assert(total < 0x400_0000_0000_0000 * 0x1_0000_0000_0000_0000) by {
        let len = n.validator_set.len();
        assert(len * 0xffff_ffff_ffff_ffff <= 0x400_0000_0000_0000 * 0xffff_ffff_ffff_ffff) by (nonlinear_arith)
            requires
                len <= 0x400_0000_0000_0000,
        ;
    }
    match voter(n, signer) {
        Some(id) => {
            if vote.view < n.pacemaker.current_view {
                if let Some(qc) = n.state.high_qc {
                    assert(steps[0] == (TimeoutStepView::CatchUp { to: signer, high_qc: qc }));
                }
            } else if !b.signers.contains(signer) {
                let weight = weight_at(n.validator_set, id).unwrap() as u128;
                let sum = weight_plus(b.signer_weight, weight);
                let t = thresholds(n);
                let crossed = b.signer_weight < t.honesty && sum >= t.honesty;
                if crossed {
                    assert(steps[0] == (TimeoutStepView::RoundSync { view: vote.view, weight: sum }));
                }
                if sum >= t.quorum {
                    assert(steps[steps.len() - 1] == (TimeoutStepView::TimeoutCert { view: vote.view }));
                }
            }
        },
        None => {},
    }
}

/// A quorum adopts the freshest certificate that it reported: where the vote
/// after a series of votes completes the quorum, the certificate that is handed
/// on is at least as fresh as every verified one that came with a vote of the
/// series, it came with one of them, and there is one if any vote had one.
pub proof fn a_quorum_adopts_the_freshest_certificate(
    n: NodeView,
    votes: Seq<CastVote>,
    signer: NodeId,
    vote: TimeoutVoteView,
    trusted: bool,
)
    requires
        n.timeout_buckets.dom().finite(),
        committee(n.validator_set),
        !n.timeout_buckets.contains_key(vote.view),
        vote.view >= n.pacemaker.current_view,
        members_vote_for(n, votes, vote.view),
        distinct_voters(ballots(n, votes)),
        3 * votes_weight(ballots(n, votes)) <= 2 * weight_sum(n.validator_set),
    ensures
        ({
            let m = after_timeout_votes(n, votes);
            let steps = timeout_steps(m, signer, vote, trusted);
            steps.contains(TimeoutStepView::TimeoutCert { view: vote.view }) ==> {
                &&& forall|q: QcView| #[trigger]
                    steps.contains(TimeoutStepView::Adopt { high_qc: q }) ==> {
                        &&& forall|i: int|
                            0 <= i < votes.len() && (#[trigger] votes[i]).trusted && votes[i].vote.high_qc is Some
                                ==> q.view >= votes[i].vote.high_qc->0.view
                        &&& trusted && vote.high_qc is Some ==> q.view >= vote.high_qc->0.view
                        &&& (trusted && vote.high_qc == Some(q)) || exists|i: int|
                            0 <= i < votes.len() && (#[trigger] votes[i]).trusted && votes[i].vote.high_qc == Some(q)
                    }
                &&& (trusted && vote.high_qc is Some) || (exists|i: int|
                    0 <= i < votes.len() && (#[trigger] votes[i]).trusted && votes[i].vote.high_qc is Some)
                    ==> exists|q: QcView| #[trigger] steps.contains(TimeoutStepView::Adopt { high_qc: q })
            }
        }),
{
    let m = after_timeout_votes(n, votes);
    let steps = timeout_steps(m, signer, vote, trusted);
    let bs = ballots(n, votes);
    let t = thresholds(n);
    lemma_votes_fill_the_bucket(n, votes, vote.view);
    lemma_weight_sum_bound(n.validator_set);
    let total = weight_sum(n.validator_set);
    assert(total < 0x400_0000_0000_0000 * 0x1_0000_0000_0000_0000) by {
        let len = n.validator_set.len();
        assert(len * 0xffff_ffff_ffff_ffff <= 0x400_0000_0000_0000 * 0xffff_ffff_ffff_ffff) by (nonlinear_arith)
            requires
                len <= 0x400_0000_0000_0000,
        ;
    }
    let b = bucket_at(m.timeout_buckets, vote.view);
    if votes.len() > 0 {
        a_bucket_holds_the_votes_that_were_cast(n.timeout_buckets, vote.view, bs, t);
        assert(m.timeout_buckets[vote.view] == b);
    } else {
        assert(b == empty_bucket());
    }
    let qc = if trusted {
        vote.high_qc
    } else {
        None
    };
    a_bucket_keeps_the_freshest_certificate(b, signer, 0, qc);
    let best = tally(b, signer, 0, qc).best_high_qc;
    assert(best == fresher(b.best_high_qc, qc));
    if steps.contains(TimeoutStepView::TimeoutCert { view: vote.view }) {
        assert forall|i: int| 0 <= i < votes.len() && (#[trigger] votes[i]).trusted && votes[i].vote.high_qc is Some
            implies best is Some && best->0.view >= votes[i].vote.high_qc->0.view by {
            assert(bs[i].qc == votes[i].vote.high_qc);
        }
        assert forall|q: QcView| #[trigger] steps.contains(TimeoutStepView::Adopt { high_qc: q }) implies best == Some(
            q,
        ) by {}
        if best is Some {
            let q = best->0;
            let sync = steps.len() - 2;
            assert(steps[sync] == (TimeoutStepView::Adopt { high_qc: q }));
            assert(steps.contains(TimeoutStepView::Adopt { high_qc: q }));
            if best != qc {
                let i = choose|i: int| 0 <= i < bs.len() && (#[trigger] bs[i]).qc == b.best_high_qc;
                assert(votes[i].trusted && votes[i].vote.high_qc == Some(q));
            }
        }
    }
}

/// A vote counts for the validator that has or had the signing key, and only
/// if that validator sits on the committee. Its weight is the one that the
/// committee gives it.
pub proof fn votes_count_for_the_holder_of_the_key(n: NodeView, key: NodeId, i: int, j: int, k: int)
    requires
        keys_ok(n.keys),
        committee(n.validator_set),
        0 <= i < n.keys.len(),
        0 <= j < n.keys[i].1.len(),
        n.keys[i].1[j].key == key,
    ensures
        voter(n, key) is Some <==> exists|x: int|
            0 <= x < n.validator_set.len() && #[trigger] n.validator_set[x].id.id == n.keys[i].0,
        voter(n, key) matches Some(id) ==> id == n.keys[i].0,
        0 <= k < n.validator_set.len() && n.validator_set[k].id.id == n.keys[i].0 ==> weight_at(
            n.validator_set,
            n.keys[i].0,
        ) == Some(n.validator_set[k].weight),
{
    assert(key_sits_at(n.keys, key, i, j));
    assert(owns(n.keys, key, i));
    let o = choose|o: int| owns(n.keys, key, o);
    assert(owns(n.keys, key, o));
    assert(owner(n.keys, key) == Some(i));
    if 0 <= k < n.validator_set.len() && n.validator_set[k].id.id == n.keys[i].0 {
        let id = n.keys[i].0;
        assert(has_member(n.validator_set, id));
        let x = choose|x: int| 0 <= x < n.validator_set.len() && #[trigger] n.validator_set[x].id.id == id;
        lemma_one_position(n.validator_set, x, k);
    }
}

/// The vote of a key that nobody ever had changes nothing and leads to
/// nothing.
pub proof fn strangers_do_not_vote(n: NodeView, key: NodeId, vote: TimeoutVoteView, trusted: bool)
    requires
        forall|i: int, j: int|
            0 <= i < n.keys.len() && 0 <= j < n.keys[i].1.len() ==> (#[trigger] n.keys[i].1[j]).key != key,
    ensures
        after_timeout_vote(n, key, vote, trusted) == n,
        timeout_steps(n, key, vote, trusted) == Seq::<TimeoutStepView>::empty(),
{
    assert forall|i: int| !owns(n.keys, key, i) by {
        if owns(n.keys, key, i) {
            let j = choose|j: int| key_sits_at(n.keys, key, i, j);
            assert(n.keys[i].1[j].key != key);
        }
    }
}

/// A dropped bucket is counted, and nothing else is.
pub proof fn dropped_buckets_are_counted(n: NodeView, signer: NodeId, vote: TimeoutVoteView, trusted: bool)
    requires
        n.timeout_buckets.dom().finite(),
        n.eviction_counters.timeout_buckets < u64::MAX,
    ensures
        ({
            let m = after_timeout_vote(n, signer, vote, trusted);
            let counted = m.eviction_counters.timeout_buckets - n.eviction_counters.timeout_buckets;
            &&& counted == 0 || counted == 1
            &&& counted == 1 <==> voter(n, signer) is Some && vote.view >= n.pacemaker.current_view
                && !n.timeout_buckets.contains_key(vote.view) && n.timeout_buckets.len() > 0
                && n.timeout_buckets.len() >= n.timeout_buckets_capacity
            &&& m.eviction_counters.vote_bucket == n.eviction_counters.vote_bucket
            &&& m.eviction_counters.parked_proposals == n.eviction_counters.parked_proposals
            &&& m.eviction_counters.pending_blocks == n.eviction_counters.pending_blocks
        }),
{
}

/// A timeout vote that is new names the view that is given up and carries the
/// freshest certificate that the replica has; one that is repeated is for the
/// view that is given up too. Only a record for that very view is repeated.
pub proof fn a_timeout_vote_is_for_its_view(m: Map<Seq<u8>, Seq<u8>>, view: u64, high_qc: Option<QcView>)
    ensures
        match timeout_decision(m, view, high_qc) {
            TimeoutDecision::Fresh(v) => v.view == view && v.high_qc == high_qc,
            TimeoutDecision::Replay(v) => v.view == view && m.contains_key(
                key_bytes(STORAGE_KEY_LAST_TIMEOUT_VOTE),
            ),
            TimeoutDecision::Corrupt => m.contains_key(key_bytes(STORAGE_KEY_LAST_TIMEOUT_VOTE)),
        },
{
}

} // verus!
