//! What changes of the committee and of keys come to.

use vstd::prelude::*;

use crate::bytes::{below_at, bytes_less};
use crate::key_history::{
    key_in_force, key_sits_at, keys_ok, owner, owns, rotation_keeps_earlier_keys, KeyEntry, RotationError, Timelines,
};
use crate::key_laws::keys_lead_to_their_holders;
use crate::node::commit::{reconfig_outcome, reconfig_outcomes, reconfigured, rekeyed, rotation_outcomes};
use crate::node::config::{SnapshotPolicy, MIN_VALIDATOR_FLOOR, MIN_V_EFF_DELAY};
use crate::node::consensus_node::NodeView;
use crate::node::membership::{
    committees_after, judge, judge_rotation, keys_after, Keys, ReconfigOutcome, ReconfigView, RotationOutcome,
    RotationView,
};
use crate::node::rebuild::{after_block, rotate_all, HistoriesView};
use crate::types::SignatureSchemeChoice;
use crate::validator_history::{
    history_ok, later_boundary_keeps_earlier_committee, newest_boundary_rules_from_its_view, set_at, HistoryView,
};
use crate::validator_set::{
    committee, lemma_committee_of, listed_as, sorted_members, Member, NodeId, ValidatorId, MEMBER_LIMIT,
};

verus! {

// ---- committee changes ---------------------------------------------------

/// A change takes effect no sooner than both the operator and the protocol
/// allow, leads to a committee that is large enough, has no weight of zero
/// and lists nobody twice, and comes while no other change is pending. Where
/// all of that holds, it is applied, at the view that it names.
pub proof fn a_change_applies_if_it_keeps_the_rules(
    h: HistoryView,
    block_view: u64,
    min_delay: u64,
    v_eff: u64,
    members: Seq<(ValidatorId, u64)>,
)
    ensures
        ({
            let o = judge(h, block_view, min_delay, ReconfigView::Candidate { v_eff, members });
            let keeps_delay = v_eff >= block_view + min_delay && v_eff >= block_view + MIN_V_EFF_DELAY;
            let large = members.len() >= MIN_VALIDATOR_FLOOR;
            let free = forall|i: int| 0 <= i < h.len() ==> (#[trigger] h[i]).0 <= block_view;
            let weighty = forall|i: int| 0 <= i < members.len() ==> (#[trigger] members[i]).1 != 0;
            let distinct = forall|i: int, j: int|
                0 <= i < members.len() && 0 <= j < members.len() && i != j ==> (#[trigger] members[i]).0.id != (
                #[trigger] members[j]).0.id;
            &&& o is Applied <==> keeps_delay && large && free && weighty && distinct
            &&& o matches ReconfigOutcome::Applied { v_eff: v } ==> v == v_eff
            &&& o is TooSoon <==> !keeps_delay
            &&& o is TooSmall <==> keeps_delay && !large
            &&& o is Conflict <==> keeps_delay && large && !free
            &&& o is BadCommittee <==> keeps_delay && large && free && !(weighty && distinct)
        }),
{
    let o = judge(h, block_view, min_delay, ReconfigView::Candidate { v_eff, members });
    let free = forall|i: int| 0 <= i < h.len() ==> (#[trigger] h[i]).0 <= block_view;
    if !free {
        let i = choose|i: int| 0 <= i < h.len() && !((#[trigger] h[i]).0 <= block_view);
        assert(h[i].0 != 0 && h[i].0 > block_view);
    }
}

/// What is not a committee change is told apart and changes nothing.
pub proof fn other_commands_are_no_changes(h: HistoryView, block_view: u64, min_delay: u64, input: ReconfigView)
    requires
        !(input is Candidate),
    ensures
        committees_after(h, block_view, min_delay, input) == h,
        judge(h, block_view, min_delay, input) is Other <==> input is Other,
        judge(h, block_view, min_delay, input) is Malformed <==> input is Malformed,
        judge(h, block_view, min_delay, input) is Refused <==> input is Refused,
{
}

proof fn lemma_ids_compare(a: [u8; 32], b: [u8; 32], n: int)
    requires
        0 <= n <= 32,
        forall|j: int| 0 <= j < n ==> a@[j] == b@[j],
        a != b,
    ensures
        bytes_less(a@, b@) || bytes_less(b@, a@),
    decreases 32 - n,
{
    if n == 32 {
        assert(a@ =~= b@);
        assert(a =~= b);
    } else if a@[n] < b@[n] {
        assert(below_at(a@, b@, n));
    } else if b@[n] < a@[n] {
        assert(below_at(b@, a@, n));
    } else {
        lemma_ids_compare(a, b, n + 1);
    }
}

/// The place of `x` among sorted members that it is not one of.
proof fn lemma_place(m: Seq<Member>, x: Member, k: int) -> (p: int)
    requires
        sorted_members(m),
        0 <= k <= m.len(),
        forall|i: int| 0 <= i < m.len() ==> (#[trigger] m[i]).id.id != x.id.id,
        forall|i: int| 0 <= i < k ==> bytes_less((#[trigger] m[i]).id.id@, x.id.id@),
    ensures
        0 <= p <= m.len(),
        sorted_members(m.insert(p, x)),
    decreases m.len() - k,
{
    if k < m.len() && bytes_less(m[k].id.id@, x.id.id@) {
        lemma_place(m, x, k + 1)
    } else {
        let g = m.insert(k, x);
        if k < m.len() {
            lemma_ids_compare(m[k].id.id, x.id.id, 0);
        }
        assert forall|i: int, j: int| 0 <= i < j < g.len() implies bytes_less(
            #[trigger] g[i].id.id@,
            #[trigger] g[j].id.id@,
        ) by {
            if i < k {
                assert(g[i] == m[i]);
                if j > k {
                    assert(g[j] == m[j - 1]);
                } else if j < k {
                    assert(g[j] == m[j]);
                }
            } else if i == k {
                assert(g[j] == m[j - 1]);
                if j - 1 > k {
                    crate::bytes::bytes_less_transitive(x.id.id@, m[k].id.id@, m[j - 1].id.id@);
                }
            } else {
                assert(g[i] == m[i - 1] && g[j] == m[j - 1]);
            }
        }
        k
    }
}

/// Entries with positive weights and distinct validators make a committee.
proof fn lemma_committee_exists(e: Seq<(ValidatorId, u64)>) -> (m: Seq<Member>)
    requires
        e.len() < MEMBER_LIMIT,
        forall|i: int| 0 <= i < e.len() ==> (#[trigger] e[i]).1 > 0,
        forall|i: int, j: int| 0 <= i < j < e.len() ==> (#[trigger] e[i]).0.id != (#[trigger] e[j]).0.id,
    ensures
        listed_as(m, e),
    decreases e.len(),
{
    if e.len() == 0 {
        let m: Seq<Member> = seq![];
        m
    } else {
        let d = e.drop_last();
        let n = e.len() - 1;
        assert forall|i: int, j: int| 0 <= i < j < d.len() implies (#[trigger] d[i]).0.id != (#[trigger] d[j]).0.id by {
            assert(d[i] == e[i] && d[j] == e[j]);
        }
        assert forall|i: int| 0 <= i < d.len() implies (#[trigger] d[i]).1 > 0 by {
            assert(d[i] == e[i]);
        }
        let m = lemma_committee_exists(d);
        let x = Member { id: e[n].0, weight: e[n].1 };
        assert forall|i: int| 0 <= i < m.len() implies (#[trigger] m[i]).id.id != x.id.id by {
            assert(d.contains((m[i].id, m[i].weight)));
            let k = choose|k: int| 0 <= k < d.len() && d[k] == (m[i].id, m[i].weight);
            assert(e[k] == d[k]);
            assert(e[k].0.id != e[n].0.id);
        }
        let p = lemma_place(m, x, 0);
        let g = m.insert(p, x);
        assert(g[p] == x);
        assert forall|i: int| 0 <= i < e.len() implies g.contains(
            (Member { id: (#[trigger] e[i]).0, weight: e[i].1 }),
        ) by {
            if i < n {
                assert(d[i] == e[i]);
                let y = Member { id: d[i].0, weight: d[i].1 };
                assert(m.contains(y));
                let k = choose|k: int| 0 <= k < m.len() && m[k] == y;
                assert(g[if k < p { k } else { k + 1 }] == y);
            }
        }
        assert forall|j: int| 0 <= j < g.len() implies e.contains(((#[trigger] g[j]).id, g[j].weight)) by {
            if j != p {
                let y = m[if j < p { j } else { j - 1 }];
                assert(g[j] == y);
                assert(d.contains((y.id, y.weight)));
                let k = choose|k: int| 0 <= k < d.len() && d[k] == (y.id, y.weight);
                assert(e[k] == d[k]);
            } else {
                assert(e[n] == (g[j].id, g[j].weight));
            }
        }
        assert forall|i: int| 0 <= i < g.len() implies (#[trigger] g[i]).weight > 0 by {
            if i != p {
                assert(g[i] == m[if i < p { i } else { i - 1 }]);
            }
        }
        g
    }
}

/// A change that is applied adds one boundary, at the view that it names, and
/// leaves the others as they are. From that view on the committee has exactly
/// the listed validators, each with the listed weight; before it, the
/// committee is the one it was.
pub proof fn an_applied_change_installs_the_listed_committee(
    h: HistoryView,
    block_view: u64,
    min_delay: u64,
    v_eff: u64,
    members: Seq<(ValidatorId, u64)>,
    view: u64,
)
    requires
        history_ok(h),
        members.len() < MEMBER_LIMIT,
        judge(h, block_view, min_delay, ReconfigView::Candidate { v_eff, members }) is Applied,
    ensures
        ({
            let g = committees_after(h, block_view, min_delay, ReconfigView::Candidate { v_eff, members });
            let set = set_at(g, view);
            &&& history_ok(g)
            &&& g.len() == h.len() + 1
            &&& forall|i: int| 0 <= i < h.len() ==> #[trigger] g[i] == h[i]
            &&& g[h.len() as int].0 == v_eff
            &&& view < v_eff ==> set == set_at(h, view)
            &&& view >= v_eff ==> {
                &&& committee(set)
                &&& set.len() == members.len()
                &&& forall|i: int|
                    0 <= i < members.len() ==> set.contains(
                        (Member { id: (#[trigger] members[i]).0, weight: members[i].1 }),
                    )
            }
        }),
{
    let input = ReconfigView::Candidate { v_eff, members };
    let g = committees_after(h, block_view, min_delay, input);
    a_change_applies_if_it_keeps_the_rules(h, block_view, min_delay, v_eff, members);
    let m = lemma_committee_exists(members);
    lemma_committee_of(m, members);
    assert(g == h.push((v_eff, m)));
    assert forall|i: int, j: int| 0 <= i < j < g.len() implies (#[trigger] g[i]).0 < (#[trigger] g[j]).0 by {
        assert(g[i] == h[i]);
        if j < h.len() {
            assert(g[j] == h[j]);
        } else {
            assert(h[i].0 <= block_view);
        }
    }
    assert forall|i: int| 0 <= i < g.len() implies committee((#[trigger] g[i]).1) by {
        if i < h.len() {
            assert(g[i] == h[i]);
        }
    }
    if view < v_eff {
        later_boundary_keeps_earlier_committee(h, v_eff, m, view);
    } else {
        newest_boundary_rules_from_its_view(h, v_eff, m, view);
    }
}

/// A node takes a change over everywhere at once: what is applied is the last
/// boundary of its own committees, of the safety state and of the leader
/// selector. What is not applied changes nothing at all, except that a change
/// that the safety state has no room for is known to the node alone.
pub proof fn a_node_takes_a_change_over_everywhere(n: NodeView, block_view: u64, input: ReconfigView)
    requires
        history_ok(n.validator_history),
        history_ok(n.state.validator_history),
    ensures
        ({
            let m = reconfigured(n, block_view, seq![input]);
            let o = reconfig_outcome(n, block_view, input);
            let g = committees_after(n.validator_history, block_view, n.min_v_eff_delay, input);
            &&& m.validator_history == g
            &&& o is Applied ==> {
                &&& m.selector == g
                &&& m.state.validator_history == n.state.validator_history.push(g.last())
                &&& g.last().0 > n.state.validator_history.last().0
            }
            &&& o is Unmirrored ==> {
                &&& m.selector == n.selector
                &&& m.state == n.state
                &&& g.len() == n.validator_history.len() + 1
                &&& g.last().0 <= n.state.validator_history.last().0
            }
            &&& !(o is Applied) && !(o is Unmirrored) ==> m == n && o == judge(
                n.validator_history,
                block_view,
                n.min_v_eff_delay,
                input,
            )
            &&& m == (NodeView {
                validator_history: m.validator_history,
                selector: m.selector,
                state: crate::state::StateView {
                    validator_history: m.state.validator_history,
                    ..n.state
                },
                ..n
            })
        }),
{
    reveal_with_fuel(reconfigured, 2);
    assert(seq![input].drop_last() =~= seq![]);
}

/// The changes of a block are taken over one after the other.
pub proof fn changes_are_taken_over_in_order(n: NodeView, block_view: u64, a: Seq<ReconfigView>, b: Seq<ReconfigView>)
    ensures
        reconfigured(n, block_view, a + b) == reconfigured(reconfigured(n, block_view, a), block_view, b),
    decreases b.len(),
{
    if b.len() == 0 {
        assert(a + b =~= a);
    } else {
        assert((a + b).drop_last() =~= a + b.drop_last());
        changes_are_taken_over_in_order(n, block_view, a, b.drop_last());
    }
}

// ---- key rotations -------------------------------------------------------

/// What a rotation of the validator that holds `validator` comes to. It needs
/// a signature under the validator's newest key, has to suit the chain's
/// signature scheme, has to take effect after the block that carries it and
/// after the validator's newest key did, and the new key must not be anybody
/// else's. Where all of that holds the signing key is rotated.
pub proof fn a_rotation_applies_if_it_keeps_the_rules(
    k: Keys,
    scheme: SignatureSchemeChoice,
    block_view: u64,
    validator: NodeId,
    new_key: NodeId,
    v_eff: u64,
    new_bls_key: Option<[u8; 48]>,
    attested_under: Seq<NodeId>,
    scheme_consistent: bool,
    i: int,
    j: int,
)
    requires
        keys_ok(k.signing),
        0 <= i < k.signing.len(),
        0 <= j < k.signing[i].1.len(),
        k.signing[i].1[j].key == validator,
    ensures
        ({
            let input = RotationView::Signed {
                validator,
                new_key,
                v_eff,
                new_bls_key,
                attested_under,
                scheme_consistent,
            };
            let o = judge_rotation(k, scheme, block_view, input);
            let newest = k.signing[i].1.last();
            let signed = attested_under.contains(newest.key);
            let free = forall|a: int, b: int|
                0 <= a < k.signing.len() && a != i && 0 <= b < k.signing[a].1.len() ==> (
                #[trigger] k.signing[a].1[b]).key != new_key;
            let stands = signed && scheme_consistent && v_eff > block_view && v_eff > newest.v_eff && free;
            &&& (o is Applied || o is BlsLeftBehind) <==> stands
            &&& o is Unattested <==> !signed
            &&& o is SchemeMismatch <==> signed && !scheme_consistent
            &&& o == RotationOutcome::Refused(RotationError::NotAfterBlock) <==> signed && scheme_consistent && v_eff
                <= block_view
            &&& o == RotationOutcome::Refused(RotationError::NotAfterLast) <==> signed && scheme_consistent && v_eff
                > block_view && v_eff <= newest.v_eff
            &&& o == RotationOutcome::Refused(RotationError::KeyOfAnother) <==> signed && scheme_consistent && v_eff
                > block_view && v_eff > newest.v_eff && !free
            &&& o matches RotationOutcome::Applied { v_eff: v } ==> v == v_eff
            &&& o matches RotationOutcome::BlsLeftBehind { v_eff: v, .. } ==> v == v_eff && scheme
                == SignatureSchemeChoice::BlsAggregated
        }),
{
    let h = k.signing;
    keys_lead_to_their_holders(h, i, j, validator, validator);
    let free = forall|a: int, b: int|
        0 <= a < h.len() && a != i && 0 <= b < h[a].1.len() ==> (#[trigger] h[a].1[b]).key != new_key;
    if !free {
        let (a, b) = choose|a: int, b: int|
            0 <= a < h.len() && a != i && 0 <= b < h[a].1.len() && !((#[trigger] h[a].1[b]).key != new_key);
        keys_lead_to_their_holders(h, a, b, new_key, new_key);
    } else if owner(h, new_key) is Some {
        let o = owner(h, new_key)->0;
        keys_lead_to_their_holders(h, o, 0, new_key, new_key);
        let x = choose|x: int| 0 <= x < h[o].1.len() && (#[trigger] h[o].1[x]).key == new_key;
        assert(h[o].1[x].key == new_key);
    }
}

/// A rotation that stands gives the validator its new key from the view that
/// it names, keeps the key of every earlier view, and leaves everybody else's
/// keys alone.
pub proof fn a_rotation_changes_one_key_from_its_view(
    k: Keys,
    scheme: SignatureSchemeChoice,
    block_view: u64,
    validator: NodeId,
    new_key: NodeId,
    v_eff: u64,
    new_bls_key: Option<[u8; 48]>,
    attested_under: Seq<NodeId>,
    scheme_consistent: bool,
    i: int,
    j: int,
    view: u64,
)
    requires
        keys_ok(k.signing),
        0 <= i < k.signing.len(),
        0 <= j < k.signing[i].1.len(),
        k.signing[i].1[j].key == validator,
        ({
            let o = judge_rotation(
                k,
                scheme,
                block_view,
                RotationView::Signed { validator, new_key, v_eff, new_bls_key, attested_under, scheme_consistent },
            );
            o is Applied || o is BlsLeftBehind
        }),
    ensures
        ({
            let input = RotationView::Signed {
                validator,
                new_key,
                v_eff,
                new_bls_key,
                attested_under,
                scheme_consistent,
            };
            let g = keys_after(k, scheme, block_view, input);
            &&& g.signing.len() == k.signing.len()
            &&& g.signing[i].0 == k.signing[i].0
            &&& forall|a: int| 0 <= a < k.signing.len() && a != i ==> #[trigger] g.signing[a] == k.signing[a]
            &&& view >= v_eff ==> key_in_force(g.signing[i].1, view) == Some(new_key)
            &&& view < v_eff ==> key_in_force(g.signing[i].1, view) == key_in_force(k.signing[i].1, view)
            &&& scheme == SignatureSchemeChoice::Ed25519Collected ==> g.bls == k.bls
        }),
{
    keys_lead_to_their_holders(k.signing, i, j, validator, validator);
    rotation_keeps_earlier_keys(k.signing[i].1, KeyEntry { v_eff, key: new_key }, view);
}

/// On a chain with BLS keys a rotation that is applied in full gives the same
/// validator its new BLS key from the same view, and leaves all other BLS keys
/// alone. One whose BLS half is not taken leaves all of them alone.
pub proof fn both_keys_rotate_together(
    k: Keys,
    block_view: u64,
    validator: NodeId,
    new_key: NodeId,
    v_eff: u64,
    new_bls_key: [u8; 48],
    attested_under: Seq<NodeId>,
    scheme_consistent: bool,
    i: int,
    j: int,
    b: int,
    view: u64,
)
    requires
        keys_ok(k.signing),
        k.bls is Some,
        keys_ok(k.bls->0),
        0 <= i < k.signing.len(),
        0 <= j < k.signing[i].1.len(),
        k.signing[i].1[j].key == validator,
        0 <= b < k.bls->0.len(),
        k.bls->0[b].0 == k.signing[i].0,
    ensures
        ({
            let scheme = SignatureSchemeChoice::BlsAggregated;
            let input = RotationView::Signed {
                validator,
                new_key,
                v_eff,
                new_bls_key: Some(new_bls_key),
                attested_under,
                scheme_consistent,
            };
            let o = judge_rotation(k, scheme, block_view, input);
            let old = k.bls->0;
            let new = keys_after(k, scheme, block_view, input).bls;
            &&& o is Applied ==> {
                &&& new is Some
                &&& new->0.len() == old.len()
                &&& new->0[b].0 == old[b].0
                &&& forall|a: int| 0 <= a < old.len() && a != b ==> #[trigger] new->0[a] == old[a]
                &&& view >= v_eff ==> key_in_force(new->0[b].1, view) == Some(new_bls_key)
                &&& view < v_eff ==> key_in_force(new->0[b].1, view) == key_in_force(old[b].1, view)
                &&& v_eff > old[b].1.last().v_eff
            }
            &&& !(o is Applied) ==> new == k.bls
        }),
{
    let old = k.bls->0;
    keys_lead_to_their_holders(k.signing, i, j, validator, validator);
    keys_lead_to_their_holders(old, b, 0, new_bls_key, k.signing[i].0);
    rotation_keeps_earlier_keys(old[b].1, KeyEntry { v_eff, key: new_bls_key }, view);
}

/// A node rotates its own keys with a block, and nothing else changes.
pub proof fn rotations_touch_the_keys_only(n: NodeView, block_view: u64, input: RotationView)
    ensures
        ({
            let m = rekeyed(n, block_view, seq![input]);
            let k = keys_after(Keys { signing: n.keys, bls: n.bls }, n.signature_scheme, block_view, input);
            &&& m.keys == k.signing
            &&& m.bls == k.bls
            &&& m == (NodeView { keys: m.keys, bls: m.bls, ..n })
        }),
{
    reveal_with_fuel(crate::node::rebuild::rotate_all, 2);
    assert(seq![input].drop_last() =~= seq![]);
}

/// What a block does to the histories, command by command: its committee
/// changes come before its rotations, and of each the earlier before the
/// later.
pub proof fn a_block_is_taken_over_command_by_command(
    h: HistoriesView,
    scheme: SignatureSchemeChoice,
    min_delay: u64,
    block_view: u64,
    reconfigs: Seq<ReconfigView>,
    c: ReconfigView,
    rotations: Seq<RotationView>,
    r: RotationView,
)
    ensures
        ({
            let changed = after_block(h, scheme, min_delay, block_view, reconfigs.push(c), seq![]);
            let before = after_block(h, scheme, min_delay, block_view, reconfigs, seq![]);
            let turned = after_block(h, scheme, min_delay, block_view, reconfigs, rotations.push(r));
            let held = after_block(h, scheme, min_delay, block_view, reconfigs, rotations);
            let k = keys_after(Keys { signing: held.signing, bls: held.bls }, scheme, block_view, r);
            &&& after_block(h, scheme, min_delay, block_view, seq![], seq![]) == h
            &&& changed.committees == committees_after(before.committees, block_view, min_delay, c)
            &&& changed.bls == before.bls
            &&& changed.committees == before.committees ==> changed.signing == before.signing
            &&& turned.committees == held.committees
            &&& turned.signing == k.signing
            &&& turned.bls == k.bls
        }),
{
    assert(reconfigs.push(c).drop_last() =~= reconfigs);
    assert(rotations.push(r).drop_last() =~= rotations);
    if crate::node::membership::judge(
        after_block(h, scheme, min_delay, block_view, reconfigs, seq![]).committees,
        block_view,
        min_delay,
        c,
    ) is Applied {
        let p = after_block(h, scheme, min_delay, block_view, reconfigs, seq![]).committees;
        assert(p.push(crate::node::membership::boundary_of(c)).len() == p.len() + 1);
    }
}

/// Snapshots are due at the multiples of the interval after genesis.
pub proof fn snapshots_are_due_at_multiples(p: SnapshotPolicy, k: u64)
    requires
        p.interval_blocks > 0,
        k * p.interval_blocks <= u64::MAX,
    ensures
        k > 0 ==> p.due_at((k * p.interval_blocks) as u64),
        forall|height: u64| #[trigger]
            p.due_at(height) ==> height >= p.interval_blocks && exists|x: int| height == #[trigger] (x
                * p.interval_blocks),
        forall|height: u64| k * p.interval_blocks < height < (k + 1) * p.interval_blocks ==> !#[trigger] p.due_at(height),
{
    let d = p.interval_blocks as int;
    vstd::arithmetic::div_mod::lemma_mod_multiples_basic(k as int, d);
    if k > 0 {
        assert(k * d > 0) by (nonlinear_arith)
            requires
                k > 0,
                d > 0,
        ;
    }
    assert forall|height: u64| #[trigger] p.due_at(height) implies height >= p.interval_blocks && exists|x: int|
        height == #[trigger] (x * p.interval_blocks) by {
        vstd::arithmetic::div_mod::lemma_fundamental_div_mod(height as int, d);
        let x = height as int / d;
        assert(height == x * d) by (nonlinear_arith)
            requires
                height == d * x + height as int % d,
                height as int % d == 0,
        ;
        if height < d {
            vstd::arithmetic::div_mod::lemma_small_mod(height as nat, d as nat);
        }
    }
    assert forall|height: u64| k * p.interval_blocks < height < (k + 1) * p.interval_blocks implies !#[trigger] p.due_at(
        height,
    ) by {
        let r = height - k * d;
        assert((k + 1) * d == k * d + d) by (nonlinear_arith);
        vstd::arithmetic::div_mod::lemma_mod_multiples_vanish(k as int, r, d);
        vstd::arithmetic::div_mod::lemma_small_mod(r as nat, d as nat);
        assert(d * k + r == height) by (nonlinear_arith)
            requires
                r == height - k * d,
        ;
    }
}

/// The members of a committee that is applied join the keys of a rebuild, with
/// the keys that their identities keep.
pub proof fn new_members_join_with_the_change(
    h: HistoriesView,
    scheme: SignatureSchemeChoice,
    min_delay: u64,
    block_view: u64,
    c: ReconfigView,
)
    requires
        judge(h.committees, block_view, min_delay, c) is Applied,
    ensures
        ({
            let g = after_block(h, scheme, min_delay, block_view, seq![c], seq![]);
            let b = g.committees.last();
            &&& g.committees.len() == h.committees.len() + 1
            &&& g.signing == crate::key_history::joined(h.signing, b.1, b.0)
        }),
{
    reveal_with_fuel(crate::node::rebuild::reconfig_all, 2);
    assert(seq![c].drop_last() =~= seq![]);
}

/// Whether a key history takes a rotation that names a validator by a key or
/// by its identity: the new key has to be in force after the newest one, and
/// must not be anybody else's; one that names a key has to take effect after
/// its block as well.
pub proof fn a_key_history_takes_rotations_that_keep_the_rules<const N: usize>(
    h: Timelines<N>,
    key: [u8; N],
    id: NodeId,
    new_key: [u8; N],
    v_eff: u64,
    block_view: u64,
    i: int,
    j: int,
)
    requires
        keys_ok(h),
        0 <= i < h.len(),
        0 <= j < h[i].1.len(),
        h[i].1[j].key == key,
        h[i].0 == id,
    ensures
        ({
            let later = v_eff > h[i].1.last().v_eff;
            let free = forall|a: int, b: int|
                0 <= a < h.len() && a != i && 0 <= b < h[a].1.len() ==> (#[trigger] h[a].1[b]).key != new_key;
            &&& crate::key_history::rotate_verdict(h, id, new_key, v_eff) is Ok <==> later && free
            &&& crate::key_history::rotation_verdict(h, key, new_key, v_eff, block_view) is Ok <==> later && free && v_eff
                > block_view
        }),
{
    keys_lead_to_their_holders(h, i, j, key, id);
    let free = forall|a: int, b: int|
        0 <= a < h.len() && a != i && 0 <= b < h[a].1.len() ==> (#[trigger] h[a].1[b]).key != new_key;
    if !free {
        let (a, b) = choose|a: int, b: int|
            0 <= a < h.len() && a != i && 0 <= b < h[a].1.len() && !((#[trigger] h[a].1[b]).key != new_key);
        keys_lead_to_their_holders(h, a, b, new_key, id);
    } else if owner(h, new_key) is Some {
        let o = owner(h, new_key)->0;
        keys_lead_to_their_holders(h, o, 0, new_key, id);
        let x = choose|x: int| 0 <= x < h[o].1.len() && (#[trigger] h[o].1[x]).key == new_key;
        assert(h[o].1[x].key == new_key);
    }
}

/// A rotation that nobody can be found for is told apart, and so is what is no
/// rotation.
pub proof fn strangers_do_not_rotate(k: Keys, scheme: SignatureSchemeChoice, block_view: u64, input: RotationView)
    ensures
        judge_rotation(k, scheme, block_view, input) is Other <==> input is Other,
        judge_rotation(k, scheme, block_view, input) is Malformed <==> input is Malformed,
        judge_rotation(k, scheme, block_view, input) is UnknownValidator <==> input is Signed && forall|i: int, j: int|
            0 <= i < k.signing.len() && 0 <= j < k.signing[i].1.len() ==> (#[trigger] k.signing[i].1[j]).key
                != input->validator,
{
    if let RotationView::Signed { validator, .. } = input {
        let h = k.signing;
        if owner(h, validator) is Some {
            let o = owner(h, validator)->0;
            assert(owns(h, validator, o));
            let x = choose|x: int| key_sits_at(h, validator, o, x);
            assert(key_sits_at(h, validator, o, x));
            assert(h[o].1[x].key == validator);
        } else {
            assert forall|i: int, j: int| 0 <= i < h.len() && 0 <= j < h[i].1.len() implies (#[trigger] h[i].1[j]).key
                != validator by {
                if h[i].1[j].key == validator {
                    assert(key_sits_at(h, validator, i, j));
                    assert(owns(h, validator, i));
                }
            }
        }
    }
}

/// Every command of a block gets its outcome, judged after those before it.
pub proof fn every_command_gets_its_outcome(
    n: NodeView,
    block_view: u64,
    reconfigs: Seq<ReconfigView>,
    k: Keys,
    scheme: SignatureSchemeChoice,
    rotations: Seq<RotationView>,
)
    ensures
        reconfig_outcomes(n, block_view, reconfigs).len() == reconfigs.len(),
        forall|i: int|
            0 <= i < reconfigs.len() ==> #[trigger] reconfig_outcomes(n, block_view, reconfigs)[i] == reconfig_outcome(
                reconfigured(n, block_view, reconfigs.take(i)),
                block_view,
                reconfigs[i],
            ),
        rotation_outcomes(k, scheme, block_view, rotations).len() == rotations.len(),
        forall|i: int|
            0 <= i < rotations.len() ==> #[trigger] rotation_outcomes(k, scheme, block_view, rotations)[i]
                == judge_rotation(rotate_all(k, scheme, block_view, rotations.take(i)), scheme, block_view, rotations[i]),
    decreases reconfigs.len() + rotations.len(),
{
    if reconfigs.len() > 0 {
        let d = reconfigs.drop_last();
        every_command_gets_its_outcome(n, block_view, d, k, scheme, rotations);
        assert forall|i: int| 0 <= i < reconfigs.len() implies #[trigger] reconfig_outcomes(n, block_view, reconfigs)[i]
            == reconfig_outcome(reconfigured(n, block_view, reconfigs.take(i)), block_view, reconfigs[i]) by {
            if i < d.len() {
                assert(d.take(i) =~= reconfigs.take(i));
                assert(reconfig_outcomes(n, block_view, d)[i] == reconfig_outcome(
                    reconfigured(n, block_view, d.take(i)),
                    block_view,
                    d[i],
                ));
            } else {
                assert(reconfigs.take(i) =~= d);
            }
        }
    }
    if rotations.len() > 0 {
        let d = rotations.drop_last();
        every_command_gets_its_outcome(n, block_view, reconfigs, k, scheme, d);
        assert forall|i: int| 0 <= i < rotations.len() implies #[trigger] rotation_outcomes(
            k,
            scheme,
            block_view,
            rotations,
        )[i] == judge_rotation(rotate_all(k, scheme, block_view, rotations.take(i)), scheme, block_view, rotations[i]) by {
            if i < d.len() {
                assert(d.take(i) =~= rotations.take(i));
                assert(rotation_outcomes(k, scheme, block_view, d)[i] == judge_rotation(
                    rotate_all(k, scheme, block_view, d.take(i)),
                    scheme,
                    block_view,
                    d[i],
                ));
            } else {
                assert(rotations.take(i) =~= d);
            }
        }
    }
}

/// The rotations of a block are taken over one after the other.
pub proof fn rotations_are_taken_over_in_order(
    k: Keys,
    scheme: SignatureSchemeChoice,
    block_view: u64,
    a: Seq<RotationView>,
    b: Seq<RotationView>,
)
    ensures
        rotate_all(k, scheme, block_view, a + b) == rotate_all(
            rotate_all(k, scheme, block_view, a),
            scheme,
            block_view,
            b,
        ),
        rotate_all(k, scheme, block_view, seq![]) == k,
    decreases b.len(),
{
    if b.len() == 0 {
        assert(a + b =~= a);
    } else {
        assert((a + b).drop_last() =~= a + b.drop_last());
        rotations_are_taken_over_in_order(k, scheme, block_view, a, b.drop_last());
    }
}

} // verus!
