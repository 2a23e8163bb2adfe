//! What committees and keys in force come to.

use vstd::prelude::*;

use crate::key_history::{
    genesis_timelines, joined, joined_over, key_in_force, key_sits_at, keys_ok, owner, owns, rising, timeline_of,
    KeyEntry, Timelines,
};
use crate::quorum::{honesty_of, quorum_of};
use crate::validator_history::{history_ok, lemma_regime_unique, set_at, HistoryView};
use crate::validator_set::{has_member, weight_sum, Member, NodeId};

verus! {

// ---- quorums -------------------------------------------------------------

/// A weight makes a quorum exactly if it is more than two thirds of the
/// total, and it cannot be all faulty exactly if it is more than one third.
pub proof fn thresholds_are_two_thirds_and_one_third(total: nat, weight: nat)
    ensures
        weight >= quorum_of(total) <==> 3 * weight > 2 * total,
        weight >= honesty_of(total) <==> 3 * weight > total,
{
}

/// The weight of a committee is that of its parts.
pub proof fn weights_add_up(a: Seq<Member>, b: Seq<Member>)
    ensures
        weight_sum(a + b) == weight_sum(a) + weight_sum(b),
        a.len() == 1 ==> weight_sum(a) == a[0].weight,
        a.len() == 0 ==> weight_sum(a) == 0,
    decreases b.len(),
{
    reveal_with_fuel(weight_sum, 2);
    if b.len() == 0 {
        assert(a + b =~= a);
    } else {
        assert((a + b).drop_last() =~= a + b.drop_last());
        weights_add_up(a, b.drop_last());
    }
}

// ---- committees ----------------------------------------------------------

/// The committee at a view is that of the last boundary at or before it.
pub proof fn the_last_boundary_rules(h: HistoryView, view: u64, k: int)
    requires
        history_ok(h),
        0 <= k < h.len(),
        h[k].0 <= view,
        forall|j: int| k < j < h.len() ==> view < (#[trigger] h[j]).0,
    ensures
        set_at(h, view) == h[k].1,
{
    lemma_regime_unique(h, view, k);
}

// ---- keys ----------------------------------------------------------------

/// The key in force at a view is that of the last entry at or before it; up
/// to the first entry there is none.
pub proof fn the_last_entry_is_in_force<const N: usize>(e: Seq<KeyEntry<N>>, view: u64, k: int)
    requires
        rising(e),
        -1 <= k < e.len(),
        k >= 0 ==> e[k].v_eff <= view,
        forall|j: int| k < j < e.len() ==> view < (#[trigger] e[j]).v_eff,
    ensures
        key_in_force(e, view) == (if k >= 0 {
            Some(e[k].key)
        } else {
            None
        }),
    decreases e.len(),
{
    if e.len() > 0 && k < e.len() - 1 {
        let d = e.drop_last();
        assert(e[e.len() - 1] == e.last());
        assert forall|a: int, b: int| 0 <= a < b < d.len() implies (#[trigger] d[a]).v_eff < (#[trigger] d[b]).v_eff by {
            assert(d[a] == e[a] && d[b] == e[b]);
        }
        assert forall|j: int| k < j < d.len() implies view < (#[trigger] d[j]).v_eff by {
            assert(d[j] == e[j]);
        }
        the_last_entry_is_in_force(d, view, k);
    }
}

/// A key leads to the validator that has or had it, and an identity to its
/// own timeline; what nobody has leads to nobody.
pub proof fn keys_lead_to_their_holders<const N: usize>(h: Timelines<N>, i: int, j: int, key: [u8; N], id: NodeId)
    requires
        keys_ok(h),
    ensures
        0 <= i < h.len() && 0 <= j < h[i].1.len() && h[i].1[j].key == key ==> owner(h, key) == Some(i),
        owner(h, key) matches Some(o) ==> 0 <= o < h.len() && exists|x: int|
            0 <= x < h[o].1.len() && (#[trigger] h[o].1[x]).key == key,
        0 <= i < h.len() && h[i].0 == id ==> timeline_of(h, id) == Some(i),
        timeline_of(h, id) matches Some(o) ==> 0 <= o < h.len() && h[o].0 == id,
{
    if 0 <= i < h.len() && 0 <= j < h[i].1.len() && h[i].1[j].key == key {
        assert(key_sits_at(h, key, i, j));
        assert(owns(h, key, i));
        let o = choose|o: int| owns(h, key, o);
        assert(owns(h, key, o));
    }
    if let Some(o) = owner(h, key) {
        assert(owns(h, key, o));
        let x = choose|x: int| key_sits_at(h, key, o, x);
        assert(key_sits_at(h, key, o, x));
        assert(h[o].1[x].key == key);
    }
    if 0 <= i < h.len() && h[i].0 == id {
        let o = choose|o: int| 0 <= o < h.len() && (#[trigger] h[o]).0 == id;
        assert(h[i].0 == id);
        if o < i {
            assert(h[o].0 != h[i].0);
        } else if i < o {
            assert(h[i].0 != h[o].0);
        }
    }
}

/// Members join with the key that their identity keeps, from the view of
/// their committee on. Nobody who was known changes, nobody joins who is not
/// a member, and every member is known in the end.
pub proof fn members_join_with_their_own_key(h: Timelines<32>, m: Seq<Member>, v_eff: u64)
    ensures
        ({
            let g = joined(h, m, v_eff);
            &&& g.len() >= h.len()
            &&& forall|i: int| 0 <= i < h.len() ==> #[trigger] g[i] == h[i]
            &&& forall|i: int|
                h.len() <= i < g.len() ==> {
                    &&& (#[trigger] g[i]).1 == seq![KeyEntry { v_eff, key: g[i].0 }]
                    &&& has_member(m, g[i].0)
                }
            &&& forall|k: int|
                0 <= k < m.len() ==> (exists|i: int| 0 <= i < g.len() && (#[trigger] g[i]).0 == (#[trigger] m[k]).id.id)
                    || exists|i: int| owns(g, m[k].id.id, i)
        }),
    decreases m.len(),
{
    if m.len() > 0 {
        let d = m.drop_last();
        let n = m.len() - 1;
        members_join_with_their_own_key(h, d, v_eff);
        let p = joined(h, d, v_eff);
        let g = joined(h, m, v_eff);
        assert forall|i: int| h.len() <= i < g.len() implies (#[trigger] g[i]).1 == seq![KeyEntry { v_eff, key: g[i].0 }]
            && has_member(m, g[i].0) by {
            if i < p.len() {
                assert(p[i] == g[i]);
                let x = choose|x: int| 0 <= x < d.len() && #[trigger] d[x].id.id == g[i].0;
                assert(m[x].id.id == g[i].0);
            } else {
                assert(m[n].id.id == g[i].0);
            }
        }
        assert forall|k: int| 0 <= k < m.len() implies (exists|i: int|
            0 <= i < g.len() && (#[trigger] g[i]).0 == (#[trigger] m[k]).id.id) || exists|i: int|
            owns(g, m[k].id.id, i) by {
            let id = m[k].id.id;
            if k < n {
                assert(d[k] == m[k]);
                if exists|i: int| 0 <= i < p.len() && (#[trigger] p[i]).0 == d[k].id.id {
                    let i = choose|i: int| 0 <= i < p.len() && (#[trigger] p[i]).0 == d[k].id.id;
                    assert(g[i].0 == id);
                } else {
                    let i = choose|i: int| owns(p, id, i);
                    let j = choose|j: int| key_sits_at(p, id, i, j);
                    assert(key_sits_at(g, id, i, j));
                    assert(owns(g, id, i));
                }
            } else if timeline_of(p, id) is None && owner(p, id) is None {
                assert(g[p.len() as int].0 == id);
            } else {
                assert(g == p);
            }
        }
    }
}

/// The keys that go with the committees alone: whoever is known was a member
/// of some committee and has one key, its own, from the first view at which
/// it sat on one.
pub proof fn committees_bring_their_keys(h: HistoryView, i: int)
    requires
        0 <= i < joined_over(h).len(),
    ensures
        ({
            let g = joined_over(h);
            &&& g[i].1.len() == 1
            &&& g[i].1[0].key == g[i].0
            &&& exists|b: int| 0 <= b < h.len() && (#[trigger] h[b]).0 == g[i].1[0].v_eff && has_member(h[b].1, g[i].0)
        }),
    decreases h.len(),
{
    if h.len() > 0 {
        let d = h.drop_last();
        let p = joined_over(d);
        let g = joined_over(h);
        members_join_with_their_own_key(p, h.last().1, h.last().0);
        if i < p.len() {
            committees_bring_their_keys(d, i);
            let b = choose|b: int|
                0 <= b < d.len() && (#[trigger] d[b]).0 == p[i].1[0].v_eff && has_member(d[b].1, p[i].0);
            assert(h[b] == d[b]);
            assert(g[i] == p[i]);
        } else {
            assert(h[h.len() - 1] == h.last());
        }
    }
}

/// At genesis a validator has the key that it had at view zero.
pub proof fn genesis_keeps_the_keys_of_view_zero(h: Timelines<48>, k: int)
    requires
        0 <= k < h.len(),
        h[k].1[0].v_eff == 0,
    ensures
        genesis_timelines(h).contains((h[k].0, seq![h[k].1[0]])),
    decreases h.len(),
{
    let d = h.drop_last();
    let g = genesis_timelines(d);
    let n = h.len() - 1;
    let all = genesis_timelines(h);
    if k < n {
        assert(d[k] == h[k]);
        genesis_keeps_the_keys_of_view_zero(d, k);
        let i = choose|i: int| 0 <= i < g.len() && g[i] == (h[k].0, seq![h[k].1[0]]);
        assert(all[i] == g[i]);
    } else {
        assert(h[n] == h.last());
        assert(all[g.len() as int] == (h[k].0, seq![h[k].1[0]]));
    }
}

/// Nobody is there at genesis who had no key at view zero.
pub proof fn genesis_holds_nobody_else(h: Timelines<48>, i: int)
    requires
        0 <= i < genesis_timelines(h).len(),
    ensures
        exists|x: int|
            0 <= x < h.len() && (#[trigger] h[x]).1[0].v_eff == 0 && genesis_timelines(h)[i] == (
                h[x].0,
                seq![h[x].1[0]],
            ),
    decreases h.len(),
{
    let d = h.drop_last();
    let g = genesis_timelines(d);
    if i < g.len() {
        genesis_holds_nobody_else(d, i);
        let x = choose|x: int|
            0 <= x < d.len() && (#[trigger] d[x]).1[0].v_eff == 0 && g[i] == (d[x].0, seq![d[x].1[0]]);
        assert(h[x] == d[x]);
    } else {
        assert(h[h.len() - 1] == h.last());
    }
}

} // verus!
