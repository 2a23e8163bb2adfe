//! Identities and names in the order in which they are shown.

use vstd::prelude::*;

use crate::bytes::{bytes_less, bytes_less_transitive, relate, Relation};
use crate::validator_set::NodeId;

verus! {

broadcast use vstd::seq_lib::group_to_multiset_ensures;

// ---- identities ----------------------------------------------------------

/// `a` is not above `b`.
pub open spec fn id_at_most(a: NodeId, b: NodeId) -> bool {
    a == b || bytes_less(a@, b@)
}

/// The identities are listed by their bytes.
pub open spec fn ids_in_order(s: Seq<NodeId>) -> bool {
    forall|i: int, j: int| 0 <= i < j < s.len() ==> id_at_most(#[trigger] s[i], #[trigger] s[j])
}

proof fn lemma_id_at_most_transitive(a: NodeId, b: NodeId, c: NodeId)
    requires
        id_at_most(a, b),
        id_at_most(b, c),
    ensures
        id_at_most(a, c),
{
    if bytes_less(a@, b@) && bytes_less(b@, c@) {
        bytes_less_transitive(a@, b@, c@);
    }
}

/// The same identities, by their bytes.
pub fn sorted_ids(ids: &Vec<NodeId>) -> (r: Vec<NodeId>)
    ensures
        ids_in_order(r@),
        r@.to_multiset() == ids@.to_multiset(),
{
    let mut out: Vec<NodeId> = Vec::new();
    let mut i: usize = 0;
    assert(ids@.take(0) =~= seq![]);
    while i < ids.len()
        invariant
            i <= ids.len(),
            ids_in_order(out@),
            out@.to_multiset() == ids@.take(i as int).to_multiset(),
        decreases ids.len() - i,
    {
        let id = ids[i];
        let mut p: usize = 0;
        while p < out.len() && !matches!(relate(&id, &out[p]), Relation::Below)
            invariant
                p <= out.len(),
                forall|k: int| 0 <= k < p ==> id_at_most(#[trigger] out@[k], id),
            ensures
                p <= out.len(),
                forall|k: int| 0 <= k < p ==> id_at_most(#[trigger] out@[k], id),
                p < out.len() ==> id_at_most(id, out@[p as int]),
            decreases out.len() - p,
        {
            p = p + 1;
        }
        let ghost had = out@;
        out.insert(p, id);
        proof {
            assert(ids@.take(i + 1) =~= ids@.take(i as int).push(id));
            assert(out@ == had.insert(p as int, id));
            assert forall|a: int, b: int| 0 <= a < b < out@.len() implies id_at_most(
                #[trigger] out@[a],
                #[trigger] out@[b],
            ) by {
                if a == p {
                    assert(out@[b] == had[b - 1]);
                    if b - 1 > p {
                        lemma_id_at_most_transitive(id, had[p as int], had[b - 1]);
                    }
                } else if b == p {
                    assert(out@[a] == had[a]);
                } else {
                    let x = if a < p { a } else { a - 1 };
                    let y = if b < p { b } else { b - 1 };
                    assert(out@[a] == had[x] && out@[b] == had[y]);
                }
            }
        }
        i = i + 1;
    }
    assert(ids@.take(i as int) =~= ids@);
    out
}

/// In order, identities that occur once each rise from one to the next.
pub proof fn distinct_ids_rise(s: Seq<NodeId>)
    requires
        ids_in_order(s),
        s.no_duplicates(),
    ensures
        forall|i: int, j: int| 0 <= i < j < s.len() ==> bytes_less(#[trigger] s[i]@, #[trigger] s[j]@),
{
    assert forall|i: int, j: int| 0 <= i < j < s.len() implies bytes_less(#[trigger] s[i]@, #[trigger] s[j]@) by {
        assert(id_at_most(s[i], s[j]));
    }
}

// ---- names ---------------------------------------------------------------

/// `a` and `b` agree before position `i`. There `a` ends, or has the smaller
/// character.
pub open spec fn text_below_at(a: Seq<char>, b: Seq<char>, i: int) -> bool {
    &&& 0 <= i <= a.len()
    &&& i < b.len()
    &&& i < a.len() ==> (a[i] as u32) < (b[i] as u32)
    &&& forall|j: int| 0 <= j < i ==> a[j] == b[j]
}

/// The order of a dictionary.
pub open spec fn text_at_most(a: Seq<char>, b: Seq<char>) -> bool {
    a == b || exists|i: int| text_below_at(a, b, i)
}

/// What names say.
pub open spec fn texts(s: Seq<String>) -> Seq<Seq<char>> {
    Seq::new(s.len(), |i: int| s[i]@)
}

/// The names are listed as in a dictionary.
pub open spec fn names_in_order(s: Seq<Seq<char>>) -> bool {
    forall|i: int, j: int| 0 <= i < j < s.len() ==> text_at_most(#[trigger] s[i], #[trigger] s[j])
}

proof fn lemma_text_at_most_transitive(a: Seq<char>, b: Seq<char>, c: Seq<char>)
    requires
        text_at_most(a, b),
        text_at_most(b, c),
    ensures
        text_at_most(a, c),
{
    if a != b && b != c {
        let i = choose|i: int| text_below_at(a, b, i);
        let k = choose|k: int| text_below_at(b, c, k);
        let m = if i < k { i } else { k };
        assert(text_below_at(a, c, m));
    }
}

/// Whether `a` comes no later than `b` in a dictionary.
fn goes_first(a: &str, b: &str) -> (r: bool)
    ensures
        r ==> text_at_most(a@, b@),
        !r ==> text_at_most(b@, a@),
{
    let n: usize = a.unicode_len();
    let m: usize = b.unicode_len();
    let mut i: usize = 0;
    while i < n && i < m
        invariant
            n == a@.len(),
            m == b@.len(),
            i <= n,
            i <= m,
            forall|j: int| 0 <= j < i ==> a@[j] == b@[j],
        decreases n - i,
    {
        let x: u32 = a.get_char(i) as u32;
        let y: u32 = b.get_char(i) as u32;
        if x < y {
            assert(text_below_at(a@, b@, i as int));
            return true;
        }
        if y < x {
            assert(text_below_at(b@, a@, i as int));
            return false;
        }
        i = i + 1;
    }
    if n < m {
        assert(text_below_at(a@, b@, i as int));
        true
    } else if m < n {
        assert(text_below_at(b@, a@, i as int));
        false
    } else {
        assert(a@ =~= b@);
        true
    }
}

/// The same names, as in a dictionary.
pub fn sorted_names(names: Vec<String>) -> (r: Vec<String>)
    ensures
        names_in_order(texts(r@)),
        texts(r@).to_multiset() == texts(names@).to_multiset(),
{
    let ghost all = texts(names@);
    let mut rest = names;
    let mut out: Vec<String> = Vec::new();
    assert(texts(out@) =~= seq![]);
    proof {
        assert(all.to_multiset() =~= texts(out@).to_multiset().add(texts(rest@).to_multiset()));
    }
    while rest.len() > 0
        invariant
            names_in_order(texts(out@)),
            all.to_multiset() =~= texts(out@).to_multiset().add(texts(rest@).to_multiset()),
        decreases rest.len(),
    {
        let ghost left = texts(rest@);
        let ghost had = texts(out@);
        if let Some(name) = rest.pop() {
            let mut p: usize = 0;
            while p < out.len() && goes_first(out[p].as_str(), name.as_str())
                invariant
                    p <= out.len(),
                    forall|k: int| 0 <= k < p ==> text_at_most(#[trigger] texts(out@)[k], name@),
                ensures
                    p <= out.len(),
                    forall|k: int| 0 <= k < p ==> text_at_most(#[trigger] texts(out@)[k], name@),
                    p < out.len() ==> text_at_most(name@, texts(out@)[p as int]),
                decreases out.len() - p,
            {
                p = p + 1;
            }
            let ghost word = name@;
            out.insert(p, name);
            proof {
                let now = texts(out@);
                assert(now =~= had.insert(p as int, word));
                assert(left =~= texts(rest@).push(word));
                assert forall|a: int, b: int| 0 <= a < b < now.len() implies text_at_most(
                    #[trigger] now[a],
                    #[trigger] now[b],
                ) by {
                    if a == p {
                        assert(now[b] == had[b - 1]);
                        if b - 1 > p {
                            lemma_text_at_most_transitive(word, had[p as int], had[b - 1]);
                        }
                    } else if b == p {
                        assert(now[a] == had[a]);
                    } else {
                        let x = if a < p { a } else { a - 1 };
                        let y = if b < p { b } else { b - 1 };
                        assert(now[a] == had[x] && now[b] == had[y]);
                    }
                }
            }
        }
    }
    assert(texts(rest@) =~= seq![]);
    assert(all.to_multiset() =~= texts(out@).to_multiset());
    out
}

} // verus!
