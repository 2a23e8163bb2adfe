//! Order, equality and copying of byte strings.

use vstd::prelude::*;

verus! {

/// A 32-byte identifier or digest.
pub type Bytes32 = [u8; 32];

/// `i` is the first position at which `a` and `b` differ, and `a` is the
/// smaller of the two there.
pub open spec fn below_at(a: Seq<u8>, b: Seq<u8>, i: int) -> bool {
    &&& 0 <= i < a.len()
    &&& i < b.len()
    &&& a[i] < b[i]
    &&& forall|j: int| 0 <= j < i ==> a[j] == b[j]
}

/// The lexicographic order on byte strings of one length.
pub open spec fn bytes_less(a: Seq<u8>, b: Seq<u8>) -> bool {
    exists|i: int| below_at(a, b, i)
}

/// The lexicographic order is transitive.
pub proof fn bytes_less_transitive(a: Seq<u8>, b: Seq<u8>, c: Seq<u8>)
    requires
        bytes_less(a, b),
        bytes_less(b, c),
    ensures
        bytes_less(a, c),
{
    let i = choose|i: int| below_at(a, b, i);
    let k = choose|k: int| below_at(b, c, k);
    let m = if i < k { i } else { k };
    assert(below_at(a, c, m));
}

/// No byte string lies below itself, and no two lie below each other.
pub proof fn bytes_less_asymmetric(a: Seq<u8>, b: Seq<u8>)
    requires
        bytes_less(a, b),
    ensures
        !bytes_less(b, a),
        a != b,
{
    let i = choose|i: int| below_at(a, b, i);
    if bytes_less(b, a) {
        let k = choose|k: int| below_at(b, a, k);
        assert(i < k || k <= i);
    }
}

/// How two byte strings stand to each other.
#[derive(Clone, Copy, Debug, PartialEq, Eq, Structural)]
pub enum Relation {
    Below,
    Same,
    Above,
}

/// Compares two identifiers in lexicographic order.
pub fn relate(a: &Bytes32, b: &Bytes32) -> (r: Relation)
    ensures
        match r {
            Relation::Below => bytes_less(a@, b@),
            Relation::Same => *a == *b,
            Relation::Above => bytes_less(b@, a@),
        },
{
    let mut i: usize = 0;
    while i < 32
        invariant
            i <= 32,
            forall|j: int| 0 <= j < i ==> a@[j] == b@[j],
        decreases 32 - i,
    {
        if a[i] < b[i] {
            assert(below_at(a@, b@, i as int));
            return Relation::Below;
        }
        if b[i] < a[i] {
            assert(below_at(b@, a@, i as int));
            return Relation::Above;
        }
        i = i + 1;
    }
    assert(a@ =~= b@);
    assert(*a =~= *b);
    Relation::Same
}

/// Whether two identifiers are the same.
pub fn same(a: &Bytes32, b: &Bytes32) -> (r: bool)
    ensures
        r == (*a == *b),
{
    match relate(a, b) {
        Relation::Same => true,
        Relation::Below => {
            proof {
                bytes_less_asymmetric(a@, b@);
            }
            false
        },
        Relation::Above => {
            proof {
                bytes_less_asymmetric(b@, a@);
            }
            false
        },
    }
}

/// Whether two byte strings hold the same bytes.
pub fn same_bytes(a: &[u8], b: &[u8]) -> (r: bool)
    ensures
        r == (a@ == b@),
{
    if a.len() != b.len() {
        return false;
    }
    let mut i: usize = 0;
    while i < a.len()
        invariant
            i <= a.len(),
            a.len() == b.len(),
            forall|j: int| 0 <= j < i ==> a@[j] == b@[j],
        decreases a.len() - i,
    {
        if a[i] != b[i] {
            return false;
        }
        i = i + 1;
    }
    assert(a@ =~= b@);
    true
}

/// A fresh vector with the same bytes.
pub fn copy_bytes(a: &[u8]) -> (r: Vec<u8>)
    ensures
        r@ == a@,
{
    let mut out: Vec<u8> = Vec::new();
    let mut i: usize = 0;
    while i < a.len()
        invariant
            i <= a.len(),
            out@ == a@.subrange(0, i as int),
        decreases a.len() - i,
    {
        out.push(a[i]);
        i = i + 1;
        assert(out@ =~= a@.subrange(0, i as int));
    }
    assert(a@.subrange(0, a@.len() as int) =~= a@);
    out
}

/// The contents of a list of byte strings.
pub open spec fn payloads(v: Seq<Vec<u8>>) -> Seq<Seq<u8>> {
    Seq::new(v.len(), |i: int| v[i]@)
}

/// A fresh list with the same byte strings.
pub fn copy_payloads(v: &Vec<Vec<u8>>) -> (r: Vec<Vec<u8>>)
    ensures
        payloads(r@) == payloads(v@),
{
    let mut out: Vec<Vec<u8>> = Vec::new();
    let mut i: usize = 0;
    while i < v.len()
        invariant
            i <= v.len(),
            out.len() == i,
            forall|j: int| 0 <= j < i ==> out@[j]@ == v@[j]@,
        decreases v.len() - i,
    {
        out.push(copy_bytes(v[i].as_slice()));
        i = i + 1;
    }
    assert(payloads(out@) =~= payloads(v@));
    out
}

} // verus!
