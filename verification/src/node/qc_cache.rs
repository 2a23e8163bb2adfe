//! A bounded memory of the certificates that were adopted lately.

use vstd::prelude::*;

use crate::bytes::same;
use crate::types::{BlockHash, QcView, QuorumCertificate};

verus! {

/// How many certificates the node remembers. The snapshot of a committed
/// block needs the certificate over it; a small buffer is enough.
pub const RECENT_QC_CACHE_CAPACITY: usize = 32;

/// Certificates by block hash, oldest insertion first.
#[derive(Debug)]
pub struct RecentQcCache {
    entries: Vec<(BlockHash, QuorumCertificate)>,
}

pub open spec fn cache_view(e: Seq<(BlockHash, QuorumCertificate)>) -> Seq<(BlockHash, QcView)> {
    Seq::new(e.len(), |i: int| (e[i].0, e[i].1@))
}

pub open spec fn distinct_keys(s: Seq<(BlockHash, QcView)>) -> bool {
    forall|i: int, j: int| 0 <= i < j < s.len() ==> (#[trigger] s[i]).0 != (#[trigger] s[j]).0
}

/// The position of `hash`.
pub open spec fn slot_of(s: Seq<(BlockHash, QcView)>, hash: BlockHash) -> Option<int> {
    if exists|i: int| 0 <= i < s.len() && (#[trigger] s[i]).0 == hash {
        Some(choose|i: int| 0 <= i < s.len() && (#[trigger] s[i]).0 == hash)
    } else {
        None
    }
}

/// The cache after an insertion. A hash that is there keeps its place and
/// gets the new certificate; a new one goes to the end, and the oldest leave
/// until the capacity is met.
pub open spec fn cache_insert(
    s: Seq<(BlockHash, QcView)>,
    hash: BlockHash,
    qc: QcView,
    capacity: nat,
) -> Seq<(BlockHash, QcView)> {
    match slot_of(s, hash) {
        Some(i) => s.update(i, (hash, qc)),
        None => {
            let t = s.push((hash, qc));
            if t.len() > capacity {
                t.skip(t.len() - capacity)
            } else {
                t
            }
        },
    }
}

/// What the cache answers for `hash`.
pub open spec fn cache_get(s: Seq<(BlockHash, QcView)>, hash: BlockHash) -> Option<QcView> {
    match slot_of(s, hash) {
        Some(i) => Some(s[i].1),
        None => None,
    }
}

impl View for RecentQcCache {
    type V = Seq<(BlockHash, QcView)>;

    closed spec fn view(&self) -> Seq<(BlockHash, QcView)> {
        cache_view(self.entries@)
    }
}

impl RecentQcCache {
    pub open spec fn wf(&self) -> bool {
        distinct_keys(self@)
    }

    pub fn new() -> (r: RecentQcCache)
        ensures
            r.wf(),
            r@ == Seq::<(BlockHash, QcView)>::empty(),
    {
        let r = RecentQcCache { entries: Vec::new() };
        assert(r@ =~= Seq::<(BlockHash, QcView)>::empty());
        r
    }

    fn find(&self, hash: &BlockHash) -> (r: Option<usize>)
        requires
            self.wf(),
        ensures
            match r {
                Some(i) => i < self@.len() && self@[i as int].0 == *hash && slot_of(self@, *hash) == Some(i as int),
                None => slot_of(self@, *hash) is None,
            },
    {
        let mut i: usize = 0;
        while i < self.entries.len()
            invariant
                i <= self.entries.len(),
                self.wf(),
                forall|j: int| 0 <= j < i ==> (#[trigger] self@[j]).0 != *hash,
            decreases self.entries.len() - i,
        {
            if same(&self.entries[i].0, hash) {
                assert(self@[i as int].0 == *hash);
                proof {
                    let k = choose|k: int| 0 <= k < self@.len() && (#[trigger] self@[k]).0 == *hash;
                    if i < k {
                        assert(self@[i as int].0 != self@[k].0);
                    }
                }
                return Some(i);
            }
            i = i + 1;
        }
        None
    }

    /// Remembers `qc` under `hash`; on overflow the oldest entries leave.
    pub fn insert(&mut self, hash: BlockHash, qc: QuorumCertificate, capacity: usize)
        requires
            old(self).wf(),
        ensures
            final(self).wf(),
            final(self)@ == cache_insert(old(self)@, hash, qc@, capacity as nat),
    {
        let ghost s = self@;
        let ghost x = (hash, qc@);
        match self.find(&hash) {
            Some(i) => {
                self.entries.set(i, (hash, qc));
                proof {
                    assert(self@ =~= s.update(i as int, x));
                    assert forall|a: int, b: int| 0 <= a < b < self@.len() implies (#[trigger] self@[a]).0 != (
                    #[trigger] self@[b]).0 by {
                        assert(s[a].0 != s[b].0);
                    }
                }
            },
            None => {
                self.entries.push((hash, qc));
                let ghost t = s.push(x);
                proof {
                    assert(self@ =~= t);
                    assert forall|a: int, b: int| 0 <= a < b < t.len() implies (#[trigger] t[a]).0 != (
                    #[trigger] t[b]).0 by {
                        assert(t[a] == s[a]);
                        if b < s.len() {
                            assert(t[b] == s[b]);
                        }
                    }
                }
                let ghost mut gone: int = 0;
                while self.entries.len() > capacity
                    invariant
                        0 <= gone <= t.len(),
                        gone > 0 ==> t.len() - gone >= capacity,
                        distinct_keys(t),
                        self@ == t.skip(gone),
                        self.entries@.len() == self@.len(),
                    decreases self.entries.len(),
                {
                    let ghost seen = self@;
                    let _ = self.entries.remove(0);
                    proof {
                        gone = gone + 1;
                        assert forall|i: int| 0 <= i < self@.len() implies self@[i] == seen[i + 1] by {}
                        assert(self@ =~= t.skip(gone));
                    }
                }
                proof {
                    assert(t.skip(0) =~= t);
                    assert(self@ =~= cache_insert(s, hash, x.1, capacity as nat));
                    assert forall|a: int, b: int| 0 <= a < b < self@.len() implies (#[trigger] self@[a]).0 != (
                    #[trigger] self@[b]).0 by {
                        assert(self@[a] == t[a + gone] && self@[b] == t[b + gone]);
                    }
                }
            },
        }
    }

    /// The certificate remembered under `hash`.
    pub fn get(&self, hash: &BlockHash) -> (r: Option<&QuorumCertificate>)
        requires
            self.wf(),
        ensures
            match r {
                Some(qc) => cache_get(self@, *hash) == Some(qc@),
                None => cache_get(self@, *hash) is None,
            },
    {
        match self.find(hash) {
            Some(i) => Some(&self.entries[i].1),
            None => None,
        }
    }

    /// The number of certificates remembered.
    pub fn len(&self) -> (r: usize)
        ensures
            r == self@.len(),
    {
        self.entries.len()
    }
}

/// The cache never outgrows its capacity.
pub proof fn cache_stays_bounded(s: Seq<(BlockHash, QcView)>, hash: BlockHash, qc: QcView, capacity: nat)
    requires
        s.len() <= capacity,
    ensures
        cache_insert(s, hash, qc, capacity).len() <= capacity,
{
}

/// What was just inserted is found, unless nothing may be kept.
pub proof fn latest_certificate_is_found(s: Seq<(BlockHash, QcView)>, hash: BlockHash, qc: QcView, capacity: nat)
    requires
        distinct_keys(s),
        capacity > 0,
    ensures
        cache_get(cache_insert(s, hash, qc, capacity), hash) == Some(qc),
{
    let t = cache_insert(s, hash, qc, capacity);
    match slot_of(s, hash) {
        Some(i) => {
            assert(t[i].0 == hash);
            let k = choose|k: int| 0 <= k < t.len() && (#[trigger] t[k]).0 == hash;
            if k < i {
                assert(s[k].0 != s[i].0);
            } else if i < k {
                assert(s[i].0 != s[k].0);
            }
        },
        None => {
            let n = t.len() - 1;
            assert(t[n] == (hash, qc));
            let k = choose|k: int| 0 <= k < t.len() && (#[trigger] t[k]).0 == hash;
            if k < n {
                let p = s.push((hash, qc));
                let off = p.len() - t.len();
                assert(t[k] == p[k + off]);
                assert(p[k + off] == s[k + off]);
            }
        },
    }
}

} // verus!
