//! What running commands, committing blocks and making updates durable come
//! to.

use vstd::prelude::*;

use crate::codec::{
    enc_block, encodable_qc, parse_last_committed, parse_locked, parse_qc, stored_checkpoint_reads_back,
    stored_lock_reads_back, stored_qc_reads_back, stored_view_reads_back,
};
use crate::node::builder::{chain_commands, forked_commands};
use crate::node::commit::{checkpoint, commit_writes, counted};
use crate::node::consensus_node::NodeView;
use crate::node::persist::{
    batch_is_last_write_wins, batch_writes, last_high_qc, last_locked, last_proposed, last_voted, remembered,
    UpdateView,
};
use crate::node::qc_cache::{
    cache_get, cache_insert, distinct_keys, latest_certificate_is_found, slot_of, RECENT_QC_CACHE_CAPACITY,
};
use crate::replication::{lemma_run_concat, rejected_count, run_commands, StateMachine};
use crate::storage::{
    apply_writes, block_key, key_bytes, keys_do_not_collide, lemma_untouched, lookup, record_keys,
    STORAGE_KEY_HIGH_QC, STORAGE_KEY_LAST_COMMITTED, STORAGE_KEY_LAST_VOTED_VIEW, STORAGE_KEY_LOCKED,
    STORAGE_KEY_PROPOSED_IN_VIEW,
};
use crate::trusted::take_varint;
use crate::types::{BlockHash, BlockView, LastCommitted, QcView};

verus! {

// ---- commands ------------------------------------------------------------

/// A command that the application accepts takes it to the state that follows,
/// whatever the command looks like; one that it rejects leaves it where it is.
/// Exactly the rejected ones count as rejected.
pub proof fn a_command_is_run_as_the_application_says<S: StateMachine>(m: S::Model, c: Seq<u8>)
    ensures
        S::next(m, c) matches Some(q) ==> run_commands::<S>(m, seq![c]) == q && rejected_count::<S>(m, seq![c]) == 0,
        S::next(m, c) is None ==> run_commands::<S>(m, seq![c]) == m && rejected_count::<S>(m, seq![c]) == 1,
        run_commands::<S>(m, seq![]) == m,
        rejected_count::<S>(m, seq![]) == 0,
{
    reveal_with_fuel(run_commands, 2);
    reveal_with_fuel(rejected_count, 2);
    assert(seq![c].drop_last() =~= seq![]);
    assert(seq![c].last() == c);
}

/// Every command is run, in order, each from the state that the ones before it
/// led to, and none is run twice.
pub proof fn commands_are_run_in_order<S: StateMachine>(m: S::Model, commands: Seq<Seq<u8>>, i: int)
    requires
        0 <= i < commands.len(),
    ensures
        ({
            let before = run_commands::<S>(m, commands.take(i));
            let after = run_commands::<S>(m, commands.take(i + 1));
            &&& S::next(before, commands[i]) matches Some(q) ==> after == q
            &&& S::next(before, commands[i]) is None ==> after == before
            &&& rejected_count::<S>(m, commands.take(i + 1)) == rejected_count::<S>(m, commands.take(i)) + (
            if S::next(before, commands[i]) is None {
                1int
            } else {
                0
            })
        }),
        commands.take(commands.len() as int) == commands,
{
    assert(commands.take(i + 1) =~= commands.take(i) + seq![commands[i]]);
    lemma_run_concat::<S>(m, commands.take(i), seq![commands[i]]);
    a_command_is_run_as_the_application_says::<S>(run_commands::<S>(m, commands.take(i)), commands[i]);
    assert(commands.take(commands.len() as int) =~= commands);
}

/// Position `i` holds a command that the application rejects when it gets
/// there.
pub open spec fn rejected_at<S: StateMachine>(m: S::Model, commands: Seq<Seq<u8>>, i: int) -> bool {
    0 <= i < commands.len() && S::next(run_commands::<S>(m, commands.take(i)), commands[i]) is None
}

/// The commands that count as rejected are those that the application rejects,
/// as many as there are.
pub proof fn rejected_commands_are_counted<S: StateMachine>(m: S::Model, commands: Seq<Seq<u8>>)
    ensures
        Set::new(|i: int| rejected_at::<S>(m, commands, i)).finite(),
        Set::new(|i: int| rejected_at::<S>(m, commands, i)).len() == rejected_count::<S>(m, commands),
    decreases commands.len(),
{
    let s = Set::new(|i: int| rejected_at::<S>(m, commands, i));
    if commands.len() == 0 {
        assert(s =~= Set::empty());
    } else {
        let d = commands.drop_last();
        let n = commands.len() - 1;
        rejected_commands_are_counted::<S>(m, d);
        let t = Set::new(|i: int| rejected_at::<S>(m, d, i));
        commands_are_run_in_order::<S>(m, commands, n);
        assert(commands.take(n) =~= d);
        assert forall|i: int| 0 <= i < n implies rejected_at::<S>(m, d, i) == rejected_at::<S>(m, commands, i) by {
            assert(commands.take(i) =~= d.take(i));
            assert(d[i] == commands[i]);
        }
        assert(!t.contains(n));
        if rejected_at::<S>(m, commands, n) {
            assert(s =~= t.insert(n));
        } else {
            assert(s =~= t);
        }
    }
}

/// The commands that a proposal stands on are those of the uncommitted blocks,
/// the oldest block first, each block's in order, and its own at the end.
pub proof fn a_proposal_stands_on_older_commands_first(newer: Seq<BlockView>, older: Seq<BlockView>, b: BlockView, own: Seq<Seq<u8>>)
    ensures
        chain_commands(newer + older) == chain_commands(older) + chain_commands(newer),
        chain_commands(seq![b]) == b.commands,
        forked_commands(newer, own).len() == chain_commands(newer).len() + own.len(),
        forall|i: int|
            0 <= i < own.len() ==> #[trigger] own[i] == forked_commands(newer, own)[chain_commands(newer).len() + i],
        forall|i: int|
            0 <= i < chain_commands(newer).len() ==> #[trigger] forked_commands(newer, own)[i] == chain_commands(newer)[i],
    decreases newer.len(),
{
    reveal_with_fuel(chain_commands, 2);
    assert(seq![b].skip(1) =~= seq![]);
    assert(chain_commands(seq![b]) =~= b.commands);
    if newer.len() == 0 {
        assert(newer + older =~= older);
        assert(chain_commands(older) + chain_commands(newer) =~= chain_commands(older));
    } else {
        let all = newer + older;
        assert(all.skip(1) =~= newer.skip(1) + older);
        assert(all[0] == newer[0]);
        a_proposal_stands_on_older_commands_first(newer.skip(1), older, b, own);
        assert(chain_commands(all) =~= chain_commands(older) + chain_commands(newer));
    }
}

// ---- the checkpoint ------------------------------------------------------

/// Height and view of the last commit move together: to those of the block
/// where it is higher than any before, and else not at all. Nothing else of
/// the node changes with them.
pub proof fn height_and_view_move_together(n: NodeView, b: BlockView)
    ensures
        ({
            let m = counted(n, b);
            &&& b.header.height > n.last_committed_height ==> m.last_committed_height == b.header.height
                && m.last_committed_view == b.header.view
            &&& b.header.height <= n.last_committed_height ==> m == n
            &&& m == (NodeView {
                last_committed_height: m.last_committed_height,
                last_committed_view: m.last_committed_view,
                ..n
            })
        }),
{
}

/// The last write to a key is what the store holds under it.
pub proof fn the_last_write_to_a_key_stays(m: Map<Seq<u8>, Seq<u8>>, w: Seq<(Seq<u8>, Seq<u8>)>, i: int)
    requires
        0 <= i < w.len(),
        forall|j: int| i < j < w.len() ==> (#[trigger] w[j]).0 != w[i].0,
    ensures
        apply_writes(m, w).contains_key(w[i].0),
        apply_writes(m, w)[w[i].0] == w[i].1,
    decreases w.len(),
{
    let d = w.drop_last();
    let n = w.len() - 1;
    if i < n {
        assert(d[i] == w[i]);
        assert forall|j: int| i < j < d.len() implies (#[trigger] d[j]).0 != d[i].0 by {
            assert(d[j] == w[j]);
        }
        the_last_write_to_a_key_stays(m, d, i);
        assert(w[n].0 != w[i].0);
        assert(w.last() == w[n]);
    }
}

/// After a commit the store holds the block under its hash and a checkpoint
/// with the height and view of the node and the hash of the block. Every other
/// record is as it was.
pub proof fn a_commit_writes_block_and_checkpoint(m: Map<Seq<u8>, Seq<u8>>, n: NodeView, b: BlockView, key: Seq<u8>)
    ensures
        ({
            let after = apply_writes(m, commit_writes(n, b));
            let record = lookup(after, key_bytes(STORAGE_KEY_LAST_COMMITTED));
            &&& record is Some
            &&& parse_last_committed(record->0) == Some(
                LastCommitted {
                    height: n.last_committed_height,
                    view: n.last_committed_view,
                    last_committed_hash: b.hash,
                },
            )
            &&& lookup(after, block_key(b.hash)) == Some(enc_block(b))
            &&& key != block_key(b.hash) && key != key_bytes(STORAGE_KEY_LAST_COMMITTED) ==> lookup(after, key)
                == lookup(m, key)
        }),
{
    let w = commit_writes(n, b);
    keys_do_not_collide(b.hash, b.hash);
    assert(record_keys()[4] == key_bytes(STORAGE_KEY_LAST_COMMITTED));
    the_last_write_to_a_key_stays(m, w, 0);
    the_last_write_to_a_key_stays(m, w, 1);
    stored_checkpoint_reads_back(checkpoint(n, b.hash));
    if key != block_key(b.hash) && key != key_bytes(STORAGE_KEY_LAST_COMMITTED) {
        lemma_untouched(m, w, key);
    }
}

// ---- updates -------------------------------------------------------------

proof fn lemma_last_of_each_kind(u: Seq<UpdateView>, i: int)
    requires
        0 <= i < u.len(),
    ensures
        u[i] is VotedInView && (forall|j: int| i < j < u.len() ==> !((#[trigger] u[j]) is VotedInView)) ==> last_voted(u)
            == Some(u[i]->VotedInView_view),
        u[i] is ProposedInView && (forall|j: int| i < j < u.len() ==> !((#[trigger] u[j]) is ProposedInView))
            ==> last_proposed(u) == Some(u[i]->ProposedInView_view),
        u[i] is Locked && (forall|j: int| i < j < u.len() ==> !((#[trigger] u[j]) is Locked)) ==> last_locked(u) == Some(
            u[i]->Locked_0,
        ),
        u[i] is HighQc && (forall|j: int| i < j < u.len() ==> !((#[trigger] u[j]) is HighQc)) ==> last_high_qc(u)
            == Some(u[i]->HighQc_0),
    decreases u.len(),
{
    let d = u.drop_last();
    let n = u.len() - 1;
    assert(u.last() == u[n]);
    if i < n {
        assert(d[i] == u[i]);
        assert forall|j: int| i < j < d.len() implies d[j] == u[j] by {}
        lemma_last_of_each_kind(d, i);
    }
}

/// After a batch every record holds the last update of its kind, and reads
/// back as that update.
pub proof fn the_last_update_of_a_kind_is_stored(
    m: Map<Seq<u8>, Seq<u8>>,
    u: Seq<UpdateView>,
    pending: Map<BlockHash, BlockView>,
    i: int,
)
    requires
        0 <= i < u.len(),
        u[i] matches UpdateView::HighQc(qc) ==> encodable_qc(qc),
    ensures
        ({
            let n = apply_writes(m, batch_writes(u, pending));
            match u[i] {
                UpdateView::VotedInView { view } => (forall|j: int|
                    i < j < u.len() ==> !((#[trigger] u[j]) is VotedInView)) ==> {
                    let r = lookup(n, key_bytes(STORAGE_KEY_LAST_VOTED_VIEW));
                    r is Some && (take_varint(r->0) matches Some((v, _)) && v == view)
                },
                UpdateView::ProposedInView { view } => (forall|j: int|
                    i < j < u.len() ==> !((#[trigger] u[j]) is ProposedInView)) ==> {
                    let r = lookup(n, key_bytes(STORAGE_KEY_PROPOSED_IN_VIEW));
                    r is Some && (take_varint(r->0) matches Some((v, _)) && v == view)
                },
                UpdateView::Locked(l) => (forall|j: int| i < j < u.len() ==> !((#[trigger] u[j]) is Locked)) ==> {
                    let r = lookup(n, key_bytes(STORAGE_KEY_LOCKED));
                    r is Some && parse_locked(r->0) == Some(l)
                },
                UpdateView::HighQc(qc) => (forall|j: int| i < j < u.len() ==> !((#[trigger] u[j]) is HighQc)) ==> {
                    let r = lookup(n, key_bytes(STORAGE_KEY_HIGH_QC));
                    r is Some && parse_qc(r->0) == Some(qc)
                },
            }
        }),
{
    batch_is_last_write_wins(m, u, pending);
    lemma_last_of_each_kind(u, i);
    match u[i] {
        UpdateView::VotedInView { view } => stored_view_reads_back(view),
        UpdateView::ProposedInView { view } => stored_view_reads_back(view),
        UpdateView::Locked(l) => stored_lock_reads_back(l),
        UpdateView::HighQc(qc) => stored_qc_reads_back(qc),
    }
}

/// A block that a batch refers to, by its lock or its certificate, is stored
/// with it if it is pending; no other block is written.
pub proof fn referenced_blocks_are_stored(
    m: Map<Seq<u8>, Seq<u8>>,
    u: Seq<UpdateView>,
    pending: Map<BlockHash, BlockView>,
    h: BlockHash,
)
    ensures
        ({
            let n = apply_writes(m, batch_writes(u, pending));
            let named = exists|i: int|
                0 <= i < u.len() && match #[trigger] u[i] {
                    UpdateView::Locked(l) => l.block_hash == h,
                    UpdateView::HighQc(qc) => qc.block_hash == h,
                    _ => false,
                };
            &&& named && pending.contains_key(h) ==> lookup(n, block_key(h)) == Some(enc_block(pending[h]))
            &&& !named || !pending.contains_key(h) ==> lookup(n, block_key(h)) == lookup(m, block_key(h))
        }),
{
    crate::node::persist::batch_stores_referenced_blocks(m, u, pending, h);
    let named = exists|i: int|
        0 <= i < u.len() && match #[trigger] u[i] {
            UpdateView::Locked(l) => l.block_hash == h,
            UpdateView::HighQc(qc) => qc.block_hash == h,
            _ => false,
        };
    if named {
        let i = choose|i: int|
            0 <= i < u.len() && match #[trigger] u[i] {
                UpdateView::Locked(l) => l.block_hash == h,
                UpdateView::HighQc(qc) => qc.block_hash == h,
                _ => false,
            };
        assert(crate::node::persist::referenced(u[i]) == Some(h));
    }
}

// ---- remembered certificates ---------------------------------------------

/// A certificate that comes in changes what is remembered of its own block
/// only: of every other block the same is known, but for the one that was
/// remembered first, which leaves where there is no room.
pub proof fn certificates_leave_in_the_order_they_came(
    s: Seq<(BlockHash, QcView)>,
    hash: BlockHash,
    qc: QcView,
    capacity: nat,
    k: int,
)
    requires
        distinct_keys(s),
        s.len() <= capacity,
        capacity > 0,
        0 <= k < s.len(),
        s[k].0 != hash,
    ensures
        ({
            let t = cache_insert(s, hash, qc, capacity);
            let known = exists|i: int| 0 <= i < s.len() && (#[trigger] s[i]).0 == hash;
            let full = !known && s.len() == capacity;
            &&& distinct_keys(t)
            &&& known ==> t.len() == s.len() && t[k] == s[k]
            &&& !known && !full ==> t.len() == s.len() + 1 && t[k] == s[k] && t.last() == (hash, qc)
            &&& full ==> t.len() == s.len() && t.last() == (hash, qc)
            &&& full && k > 0 ==> t[k - 1] == s[k]
            &&& full && k == 0 ==> cache_get(t, s[0].0) is None
        }),
{
    let t = cache_insert(s, hash, qc, capacity);
    match slot_of(s, hash) {
        Some(i) => {
            assert(s[i].0 == hash);
            assert forall|a: int, b: int| 0 <= a < b < t.len() implies (#[trigger] t[a]).0 != (#[trigger] t[b]).0 by {
                assert(s[a].0 != s[b].0);
            }
        },
        None => {
            let p = s.push((hash, qc));
            let off = p.len() - t.len();
            assert forall|a: int, b: int| 0 <= a < b < t.len() implies (#[trigger] t[a]).0 != (#[trigger] t[b]).0 by {
                assert(t[a] == p[a + off] && t[b] == p[b + off]);
                if b + off < s.len() {
                    assert(s[a + off].0 != s[b + off].0);
                } else {
                    assert(s[a + off].0 != hash);
                }
            }
            if s.len() == capacity && k == 0 {
                assert forall|i: int| 0 <= i < t.len() implies (#[trigger] t[i]).0 != s[0].0 by {
                    assert(t[i] == p[i + 1]);
                    if i + 1 < s.len() {
                        assert(s[0].0 != s[i + 1].0);
                    }
                }
            }
        },
    }
}

/// What is remembered of a block is the entry that the cache has for it.
pub proof fn what_is_remembered_is_what_is_kept(s: Seq<(BlockHash, QcView)>, k: int)
    requires
        distinct_keys(s),
        0 <= k < s.len(),
    ensures
        cache_get(s, s[k].0) == Some(s[k].1),
{
    let hash = s[k].0;
    let i = choose|i: int| 0 <= i < s.len() && (#[trigger] s[i]).0 == hash;
    assert(s[k].0 == hash);
    if i < k {
        assert(s[i].0 != s[k].0);
    } else if k < i {
        assert(s[k].0 != s[i].0);
    }
}

/// The certificates of a batch are remembered, one after the other; the other
/// updates leave what is remembered alone.
pub proof fn certificates_of_a_batch_are_remembered(s: Seq<(BlockHash, QcView)>, u: Seq<UpdateView>, x: UpdateView)
    requires
        distinct_keys(remembered(s, u)),
    ensures
        remembered(s, seq![]) == s,
        x matches UpdateView::HighQc(qc) ==> cache_get(remembered(s, u.push(x)), qc.block_hash) == Some(qc),
        !(x is HighQc) ==> remembered(s, u.push(x)) == remembered(s, u),
{
    assert(u.push(x).drop_last() =~= u);
    if let UpdateView::HighQc(qc) = x {
        latest_certificate_is_found(remembered(s, u), qc.block_hash, qc, RECENT_QC_CACHE_CAPACITY as nat);
    }
}

} // verus!
