//! Committing a block: running its commands, recording it, and taking over
//! the changes that it carries.

use vstd::prelude::*;

use crate::bytes::copy_bytes;
use crate::codec::{
    enc_block, enc_last_committed, encodable_items, encode_block, encode_last_committed, stored_block_reads_back,
    stored_checkpoint_reads_back, Record,
};
use crate::digests::{genuine, sealed, Digests};
use crate::history_codec::{
    enc_history, enc_keys, encode_key_history, encode_validator_history, stored_history_reads_back,
};
use crate::key_history::Timelines;
use crate::node::consensus_node::{read_checkpoint, read_history, ConsensusNode, NodeView};
use crate::node::error::NodeError;
use crate::node::membership::{
    all_carry_bls, boundary_of, carries_bls, judge, judge_rotation, reconfig_step, reconfigs_view, reconfigs_wf,
    rotated, rotation_step, rotations_view, Keys, ReconfigInput, ReconfigOutcome, ReconfigView, RotationInput,
    RotationOutcome, RotationView,
};
use crate::node::rebuild::{reconfig_all, rotate_all, HistoriesView};
use crate::node::recovery::read_block;
use crate::pacemaker::leader::WeightedAccumulatorSelector;
use crate::replication::{apply_all, rejected_count, run_commands, StateMachine};
use crate::state::StateView;
use crate::storage::{
    apply_writes, block_key, block_storage_key, key_bytes, keys_do_not_collide, lookup, writes_view, Storage, Write,
    STORAGE_KEY_BLS_KEY_HISTORY, STORAGE_KEY_LAST_COMMITTED, STORAGE_KEY_VALIDATOR_HISTORY,
    STORAGE_KEY_VALIDATOR_KEY_HISTORY,
};
use crate::types::{Block, BlockHash, BlockView, LastCommitted, SignatureSchemeChoice};
use crate::validator_history::{history_ok, no_empty_committee, HistoryView};
use crate::validator_set::Member;

verus! {

// ---- the block itself ----------------------------------------------------

/// The node with the block counted as committed: height and view only ever
/// move up.
pub open spec fn counted(n: NodeView, b: BlockView) -> NodeView {
    if b.header.height > n.last_committed_height {
        NodeView { last_committed_height: b.header.height, last_committed_view: b.header.view, ..n }
    } else {
        n
    }
}

/// The checkpoint after a commit.
pub open spec fn checkpoint(n: NodeView, hash: BlockHash) -> LastCommitted {
    LastCommitted { height: n.last_committed_height, view: n.last_committed_view, last_committed_hash: hash }
}

/// What a commit writes: the block and the checkpoint.
pub open spec fn commit_writes(n: NodeView, b: BlockView) -> Seq<(Seq<u8>, Seq<u8>)> {
    seq![
        (block_key(b.hash), enc_block(b)),
        (key_bytes(STORAGE_KEY_LAST_COMMITTED), enc_last_committed(checkpoint(n, b.hash))),
    ]
}

/// What came of a commit.
#[derive(Clone, Copy, Debug, PartialEq, Eq)]
pub struct Committed {
    /// How many of the commands the application rejected.
    pub rejected: usize,
    /// A snapshot is due.
    pub snapshot_due: bool,
    /// Whether the block and the checkpoint are on disk.
    pub recorded: Result<(), NodeError>,
}

/// A single write.
fn one_write(key: &'static str, value: Vec<u8>) -> (r: Vec<Write>)
    ensures
        writes_view(r@) == seq![(key_bytes(key), value@)],
{
    let mut writes: Vec<Write> = Vec::new();
    writes.push(Write { key: copy_bytes(key.as_bytes()), value });
    assert(writes_view(writes@) =~= seq![(key_bytes(key), value@)]);
    writes
}

/// Stores one record on its own. Says whether that worked.
pub(crate) fn store_record<S: Storage>(storage: &mut S, key: &'static str, value: Vec<u8>) -> (stored: bool)
    ensures
        stored ==> final(storage).contents() == old(storage).contents().insert(key_bytes(key), value@),
        !stored ==> final(storage).contents() == old(storage).contents(),
        old(storage).steady() ==> stored,
        final(storage).steady() == old(storage).steady(),
{
    let ghost w = (key_bytes(key), value@);
    let writes = one_write(key, value);
    proof {
        reveal_with_fuel(apply_writes, 2);
        assert(seq![w].drop_last() =~= seq![]);
    }
    match storage.batch(&writes) {
        Ok(_) => true,
        Err(_) => false,
    }
}

impl ConsensusNode {
    /// Commits a block: the application runs its commands, and the block and
    /// the checkpoint are recorded together.
    ///
    /// A store that cannot record them does not stop the node: the block is
    /// committed all the same, and the error is handed out for the log. What
    /// safety rests on, the view voted in, the lock and the certificate, is
    /// made durable elsewhere, before any vote leaves the node.
    pub fn apply_commit<M: StateMachine, S: Storage>(&mut self, sm: &mut M, storage: &mut S, block: &Block) -> (r:
        Committed)
        requires
            old(self).wf(),
        ensures
            final(self).wf(),
            final(self)@ == counted(old(self)@, block@),
            final(sm).model() == run_commands::<M>(old(sm).model(), block@.commands),
            r.rejected == rejected_count::<M>(old(sm).model(), block@.commands),
            r.snapshot_due == old(self)@.snapshot_policy.due_at(block@.header.height),
            match r.recorded {
                Ok(_) => final(storage).contents() == apply_writes(
                    old(storage).contents(),
                    commit_writes(final(self)@, block@),
                ),
                Err(e) => {
                    &&& e == NodeError::Write(Record::LastCommitted)
                    &&& !old(storage).steady()
                    &&& final(storage).contents() == old(storage).contents()
                },
            },
    {
        let rejected = apply_all(sm, &block.commands);
        if block.header.height > self.last_committed_height {
            self.last_committed_height = block.header.height;
            self.last_committed_view = block.header.view;
        }
        let recorded = self.record_commit(storage, block);
        Committed { rejected, snapshot_due: self.snapshot_policy.should_snapshot_at(block.header.height), recorded }
    }

    /// Records a block and the checkpoint, both or neither.
    fn record_commit<S: Storage>(&self, storage: &mut S, block: &Block) -> (r: Result<(), NodeError>)
        ensures
            match r {
                Ok(_) => final(storage).contents() == apply_writes(
                    old(storage).contents(),
                    commit_writes(self@, block@),
                ),
                Err(e) => {
                    &&& e == NodeError::Write(Record::LastCommitted)
                    &&& !old(storage).steady()
                    &&& final(storage).contents() == old(storage).contents()
                },
            },
    {
        let hash = block.hash();
        let last = LastCommitted {
            height: self.last_committed_height,
            view: self.last_committed_view,
            last_committed_hash: hash,
        };
        let (block_bytes, last_bytes) = match (encode_block(block), encode_last_committed(&last)) {
            (Ok(b), Ok(l)) => (b, l),
            _ => {
                return Err(NodeError::Write(Record::LastCommitted));
            },
        };
        let mut writes: Vec<Write> = Vec::new();
        writes.push(Write { key: block_storage_key(&hash), value: block_bytes });
        writes.push(Write { key: copy_bytes(STORAGE_KEY_LAST_COMMITTED.as_bytes()), value: last_bytes });
        assert(writes_view(writes@) =~= commit_writes(self@, block@));
        match storage.batch(&writes) {
            Ok(_) => Ok(()),
            Err(_) => Err(NodeError::Write(Record::LastCommitted)),
        }
    }
}

// ---- committee changes ---------------------------------------------------

/// The node after one command that might be a committee change. A change
/// that stands goes into the node's committees; if the safety state takes it
/// too, leaders are picked by it.
pub open spec fn reconfigured_by(n: NodeView, block_view: u64, input: ReconfigView) -> NodeView {
    if judge(n.validator_history, block_view, n.min_v_eff_delay, input) is Applied {
        let b = boundary_of(input);
        let h = n.validator_history.push(b);
        if b.0 > n.state.validator_history.last().0 {
            NodeView {
                validator_history: h,
                state: StateView { validator_history: n.state.validator_history.push(b), ..n.state },
                selector: h,
                ..n
            }
        } else {
            NodeView { validator_history: h, ..n }
        }
    } else {
        n
    }
}

/// What became of that command.
pub open spec fn reconfig_outcome(n: NodeView, block_view: u64, input: ReconfigView) -> ReconfigOutcome {
    match judge(n.validator_history, block_view, n.min_v_eff_delay, input) {
        ReconfigOutcome::Applied { v_eff } => if v_eff > n.state.validator_history.last().0 {
            ReconfigOutcome::Applied { v_eff }
        } else {
            ReconfigOutcome::Unmirrored
        },
        o => o,
    }
}

/// The node after the commands of a block, as far as they are committee
/// changes.
pub open spec fn reconfigured(n: NodeView, block_view: u64, inputs: Seq<ReconfigView>) -> NodeView
    decreases inputs.len(),
{
    if inputs.len() == 0 {
        n
    } else {
        reconfigured_by(reconfigured(n, block_view, inputs.drop_last()), block_view, inputs.last())
    }
}

/// What became of the commands.
pub open spec fn reconfig_outcomes(n: NodeView, block_view: u64, inputs: Seq<ReconfigView>) -> Seq<ReconfigOutcome>
    decreases inputs.len(),
{
    if inputs.len() == 0 {
        seq![]
    } else {
        let rest = inputs.drop_last();
        reconfig_outcomes(n, block_view, rest).push(
            reconfig_outcome(reconfigured(n, block_view, rest), block_view, inputs.last()),
        )
    }
}

/// Some change took effect in full.
pub open spec fn some_applied(o: Seq<ReconfigOutcome>) -> bool {
    exists|i: int| 0 <= i < o.len() && (#[trigger] o[i]) is Applied
}

impl ConsensusNode {
    fn reconfigure(&mut self, block_view: u64, input: &ReconfigInput) -> (r: ReconfigOutcome)
        requires
            old(self).wf(),
            input.wf(),
        ensures
            final(self).wf(),
            final(self)@ == reconfigured_by(old(self)@, block_view, input@),
            r == reconfig_outcome(old(self)@, block_view, input@),
    {
        let ghost n = self@;
        let (outcome, set) = reconfig_step(&mut self.validator_history, block_view, self.min_v_eff_delay, input);
        match (outcome, set) {
            (ReconfigOutcome::Applied { v_eff }, Some(set)) => {
                proof {
                    let h = n.validator_history.push(boundary_of(input@));
                    assert(self.validator_history@ == h);
                    assert forall|i: int| 0 <= i < h.len() implies (#[trigger] h[i]).1.len() > 0 by {
                        if i < n.validator_history.len() {
                            assert(h[i] == n.validator_history[i]);
                        }
                    }
                }
                match self.state.validator_history.insert_boundary(v_eff, set) {
                    Ok(_) => {
                        self.pacemaker.set_selector(WeightedAccumulatorSelector::new(self.validator_history.copy()));
                        outcome
                    },
                    Err(_) => ReconfigOutcome::Unmirrored,
                }
            },
            _ => outcome,
        }
    }

    /// Takes over the committee changes among the commands of a committed
    /// block, and records the committees if any change took effect. Commands
    /// that are refused are passed over. Says also whether the committees
    /// could be recorded, where they had to be.
    pub fn apply_committed_reconfigs<S: Storage>(
        &mut self,
        storage: &mut S,
        block_view: u64,
        inputs: &Vec<ReconfigInput>,
    ) -> (r: (Vec<ReconfigOutcome>, Result<(), NodeError>))
        requires
            old(self).wf(),
            reconfigs_wf(inputs@),
        ensures
            final(self).wf(),
            final(self)@ == reconfigured(old(self)@, block_view, reconfigs_view(inputs@)),
            r.0@ == reconfig_outcomes(old(self)@, block_view, reconfigs_view(inputs@)),
            !some_applied(r.0@) ==> r.1 is Ok,
            match r.1 {
                Ok(_) => final(storage).contents() == if some_applied(r.0@) {
                    old(storage).contents().insert(
                        key_bytes(STORAGE_KEY_VALIDATOR_HISTORY),
                        enc_history(final(self)@.validator_history),
                    )
                } else {
                    old(storage).contents()
                },
                Err(e) => {
                    &&& e == NodeError::Write(Record::ValidatorHistory)
                    &&& !old(storage).steady()
                    &&& final(storage).contents() == old(storage).contents()
                },
            },
    {
        let ghost n = self@;
        let ghost all = reconfigs_view(inputs@);
        let mut outcomes: Vec<ReconfigOutcome> = Vec::new();
        let mut applied_any = false;
        let mut i: usize = 0;
        assert(all.take(0) =~= seq![]);
        while i < inputs.len()
            invariant
                i <= inputs.len(),
                all == reconfigs_view(inputs@),
                reconfigs_wf(inputs@),
                self.wf(),
                self@ == reconfigured(n, block_view, all.take(i as int)),
                outcomes@ == reconfig_outcomes(n, block_view, all.take(i as int)),
                applied_any == some_applied(outcomes@),
            decreases inputs.len() - i,
        {
            let ghost had = outcomes@;
            proof {
                assert(all.take(i + 1).drop_last() =~= all.take(i as int));
                assert(all.take(i + 1).last() == inputs@[i as int]@);
                assert(inputs@[i as int].wf());
            }
            let outcome = self.reconfigure(block_view, &inputs[i]);
            if let ReconfigOutcome::Applied { .. } = outcome {
                applied_any = true;
            }
            outcomes.push(outcome);
            proof {
                let k = had.len() as int;
                assert(outcomes@[k] == outcome);
                if some_applied(had) {
                    let j = choose|j: int| 0 <= j < had.len() && (#[trigger] had[j]) is Applied;
                    assert(outcomes@[j] is Applied);
                }
                if some_applied(outcomes@) && !(outcome is Applied) {
                    let j = choose|j: int| 0 <= j < outcomes@.len() && (#[trigger] outcomes@[j]) is Applied;
                    assert(had[j] is Applied);
                }
            }
            i = i + 1;
        }
        assert(all.take(i as int) =~= all);
        if applied_any {
            let bytes = encode_validator_history(&self.validator_history);
            if !store_record(storage, STORAGE_KEY_VALIDATOR_HISTORY, bytes) {
                return (outcomes, Err(NodeError::Write(Record::ValidatorHistory)));
            }
        }
        (outcomes, Ok(()))
    }
}

// ---- key rotations -------------------------------------------------------

/// The keys of a node.
pub open spec fn keys_of(n: NodeView) -> Keys {
    Keys { signing: n.keys, bls: n.bls }
}

/// The node after the commands of a block, as far as they are rotations.
pub open spec fn rekeyed(n: NodeView, block_view: u64, inputs: Seq<RotationView>) -> NodeView {
    let k = rotate_all(keys_of(n), n.signature_scheme, block_view, inputs);
    NodeView { keys: k.signing, bls: k.bls, ..n }
}

/// What became of the commands.
pub open spec fn rotation_outcomes(k: Keys, scheme: SignatureSchemeChoice, block_view: u64, inputs: Seq<RotationView>) ->
    Seq<RotationOutcome>
    decreases inputs.len(),
{
    if inputs.len() == 0 {
        seq![]
    } else {
        let rest = inputs.drop_last();
        rotation_outcomes(k, scheme, block_view, rest).push(
            judge_rotation(rotate_all(k, scheme, block_view, rest), scheme, block_view, inputs.last()),
        )
    }
}

/// Some signing key was rotated.
pub open spec fn some_rotated(o: Seq<RotationOutcome>) -> bool {
    exists|i: int| 0 <= i < o.len() && rotated(#[trigger] o[i])
}

/// Which records were stored.
#[derive(Clone, Copy, Debug, PartialEq, Eq, Structural)]
pub struct KeysStored {
    pub signing: bool,
    pub bls: bool,
}

/// The store once the key records have been put into it, as far as that
/// worked.
pub open spec fn with_keys(
    m: Map<Seq<u8>, Seq<u8>>,
    signing: Timelines<32>,
    bls: Option<Timelines<48>>,
    s: KeysStored,
) -> Map<Seq<u8>, Seq<u8>> {
    let a = if s.signing {
        m.insert(key_bytes(STORAGE_KEY_VALIDATOR_KEY_HISTORY), enc_keys(signing))
    } else {
        m
    };
    match bls {
        Some(h) => if s.bls {
            a.insert(key_bytes(STORAGE_KEY_BLS_KEY_HISTORY), enc_keys(h))
        } else {
            a
        },
        None => a,
    }
}

impl ConsensusNode {
    /// Records the keys. On chains without BLS keys there is nothing to do
    /// for the second record, and it counts as stored.
    pub(crate) fn store_keys<S: Storage>(&self, storage: &mut S) -> (r: KeysStored)
        ensures
            final(storage).contents() == with_keys(old(storage).contents(), self@.keys, self@.bls, r),
            self@.bls is None ==> r.bls,
            old(storage).steady() ==> r.signing && r.bls,
    {
        let signing = store_record(
            storage,
            STORAGE_KEY_VALIDATOR_KEY_HISTORY,
            encode_key_history(&self.validator_key_history),
        );
        let bls = match &self.bls_key_history {
            Some(h) => store_record(storage, STORAGE_KEY_BLS_KEY_HISTORY, encode_key_history(h)),
            None => true,
        };
        KeysStored { signing, bls }
    }

    /// Takes over the key rotations among the commands of a committed block,
    /// and records the keys if any rotation came about. Commands that are
    /// refused are passed over. Says also which records could be stored,
    /// where they had to be.
    pub fn apply_committed_rotations<S: Storage>(
        &mut self,
        storage: &mut S,
        block_view: u64,
        inputs: &Vec<RotationInput>,
    ) -> (r: (Vec<RotationOutcome>, KeysStored))
        requires
            old(self).wf(),
            old(self).signature_scheme == SignatureSchemeChoice::BlsAggregated ==> old(self).bls_key_history is Some,
            all_carry_bls(rotations_view(inputs@), old(self).signature_scheme),
        ensures
            final(self).wf(),
            final(self)@ == rekeyed(old(self)@, block_view, rotations_view(inputs@)),
            r.0@ == rotation_outcomes(
                keys_of(old(self)@),
                old(self)@.signature_scheme,
                block_view,
                rotations_view(inputs@),
            ),
            final(storage).contents() == if some_rotated(r.0@) {
                with_keys(old(storage).contents(), final(self)@.keys, final(self)@.bls, r.1)
            } else {
                old(storage).contents()
            },
            !some_rotated(r.0@) || final(self)@.bls is None ==> r.1.bls,
            !some_rotated(r.0@) ==> r.1.signing,
            old(storage).steady() ==> r.1.signing && r.1.bls,
    {
        let ghost n = self@;
        let ghost k0 = keys_of(n);
        let ghost all = rotations_view(inputs@);
        let mut outcomes: Vec<RotationOutcome> = Vec::new();
        let mut applied_any = false;
        let scheme = self.signature_scheme;
        let mut i: usize = 0;
        assert(all.take(0) =~= seq![]);
        while i < inputs.len()
            invariant
                i <= inputs.len(),
                all == rotations_view(inputs@),
                all_carry_bls(all, scheme),
                scheme == n.signature_scheme,
                scheme == SignatureSchemeChoice::BlsAggregated ==> self.bls_key_history is Some,
                self.wf(),
                k0 == keys_of(n),
                ({
                    let k = rotate_all(k0, scheme, block_view, all.take(i as int));
                    self@ == (NodeView { keys: k.signing, bls: k.bls, ..n })
                }),
                outcomes@ == rotation_outcomes(k0, scheme, block_view, all.take(i as int)),
                applied_any == some_rotated(outcomes@),
            decreases inputs.len() - i,
        {
            let ghost had = outcomes@;
            proof {
                assert(all.take(i + 1).drop_last() =~= all.take(i as int));
                assert(all.take(i + 1).last() == inputs@[i as int]@);
                assert(carries_bls(all[i as int], scheme));
            }
            let outcome = rotation_step(
                &mut self.validator_key_history,
                &mut self.bls_key_history,
                scheme,
                block_view,
                &inputs[i],
            );
            match outcome {
                RotationOutcome::Applied { .. } | RotationOutcome::BlsLeftBehind { .. } => {
                    applied_any = true;
                },
                _ => {},
            }
            outcomes.push(outcome);
            proof {
                let k = had.len() as int;
                assert(outcomes@[k] == outcome);
                if some_rotated(had) {
                    let j = choose|j: int| 0 <= j < had.len() && rotated(#[trigger] had[j]);
                    assert(rotated(outcomes@[j]));
                }
                if some_rotated(outcomes@) && !rotated(outcome) {
                    let j = choose|j: int| 0 <= j < outcomes@.len() && rotated(#[trigger] outcomes@[j]);
                    assert(rotated(had[j]));
                }
            }
            i = i + 1;
        }
        assert(all.take(i as int) =~= all);
        if applied_any {
            let stored = self.store_keys(storage);
            return (outcomes, stored);
        }
        (outcomes, KeysStored { signing: true, bls: true })
    }
}

// ---- laws ----------------------------------------------------------------

/// The committed height never goes back, and it reaches every block that is
/// committed.
pub proof fn committed_height_never_goes_back(n: NodeView, b: BlockView)
    ensures
        counted(n, b).last_committed_height >= n.last_committed_height,
        counted(n, b).last_committed_height >= b.header.height,
        counted(n, b).last_committed_height == n.last_committed_height || counted(n, b).last_committed_height
            == b.header.height,
{
}

/// A committed block can be read back from the store, and a node that starts
/// from the store knows the height and view that were committed.
pub proof fn a_commit_survives_a_restart<D: Digests>(d: &D, m: Map<Seq<u8>, Seq<u8>>, n: NodeView, b: BlockView)
    requires
        encodable_items(b.commands),
    ensures
        ({
            let after = apply_writes(m, commit_writes(n, b));
            let read = read_block(d, lookup(after, block_key(b.hash)));
            &&& read == Ok::<Option<BlockView>, NodeError>(Some(sealed(d, b.content())))
            &&& genuine(d, b) ==> read == Ok::<Option<BlockView>, NodeError>(Some(b))
            &&& read_checkpoint(lookup(after, key_bytes(STORAGE_KEY_LAST_COMMITTED))) == Ok::<(u64, u64), NodeError>(
                (n.last_committed_height, n.last_committed_view),
            )
        }),
{
    let w = commit_writes(n, b);
    let first = seq![w[0]];
    assert(w.drop_last() =~= first);
    assert(first.drop_last() =~= seq![]);
    reveal_with_fuel(apply_writes, 3);
    stored_block_reads_back(b);
    stored_checkpoint_reads_back(checkpoint(n, b.hash));
    keys_do_not_collide(b.hash, b.hash);
    assert(crate::storage::record_keys()[4] == key_bytes(STORAGE_KEY_LAST_COMMITTED));
}

/// A block leaves the safety state and the pacemaker in step with the
/// node's committees.
pub proof fn changes_reach_everyone(n: NodeView, block_view: u64, inputs: Seq<ReconfigView>)
    requires
        n.in_step(),
        history_ok(n.validator_history),
        history_ok(n.state.validator_history),
    ensures
        reconfigured(n, block_view, inputs).in_step(),
    decreases inputs.len(),
{
    if inputs.len() > 0 {
        let rest = inputs.drop_last();
        changes_reach_everyone(n, block_view, rest);
        lemma_risen(n, block_view, rest);
        let a = reconfigured(n, block_view, rest);
        let b = reconfigured_by(a, block_view, inputs.last());
        if judge(a.validator_history, block_view, a.min_v_eff_delay, inputs.last()) is Applied {
            let x = boundary_of(inputs.last());
            let k = a.validator_history.len() - 1;
            assert(a.state.validator_history.last().0 == a.validator_history.last().0) by {
                if k > 0 {
                    assert(a.state.validator_history[k] == a.validator_history[k]);
                }
            }
            assert(a.validator_history[k] == a.validator_history.last());
            assert(x.0 > a.validator_history.last().0);
            assert forall|i: int| 1 <= i < b.validator_history.len() implies #[trigger] b.state.validator_history[i]
                == b.validator_history[i] by {
                if i < a.validator_history.len() {
                    assert(a.state.validator_history[i] == a.validator_history[i]);
                }
            }
        }
    }
}

/// The first boundaries stay at view zero.
proof fn lemma_risen(n: NodeView, block_view: u64, inputs: Seq<ReconfigView>)
    requires
        history_ok(n.validator_history),
        history_ok(n.state.validator_history),
    ensures
        reconfigured(n, block_view, inputs).validator_history.len() > 0,
        reconfigured(n, block_view, inputs).state.validator_history.len() > 0,
        reconfigured(n, block_view, inputs).validator_history[0].0 == 0,
        reconfigured(n, block_view, inputs).state.validator_history[0].0 == 0,
    decreases inputs.len(),
{
    if inputs.len() > 0 {
        lemma_risen(n, block_view, inputs.drop_last());
    }
}

/// The node's committees change with a block exactly as those of a rebuild
/// from the chain.
pub proof fn a_rebuild_follows_the_node(
    n: NodeView,
    signing: Timelines<32>,
    block_view: u64,
    reconfigs: Seq<ReconfigView>,
)
    ensures
        reconfigured(n, block_view, reconfigs).validator_history == reconfig_all(
            HistoriesView { committees: n.validator_history, signing, bls: n.bls },
            block_view,
            n.min_v_eff_delay,
            reconfigs,
        ).committees,
        reconfigured(n, block_view, reconfigs).min_v_eff_delay == n.min_v_eff_delay,
    decreases reconfigs.len(),
{
    if reconfigs.len() > 0 {
        a_rebuild_follows_the_node(n, signing, block_view, reconfigs.drop_last());
    }
}

/// A change of the committees that took effect is there after a restart.
pub proof fn committees_survive_a_restart(m: Map<Seq<u8>, Seq<u8>>, h: HistoryView, genesis_set: Seq<Member>)
    requires
        history_ok(h),
        no_empty_committee(h),
        h.len() <= u64::MAX,
    ensures
        read_history(
            lookup(
                m.insert(key_bytes(STORAGE_KEY_VALIDATOR_HISTORY), enc_history(h)),
                key_bytes(STORAGE_KEY_VALIDATOR_HISTORY),
            ),
            genesis_set,
        ) == Ok::<HistoryView, NodeError>(h),
{
    stored_history_reads_back(h);
}

} // verus!
