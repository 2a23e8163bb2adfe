//! The check at startup that the loaded committees and keys are those that
//! the committed chain leads to.

use vstd::prelude::*;

use crate::bytes::{same, Bytes32};
use crate::digests::Digests;
use crate::key_history::genesis_timelines;
use crate::node::consensus_node::{opt_bls, ConsensusNode, NodeView};
use crate::node::error::NodeError;
use crate::node::membership::{
    all_carry_bls, reconfigs_view, reconfigs_wf, rotations_view, ReconfigInput, ReconfigView, RotationInput,
    RotationView,
};
use crate::node::rebuild::{
    after_block, committed, seed, Histories, HistoriesView, HistoryError,
};
use crate::state::blocks_view;
use crate::storage::Storage;
use crate::types::{Block, BlockView, SignatureSchemeChoice};

verus! {

/// What the commands of a committed block ask for.
#[derive(Debug)]
pub struct BlockEvidence {
    pub reconfigs: Vec<ReconfigInput>,
    pub rotations: Vec<RotationInput>,
}

pub struct EvidenceView {
    pub reconfigs: Seq<ReconfigView>,
    pub rotations: Seq<RotationView>,
}

impl View for BlockEvidence {
    type V = EvidenceView;

    open spec fn view(&self) -> EvidenceView {
        EvidenceView { reconfigs: reconfigs_view(self.reconfigs@), rotations: rotations_view(self.rotations@) }
    }
}

impl BlockEvidence {
    pub open spec fn wf(&self, scheme: SignatureSchemeChoice) -> bool {
        &&& reconfigs_wf(self.reconfigs@)
        &&& all_carry_bls(rotations_view(self.rotations@), scheme)
    }
}

pub open spec fn evidence_view(e: Seq<BlockEvidence>) -> Seq<EvidenceView> {
    Seq::new(e.len(), |i: int| e[i]@)
}

pub open spec fn evidence_wf(e: Seq<BlockEvidence>, scheme: SignatureSchemeChoice) -> bool {
    forall|i: int| 0 <= i < e.len() ==> (#[trigger] e[i]).wf(scheme)
}

/// The histories that the first `n` blocks of the chain lead to.
pub open spec fn rebuilt(
    h: HistoriesView,
    scheme: SignatureSchemeChoice,
    min_delay: u64,
    chain: Seq<BlockView>,
    evidence: Seq<EvidenceView>,
    n: int,
) -> HistoriesView
    decreases n,
{
    if n <= 0 {
        h
    } else {
        after_block(
            rebuilt(h, scheme, min_delay, chain, evidence, n - 1),
            scheme,
            min_delay,
            chain[n - 1].header.view,
            evidence[n - 1].reconfigs,
            evidence[n - 1].rotations,
        )
    }
}

/// The first `n` blocks commit to the histories that they lead to.
pub open spec fn claims_hold<D: Digests>(
    d: &D,
    start: HistoriesView,
    scheme: SignatureSchemeChoice,
    min_delay: u64,
    chain: Seq<BlockView>,
    evidence: Seq<EvidenceView>,
    n: int,
) -> bool {
    forall|i: int|
        0 <= i < n ==> (#[trigger] chain[i]).header.validator_history_commitment == d.history_digest(
            rebuilt(start, scheme, min_delay, chain, evidence, i + 1),
        )
}

/// What is said of a block that commits to something else.
pub open spec fn mismatch(b: BlockView, actual: Bytes32) -> HistoryError {
    HistoryError::CommitmentMismatch {
        height: b.header.height,
        view: b.header.view,
        hash: b.hash,
        claimed: b.header.validator_history_commitment,
        actual,
    }
}

/// What was loaded is what the chain leads to; the first difference is
/// named.
pub open spec fn agreement(loaded: HistoriesView, end: HistoriesView) -> Result<(), HistoryError> {
    if loaded.committees != end.committees {
        Err(HistoryError::Committees)
    } else if loaded.signing != end.signing {
        Err(HistoryError::SigningKeys)
    } else if loaded.bls != end.bls {
        Err(HistoryError::BlsKeys)
    } else {
        Ok(())
    }
}

/// The verdict on the loaded histories: every block commits to what the
/// chain leads to at that point, and at the end it leads to what was loaded.
pub open spec fn audited<D: Digests>(
    d: &D,
    loaded: HistoriesView,
    scheme: SignatureSchemeChoice,
    min_delay: u64,
    chain: Seq<BlockView>,
    evidence: Seq<EvidenceView>,
    r: Result<(), HistoryError>,
) -> bool {
    let start = seed(loaded);
    let n = chain.len() as int;
    if claims_hold(d, start, scheme, min_delay, chain, evidence, n) {
        r == agreement(loaded, rebuilt(start, scheme, min_delay, chain, evidence, n))
    } else {
        exists|i: int|
            {
                let actual = d.history_digest(rebuilt(start, scheme, min_delay, chain, evidence, i + 1));
                &&& 0 <= i < n
                &&& claims_hold(d, start, scheme, min_delay, chain, evidence, i)
                &&& (#[trigger] chain[i]).header.validator_history_commitment != actual
                &&& r == Err::<(), HistoryError>(mismatch(chain[i], actual))
            }
    }
}

/// The histories of a node.
pub open spec fn histories_of(n: NodeView) -> HistoriesView {
    HistoriesView { committees: n.validator_history, signing: n.keys, bls: n.bls }
}

impl ConsensusNode {
    /// Holds the loaded histories against a chain of committed blocks, the
    /// first of which is genesis. The commitment of each block is held
    /// against that to the histories after the block.
    pub fn audit_histories<D: Digests>(
        &self,
        digests: &D,
        chain: &Vec<Block>,
        evidence: &Vec<BlockEvidence>,
    ) -> (r: Result<(), HistoryError>)
        requires
            self.wf(),
            chain.len() == evidence.len(),
            evidence_wf(evidence@, self.signature_scheme),
            self.signature_scheme == SignatureSchemeChoice::BlsAggregated ==> self.bls_key_history is Some,
        ensures
            audited(
                digests,
                histories_of(self@),
                self@.signature_scheme,
                self@.min_v_eff_delay,
                blocks_view(chain@),
                evidence_view(evidence@),
                r,
            ),
    {
        let ghost c = blocks_view(chain@);
        let ghost e = evidence_view(evidence@);
        let ghost loaded = histories_of(self@);
        let ghost start = seed(loaded);
        let mut h = Histories::seed_from(&self.validator_history, &self.bls_key_history);
        assert(h@ == start) by {
            assert(loaded == (HistoriesView {
                committees: self.validator_history@,
                signing: self@.keys,
                bls: opt_bls(self.bls_key_history),
            }));
        }
        let mut i: usize = 0;
        while i < chain.len()
            invariant
                i <= chain.len(),
                chain.len() == evidence.len(),
                c == blocks_view(chain@),
                e == evidence_view(evidence@),
                loaded == histories_of(self@),
                start == seed(loaded),
                evidence_wf(evidence@, self.signature_scheme),
                h.wf(),
                self.signature_scheme == SignatureSchemeChoice::BlsAggregated ==> h.bls is Some,
                h@ == rebuilt(start, self@.signature_scheme, self@.min_v_eff_delay, c, e, i as int),
                claims_hold(
                    digests,
                    start,
                    self@.signature_scheme,
                    self@.min_v_eff_delay,
                    c,
                    e,
                    i as int,
                ),
            decreases chain.len() - i,
        {
            assert(evidence@[i as int].wf(self.signature_scheme));
            h.apply_block(
                self.signature_scheme,
                self.min_v_eff_delay,
                chain[i].header.view,
                &evidence[i].reconfigs,
                &evidence[i].rotations,
            );
            proof {
                assert(c[i as int] == chain@[i as int]@);
                assert(e[i as int] == evidence@[i as int]@);
            }
            let claimed = chain[i].header.validator_history_commitment;
            let actual = digests.commit_histories(&h);
            if !same(&claimed, &actual) {
                assert(c[i as int].header.validator_history_commitment != actual);
                return Err(
                    HistoryError::CommitmentMismatch {
                        height: chain[i].header.height,
                        view: chain[i].header.view,
                        hash: chain[i].hash,
                        claimed,
                        actual,
                    },
                );
            }
            i = i + 1;
        }
        if !self.validator_history.same_as(&h.committees) {
            return Err(HistoryError::Committees);
        }
        if !self.validator_key_history.same_as(&h.keys) {
            return Err(HistoryError::SigningKeys);
        }
        match (&self.bls_key_history, &h.bls) {
            (Some(a), Some(b)) => {
                if !a.same_as(b) {
                    return Err(HistoryError::BlsKeys);
                }
            },
            (None, None) => {},
            _ => {
                return Err(HistoryError::BlsKeys);
            },
        }
        Ok(())
    }

    /// Refuses to start from committees and keys that the committed chain in
    /// the store does not lead to. `evidence` tells of each block of that
    /// chain, in order, what its commands ask for. Where nothing was
    /// committed there is nothing to check.
    pub fn verify_persisted_history_consistency<S: Storage, D: Digests>(
        &self,
        storage: &S,
        digests: &D,
        evidence: &Vec<BlockEvidence>,
    ) -> (r: Result<(), HistoryError>)
        requires
            self.wf(),
            evidence_wf(evidence@, self.signature_scheme),
            self.signature_scheme == SignatureSchemeChoice::BlsAggregated ==> self.bls_key_history is Some,
        ensures
            (r matches Err(HistoryError::Storage(NodeError::Read(_))) && !storage.steady()) || match committed(
                digests,
                storage.contents(),
                self@,
            ) {
                Err(e) => r == Err::<(), HistoryError>(e),
                Ok(None) => r is Ok,
                Ok(Some(chain)) => if chain.len() != evidence.len() {
                    r == Err::<(), HistoryError>(HistoryError::Incomplete)
                } else {
                    audited(
                        digests,
                        histories_of(self@),
                        self@.signature_scheme,
                        self@.min_v_eff_delay,
                        chain,
                        evidence_view(evidence@),
                        r,
                    )
                },
            },
    {
        match self.committed_chain(storage, digests) {
            Err(e) => Err(e),
            Ok(None) => Ok(()),
            Ok(Some(chain)) => {
                if chain.len() != evidence.len() {
                    return Err(HistoryError::Incomplete);
                }
                self.audit_histories(digests, &chain, evidence)
            },
        }
    }
}

// ---- laws ----------------------------------------------------------------

/// A block can be taken over in two steps: its committee changes first, so
/// that its rotations can be read against the keys that these lead to, and
/// then its rotations.
pub proof fn a_block_can_be_taken_over_in_two_steps(
    h: HistoriesView,
    scheme: SignatureSchemeChoice,
    min_delay: u64,
    block_view: u64,
    e: EvidenceView,
)
    ensures
        ({
            let between = after_block(h, scheme, min_delay, block_view, e.reconfigs, seq![]);
            after_block(between, scheme, min_delay, block_view, seq![], e.rotations) == after_block(
                h,
                scheme,
                min_delay,
                block_view,
                e.reconfigs,
                e.rotations,
            )
        }),
{
}

/// Histories that pass are those that the chain leads to, and every block of
/// the chain commits to what it leads to.
pub proof fn what_passes_is_what_the_chain_leads_to<D: Digests>(
    d: &D,
    loaded: HistoriesView,
    scheme: SignatureSchemeChoice,
    min_delay: u64,
    chain: Seq<BlockView>,
    evidence: Seq<EvidenceView>,
)
    requires
        audited(d, loaded, scheme, min_delay, chain, evidence, Ok(())),
    ensures
        loaded == rebuilt(seed(loaded), scheme, min_delay, chain, evidence, chain.len() as int),
        claims_hold(d, seed(loaded), scheme, min_delay, chain, evidence, chain.len() as int),
{
    let end = rebuilt(seed(loaded), scheme, min_delay, chain, evidence, chain.len() as int);
    assert(loaded =~= end);
}

/// Histories that the chain leads to pass, if every block commits to what it
/// leads to.
pub proof fn what_the_chain_leads_to_passes<D: Digests>(
    d: &D,
    loaded: HistoriesView,
    scheme: SignatureSchemeChoice,
    min_delay: u64,
    chain: Seq<BlockView>,
    evidence: Seq<EvidenceView>,
)
    requires
        loaded == rebuilt(seed(loaded), scheme, min_delay, chain, evidence, chain.len() as int),
        claims_hold(d, seed(loaded), scheme, min_delay, chain, evidence, chain.len() as int),
    ensures
        audited(d, loaded, scheme, min_delay, chain, evidence, Ok(())),
{
}

proof fn lemma_rebuilt_prefix(
    h: HistoriesView,
    scheme: SignatureSchemeChoice,
    min_delay: u64,
    chain: Seq<BlockView>,
    evidence: Seq<EvidenceView>,
    b: BlockView,
    e: EvidenceView,
    n: int,
)
    requires
        n <= chain.len(),
        n <= evidence.len(),
    ensures
        rebuilt(h, scheme, min_delay, chain.push(b), evidence.push(e), n) == rebuilt(
            h,
            scheme,
            min_delay,
            chain,
            evidence,
            n,
        ),
    decreases n,
{
    if n > 0 {
        lemma_rebuilt_prefix(h, scheme, min_delay, chain, evidence, b, e, n - 1);
    }
}

/// A block that commits to what it leads to extends a chain that passes to
/// one that passes.
pub proof fn an_honest_block_keeps_the_chain_sound<D: Digests>(
    d: &D,
    start: HistoriesView,
    scheme: SignatureSchemeChoice,
    min_delay: u64,
    chain: Seq<BlockView>,
    evidence: Seq<EvidenceView>,
    b: BlockView,
    e: EvidenceView,
)
    requires
        chain.len() == evidence.len(),
        claims_hold(d, start, scheme, min_delay, chain, evidence, chain.len() as int),
        b.header.validator_history_commitment == d.history_digest(
            after_block(
                rebuilt(start, scheme, min_delay, chain, evidence, chain.len() as int),
                scheme,
                min_delay,
                b.header.view,
                e.reconfigs,
                e.rotations,
            ),
        ),
    ensures
        claims_hold(d, start, scheme, min_delay, chain.push(b), evidence.push(e), chain.len() as int + 1),
        rebuilt(start, scheme, min_delay, chain.push(b), evidence.push(e), chain.len() as int + 1) == after_block(
            rebuilt(start, scheme, min_delay, chain, evidence, chain.len() as int),
            scheme,
            min_delay,
            b.header.view,
            e.reconfigs,
            e.rotations,
        ),
{
    let c = chain.push(b);
    let f = evidence.push(e);
    lemma_rebuilt_prefix(start, scheme, min_delay, chain, evidence, b, e, chain.len() as int);
    assert forall|i: int| 0 <= i < chain.len() + 1 implies (#[trigger] c[i]).header.validator_history_commitment
        == d.history_digest(rebuilt(start, scheme, min_delay, c, f, i + 1)) by {
        if i < chain.len() {
            lemma_rebuilt_prefix(start, scheme, min_delay, chain, evidence, b, e, i + 1);
            assert(c[i] == chain[i]);
        }
    }
}

/// The parts of loaded histories that the rebuild takes over from them.
pub open spec fn same_seed(a: HistoriesView, b: HistoriesView) -> bool {
    &&& a.committees[0].1 == b.committees[0].1
    &&& match (a.bls, b.bls) {
        (Some(x), Some(y)) => genesis_timelines(x) == genesis_timelines(y),
        (None, None) => true,
        _ => false,
    }
}

/// One chain admits one history: whoever changes a stored boundary, key or
/// view after genesis does not get past the check.
pub proof fn a_changed_history_does_not_pass<D: Digests>(
    d: &D,
    good: HistoriesView,
    changed: HistoriesView,
    scheme: SignatureSchemeChoice,
    min_delay: u64,
    chain: Seq<BlockView>,
    evidence: Seq<EvidenceView>,
)
    requires
        same_seed(good, changed),
        audited(d, good, scheme, min_delay, chain, evidence, Ok(())),
        changed != good,
    ensures
        !audited(d, changed, scheme, min_delay, chain, evidence, Ok(())),
{
    assert(seed(good) =~= seed(changed));
    what_passes_is_what_the_chain_leads_to(d, good, scheme, min_delay, chain, evidence);
    if audited(d, changed, scheme, min_delay, chain, evidence, Ok(())) {
        what_passes_is_what_the_chain_leads_to(d, changed, scheme, min_delay, chain, evidence);
    }
}

/// A change that reaches back to genesis, be it in the genesis committee or
/// in a BLS key at genesis, does not get past the check either, unless the
/// changed histories have the digest of the good ones. It makes no
/// difference how the commands of the blocks are read against them.
pub proof fn a_changed_genesis_does_not_pass<D: Digests>(
    d: &D,
    good: HistoriesView,
    changed: HistoriesView,
    scheme: SignatureSchemeChoice,
    min_delay: u64,
    chain: Seq<BlockView>,
    evidence: Seq<EvidenceView>,
    reread: Seq<EvidenceView>,
)
    requires
        chain.len() > 0,
        audited(d, good, scheme, min_delay, chain, evidence, Ok(())),
        d.history_digest(changed) != d.history_digest(good),
    ensures
        !audited(d, changed, scheme, min_delay, chain, reread, Ok(())),
{
    let last = chain.len() - 1;
    what_passes_is_what_the_chain_leads_to(d, good, scheme, min_delay, chain, evidence);
    assert(chain[last].header.validator_history_commitment == d.history_digest(good));
    if audited(d, changed, scheme, min_delay, chain, reread, Ok(())) {
        what_passes_is_what_the_chain_leads_to(d, changed, scheme, min_delay, chain, reread);
        assert(chain[last].header.validator_history_commitment == d.history_digest(changed));
    }
}

/// A block that commits to other histories than it leads to is refused.
pub proof fn a_wrong_commitment_does_not_pass<D: Digests>(
    d: &D,
    loaded: HistoriesView,
    scheme: SignatureSchemeChoice,
    min_delay: u64,
    chain: Seq<BlockView>,
    evidence: Seq<EvidenceView>,
    i: int,
)
    requires
        0 <= i < chain.len(),
        chain[i].header.validator_history_commitment != d.history_digest(
            rebuilt(seed(loaded), scheme, min_delay, chain, evidence, i + 1),
        ),
    ensures
        !audited(d, loaded, scheme, min_delay, chain, evidence, Ok(())),
{
}

} // verus!
