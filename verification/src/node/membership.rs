//! Changes of the committee and of signing keys that committed blocks carry.

use vstd::prelude::*;

use crate::key_history::{
    owner, rotate_verdict, rotation_verdict, timeline_of, with_key, BlsKeyHistory, KeyEntry, RotationError,
    Timelines, ValidatorKeyHistory,
};
use crate::node::config::{effective_delay, MIN_VALIDATOR_FLOOR, MIN_V_EFF_DELAY};
use crate::node::consensus_node::opt_bls;
use crate::node::timeouts::contains_id;
use crate::types::SignatureSchemeChoice;
use crate::validator_history::{
    history_ok, later_boundary_keeps_earlier_committee, set_at, HistoryView, ValidatorSetHistory,
};
use crate::validator_set::{committee_of, sound_prefix, NodeId, ValidatorId, ValidatorSet, MEMBER_LIMIT};

verus! {

// ---- committee changes ---------------------------------------------------

/// A command of a committed block, as far as committee changes go.
#[derive(Debug)]
pub enum ReconfigInput {
    /// Not a committee change.
    Other,
    /// Marked as one, but unreadable.
    Malformed,
    /// A change that does not go with the committee in force, or is not
    /// attested as it should be.
    Refused,
    /// A change that leads to a committee of these members from `v_eff` on.
    Candidate { v_eff: u64, members: Vec<(ValidatorId, u64)> },
}

pub enum ReconfigView {
    Other,
    Malformed,
    Refused,
    Candidate { v_eff: u64, members: Seq<(ValidatorId, u64)> },
}

impl View for ReconfigInput {
    type V = ReconfigView;

    open spec fn view(&self) -> ReconfigView {
        match *self {
            ReconfigInput::Other => ReconfigView::Other,
            ReconfigInput::Malformed => ReconfigView::Malformed,
            ReconfigInput::Refused => ReconfigView::Refused,
            ReconfigInput::Candidate { v_eff, members } => ReconfigView::Candidate { v_eff, members: members@ },
        }
    }
}

impl ReconfigInput {
    /// The committee is of a size that can be dealt with.
    pub open spec fn wf(&self) -> bool {
        self matches ReconfigInput::Candidate { members, .. } ==> members.len() < MEMBER_LIMIT
    }
}

pub open spec fn reconfigs_view(s: Seq<ReconfigInput>) -> Seq<ReconfigView> {
    Seq::new(s.len(), |i: int| s[i]@)
}

pub open spec fn reconfigs_wf(s: Seq<ReconfigInput>) -> bool {
    forall|i: int| 0 <= i < s.len() ==> (#[trigger] s[i]).wf()
}

/// What became of a command that might be a committee change.
#[derive(Clone, Copy, Debug, PartialEq, Eq, Structural)]
pub enum ReconfigOutcome {
    Other,
    Malformed,
    Refused,
    /// It would take effect too soon after the block that carries it.
    TooSoon,
    /// It would leave too few validators.
    TooSmall,
    /// An earlier change has not taken effect yet.
    Conflict,
    /// A weight is zero or a validator is listed twice.
    BadCommittee,
    /// The safety state has a later boundary already.
    Unmirrored,
    Applied { v_eff: u64 },
}

/// A change is decided and has not taken effect at `view`.
pub open spec fn change_pending(h: HistoryView, view: u64) -> bool {
    exists|i: int| 0 <= i < h.len() && (#[trigger] h[i]).0 != 0 && h[i].0 > view
}

/// What becomes of a command that a block at `block_view` carries.
pub open spec fn judge(h: HistoryView, block_view: u64, min_delay: u64, input: ReconfigView) -> ReconfigOutcome {
    match input {
        ReconfigView::Other => ReconfigOutcome::Other,
        ReconfigView::Malformed => ReconfigOutcome::Malformed,
        ReconfigView::Refused => ReconfigOutcome::Refused,
        ReconfigView::Candidate { v_eff, members } => if v_eff < block_view + effective_delay(min_delay) {
            ReconfigOutcome::TooSoon
        } else if members.len() < MIN_VALIDATOR_FLOOR {
            ReconfigOutcome::TooSmall
        } else if change_pending(h, block_view) {
            ReconfigOutcome::Conflict
        } else if !sound_prefix(members, members.len() as int) {
            ReconfigOutcome::BadCommittee
        } else {
            ReconfigOutcome::Applied { v_eff }
        },
    }
}

/// The boundary that a command adds.
pub open spec fn boundary_of(input: ReconfigView) -> (u64, Seq<crate::validator_set::Member>) {
    match input {
        ReconfigView::Candidate { v_eff, members } => (v_eff, committee_of(members)),
        _ => (0, seq![]),
    }
}

/// The committees after a command.
pub open spec fn committees_after(h: HistoryView, block_view: u64, min_delay: u64, input: ReconfigView) -> HistoryView {
    if judge(h, block_view, min_delay, input) is Applied {
        h.push(boundary_of(input))
    } else {
        h
    }
}

/// Whether a change is decided and has not taken effect at `view`.
pub fn has_pending_change(h: &ValidatorSetHistory, view: u64) -> (r: bool)
    ensures
        r == change_pending(h@, view),
{
    let n = h.boundary_count();
    let mut i: usize = 0;
    while i < n
        invariant
            i <= n,
            n == h@.len(),
            forall|k: int| 0 <= k < i ==> !((#[trigger] h@[k]).0 != 0 && h@[k].0 > view),
        decreases n - i,
    {
        let v: u64 = h.v_eff_of(i);
        if v != 0 && v > view {
            assert(h@[i as int].0 > view);
            return true;
        }
        i = i + 1;
    }
    false
}

fn copy_entries(v: &Vec<(ValidatorId, u64)>) -> (r: Vec<(ValidatorId, u64)>)
    ensures
        r@ == v@,
{
    let mut out: Vec<(ValidatorId, u64)> = Vec::new();
    let mut i: usize = 0;
    while i < v.len()
        invariant
            i <= v.len(),
            out@ =~= v@.take(i as int),
        decreases v.len() - i,
    {
        out.push((v[i].0, v[i].1));
        i = i + 1;
    }
    assert(v@.take(v@.len() as int) =~= v@);
    out
}

/// Where no change is pending, a boundary that keeps the delay comes after
/// all others.
proof fn lemma_room_at_the_end(h: HistoryView, block_view: u64, min_delay: u64, v_eff: u64)
    requires
        history_ok(h),
        !change_pending(h, block_view),
        v_eff >= block_view + effective_delay(min_delay),
    ensures
        v_eff > h.last().0,
{
    let k = h.len() - 1;
    assert(h[k] == h.last());
}

/// Applies one command to the committees. Where it is a change that stands,
/// the new committee is returned.
pub fn reconfig_step(h: &mut ValidatorSetHistory, block_view: u64, min_delay: u64, input: &ReconfigInput) -> (r: (
    ReconfigOutcome,
    Option<ValidatorSet>,
))
    requires
        old(h).wf(),
        input.wf(),
    ensures
        final(h).wf(),
        r.0 == judge(old(h)@, block_view, min_delay, input@),
        final(h)@ == committees_after(old(h)@, block_view, min_delay, input@),
        r.0 is Applied <==> r.1 is Some,
        r.1 matches Some(s) ==> s.wf() && s@ == boundary_of(input@).1 && s@.len() >= MIN_VALIDATOR_FLOOR,
{
    let ghost before = h@;
    match input {
        ReconfigInput::Other => (ReconfigOutcome::Other, None),
        ReconfigInput::Malformed => (ReconfigOutcome::Malformed, None),
        ReconfigInput::Refused => (ReconfigOutcome::Refused, None),
        ReconfigInput::Candidate { v_eff, members } => {
            let delay: u64 = if min_delay > MIN_V_EFF_DELAY {
                min_delay
            } else {
                MIN_V_EFF_DELAY
            };
            if *v_eff < block_view || *v_eff - block_view < delay {
                return (ReconfigOutcome::TooSoon, None);
            }
            if members.len() < MIN_VALIDATOR_FLOOR {
                return (ReconfigOutcome::TooSmall, None);
            }
            if has_pending_change(h, block_view) {
                return (ReconfigOutcome::Conflict, None);
            }
            match ValidatorSet::with_weights(copy_entries(members)) {
                Ok(set) => {
                    proof {
                        lemma_room_at_the_end(before, block_view, min_delay, *v_eff);
                    }
                    let _ = h.insert_boundary(*v_eff, set.copy());
                    (ReconfigOutcome::Applied { v_eff: *v_eff }, Some(set))
                },
                Err(_) => (ReconfigOutcome::BadCommittee, None),
            }
        },
    }
}

// ---- laws of committee changes -------------------------------------------

/// At most one change is pending at `view`.
pub open spec fn one_change_pending(h: HistoryView, view: u64) -> bool {
    forall|i: int, j: int|
        0 <= i < j < h.len() ==> !((#[trigger] h[i]).0 != 0 && h[i].0 > view && (#[trigger] h[j]).0 > view)
}

/// Whatever a block carries, no more than one committee change is ever
/// pending.
pub proof fn changes_do_not_pile_up(h: HistoryView, block_view: u64, min_delay: u64, input: ReconfigView)
    requires
        one_change_pending(h, block_view),
    ensures
        one_change_pending(committees_after(h, block_view, min_delay, input), block_view),
{
    let g = committees_after(h, block_view, min_delay, input);
    assert forall|i: int, j: int| 0 <= i < j < g.len() implies !((#[trigger] g[i]).0 != 0 && g[i].0 > block_view && (
    #[trigger] g[j]).0 > block_view) by {
        assert(g[i] == h[i]);
        if j < h.len() {
            assert(g[j] == h[j]);
        }
    }
}

/// A committee change leaves every view before its boundary to the committee
/// that it had, the view of the block that carries it among them.
pub proof fn changes_leave_earlier_views_alone(
    h: HistoryView,
    block_view: u64,
    min_delay: u64,
    input: ReconfigView,
    view: u64,
)
    requires
        history_ok(h),
        view <= block_view || (input matches ReconfigView::Candidate { v_eff, .. } && view < v_eff),
    ensures
        set_at(committees_after(h, block_view, min_delay, input), view) == set_at(h, view),
{
    if let ReconfigView::Candidate { v_eff, members } = input {
        if judge(h, block_view, min_delay, input) is Applied {
            lemma_room_at_the_end(h, block_view, min_delay, v_eff);
            later_boundary_keeps_earlier_committee(h, v_eff, committee_of(members), view);
        }
    }
}

/// A command that is refused for any reason leaves the committees as they
/// were.
pub proof fn refused_changes_change_nothing(h: HistoryView, block_view: u64, min_delay: u64, input: ReconfigView)
    requires
        !(judge(h, block_view, min_delay, input) is Applied),
    ensures
        committees_after(h, block_view, min_delay, input) == h,
{
}

/// Of two changes in one block the second is dropped if the first stands.
pub proof fn the_first_change_of_a_block_wins(
    h: HistoryView,
    block_view: u64,
    min_delay: u64,
    a: ReconfigView,
    b: ReconfigView,
)
    requires
        judge(h, block_view, min_delay, a) is Applied,
    ensures
        committees_after(committees_after(h, block_view, min_delay, a), block_view, min_delay, b) == committees_after(
            h,
            block_view,
            min_delay,
            a,
        ),
{
    let g = committees_after(h, block_view, min_delay, a);
    let k = h.len() as int;
    assert(g[k] == boundary_of(a));
    assert(g[k].0 > block_view);
    assert(change_pending(g, block_view));
}

// ---- key rotations -------------------------------------------------------

/// A command of a committed block, as far as key rotations go.
#[derive(Debug)]
pub enum RotationInput {
    /// Not a rotation.
    Other,
    /// Marked as one, but unreadable.
    Malformed,
    /// A rotation of the validator that has or had the key `validator`.
    Signed {
        validator: NodeId,
        new_key: NodeId,
        v_eff: u64,
        new_bls_key: Option<[u8; 48]>,
        /// The old keys under which its two signatures verify.
        attested_under: Vec<NodeId>,
        /// It carries what the signature scheme of the chain asks for.
        scheme_consistent: bool,
    },
}

pub enum RotationView {
    Other,
    Malformed,
    Signed {
        validator: NodeId,
        new_key: NodeId,
        v_eff: u64,
        new_bls_key: Option<[u8; 48]>,
        attested_under: Seq<NodeId>,
        scheme_consistent: bool,
    },
}

impl View for RotationInput {
    type V = RotationView;

    open spec fn view(&self) -> RotationView {
        match *self {
            RotationInput::Other => RotationView::Other,
            RotationInput::Malformed => RotationView::Malformed,
            RotationInput::Signed { validator, new_key, v_eff, new_bls_key, attested_under, scheme_consistent } =>
                RotationView::Signed {
                validator,
                new_key,
                v_eff,
                new_bls_key,
                attested_under: attested_under@,
                scheme_consistent,
            },
        }
    }
}

pub open spec fn rotations_view(s: Seq<RotationInput>) -> Seq<RotationView> {
    Seq::new(s.len(), |i: int| s[i]@)
}

/// A rotation that suits a chain with BLS keys carries a new BLS key.
pub open spec fn carries_bls(input: RotationView, scheme: SignatureSchemeChoice) -> bool {
    scheme == SignatureSchemeChoice::BlsAggregated ==> (input matches RotationView::Signed {
        new_bls_key,
        scheme_consistent,
        ..
    } ==> (scheme_consistent ==> new_bls_key is Some))
}

pub open spec fn all_carry_bls(s: Seq<RotationView>, scheme: SignatureSchemeChoice) -> bool {
    forall|i: int| 0 <= i < s.len() ==> carries_bls(#[trigger] s[i], scheme)
}

/// What became of a command that might be a key rotation.
#[derive(Clone, Copy, Debug, PartialEq, Eq, Structural)]
pub enum RotationOutcome {
    Other,
    Malformed,
    /// The key that names the validator is nobody's.
    UnknownValidator,
    /// The signatures do not verify under the key in force.
    Unattested,
    /// The rotation does not suit the signature scheme of the chain.
    SchemeMismatch,
    /// The key history does not take it.
    Refused(RotationError),
    /// The signing key is rotated, and on chains with BLS keys the BLS key.
    Applied { v_eff: u64 },
    /// The signing key is rotated, but the BLS history did not take its
    /// half.
    BlsLeftBehind { v_eff: u64, why: RotationError },
}

/// The signing keys and the BLS keys.
pub struct Keys {
    pub signing: Timelines<32>,
    pub bls: Option<Timelines<48>>,
}

/// What becomes of a rotation that a block at `block_view` carries.
pub open spec fn judge_rotation(k: Keys, scheme: SignatureSchemeChoice, block_view: u64, input: RotationView) ->
    RotationOutcome {
    match input {
        RotationView::Other => RotationOutcome::Other,
        RotationView::Malformed => RotationOutcome::Malformed,
        RotationView::Signed { validator, new_key, v_eff, new_bls_key, attested_under, scheme_consistent } => match owner(
            k.signing,
            validator,
        ) {
            None => RotationOutcome::UnknownValidator,
            Some(i) => if !attested_under.contains(k.signing[i].1.last().key) {
                RotationOutcome::Unattested
            } else if !scheme_consistent {
                RotationOutcome::SchemeMismatch
            } else {
                match rotation_verdict(k.signing, validator, new_key, v_eff, block_view) {
                    Err(e) => RotationOutcome::Refused(e),
                    Ok(_) => if scheme == SignatureSchemeChoice::BlsAggregated {
                        match rotate_verdict(k.bls->0, k.signing[i].0, new_bls_key->0, v_eff) {
                            Ok(_) => RotationOutcome::Applied { v_eff },
                            Err(why) => RotationOutcome::BlsLeftBehind { v_eff, why },
                        }
                    } else {
                        RotationOutcome::Applied { v_eff }
                    },
                }
            },
        },
    }
}

/// The keys after a command.
pub open spec fn keys_after(k: Keys, scheme: SignatureSchemeChoice, block_view: u64, input: RotationView) -> Keys {
    match input {
        RotationView::Signed { validator, new_key, v_eff, new_bls_key, .. } => {
            let i = owner(k.signing, validator)->0;
            let signing = with_key(k.signing, i, KeyEntry { v_eff, key: new_key });
            match judge_rotation(k, scheme, block_view, input) {
                RotationOutcome::Applied { .. } => Keys {
                    signing,
                    bls: if scheme == SignatureSchemeChoice::BlsAggregated {
                        let h = k.bls->0;
                        Some(
                            with_key(
                                h,
                                timeline_of(h, k.signing[i].0)->0,
                                KeyEntry { v_eff, key: new_bls_key->0 },
                            ),
                        )
                    } else {
                        k.bls
                    },
                },
                RotationOutcome::BlsLeftBehind { .. } => Keys { signing, bls: k.bls },
                _ => k,
            }
        },
        _ => k,
    }
}

/// The outcome says that a signing key was rotated.
pub open spec fn rotated(o: RotationOutcome) -> bool {
    o is Applied || o is BlsLeftBehind
}

pub open spec fn opt_bls_wf(o: Option<BlsKeyHistory>) -> bool {
    o matches Some(h) ==> h.wf()
}

/// Applies one command to the keys.
pub fn rotation_step(
    keys: &mut ValidatorKeyHistory,
    bls: &mut Option<BlsKeyHistory>,
    scheme: SignatureSchemeChoice,
    block_view: u64,
    input: &RotationInput,
) -> (r: RotationOutcome)
    requires
        old(keys).wf(),
        opt_bls_wf(*old(bls)),
        scheme == SignatureSchemeChoice::BlsAggregated ==> *old(bls) is Some,
        carries_bls(input@, scheme),
    ensures
        final(keys).wf(),
        opt_bls_wf(*final(bls)),
        *final(bls) is Some <==> *old(bls) is Some,
        ({
            let k = Keys { signing: old(keys)@, bls: opt_bls(*old(bls)) };
            &&& r == judge_rotation(k, scheme, block_view, input@)
            &&& final(keys)@ == keys_after(k, scheme, block_view, input@).signing
            &&& opt_bls(*final(bls)) == keys_after(k, scheme, block_view, input@).bls
        }),
{
    match input {
        RotationInput::Other => RotationOutcome::Other,
        RotationInput::Malformed => RotationOutcome::Malformed,
        RotationInput::Signed { validator, new_key, v_eff, new_bls_key, attested_under, scheme_consistent } => {
            let current = match keys.current_key(validator) {
                Some(k) => k,
                None => {
                    return RotationOutcome::UnknownValidator;
                },
            };
            if !contains_id(attested_under, &current) {
                return RotationOutcome::Unattested;
            }
            if !*scheme_consistent {
                return RotationOutcome::SchemeMismatch;
            }
            let stable_id = match keys.validator_for(validator) {
                Some(id) => id,
                None => {
                    return RotationOutcome::UnknownValidator;
                },
            };
            match keys.apply_rotation(validator, *new_key, *v_eff, block_view) {
                Ok(_) => {},
                Err(e) => {
                    return RotationOutcome::Refused(e);
                },
            }
            match scheme {
                SignatureSchemeChoice::Ed25519Collected => RotationOutcome::Applied { v_eff: *v_eff },
                SignatureSchemeChoice::BlsAggregated => match bls.take() {
                    Some(h) => {
                        let mut h = h;
                        let r = match new_bls_key {
                            Some(k) => h.rotate(&stable_id.id, *k, *v_eff),
                            None => Ok(()),
                        };
                        *bls = Some(h);
                        match r {
                            Ok(_) => RotationOutcome::Applied { v_eff: *v_eff },
                            Err(why) => RotationOutcome::BlsLeftBehind { v_eff: *v_eff, why },
                        }
                    },
                    None => RotationOutcome::Applied { v_eff: *v_eff },
                },
            }
        },
    }
}

// ---- laws of key rotations -----------------------------------------------

/// A rotation that does not come about leaves all keys as they were.
pub proof fn refused_rotations_change_nothing(
    k: Keys,
    scheme: SignatureSchemeChoice,
    block_view: u64,
    input: RotationView,
)
    requires
        !rotated(judge_rotation(k, scheme, block_view, input)),
    ensures
        keys_after(k, scheme, block_view, input) == k,
{
}

/// Nobody's key changes without a signature under the key that is in force.
pub proof fn only_the_holder_rotates_a_key(k: Keys, scheme: SignatureSchemeChoice, block_view: u64, input: RotationView)
    requires
        keys_after(k, scheme, block_view, input).signing != k.signing,
    ensures
        input matches RotationView::Signed { validator, attested_under, .. } && (owner(k.signing, validator) matches Some(i)
            && attested_under.contains(k.signing[i].1.last().key)),
{
}

} // verus!
