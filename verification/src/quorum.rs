//! How many validators, and how much weight, a decision takes.

use vstd::prelude::*;

use crate::validator_set::{weight_sum, ValidatorSet};

verus! {

/// More than two thirds of `total`.
pub open spec fn quorum_of(total: nat) -> nat {
    2 * total / 3 + 1
}

/// More than one third of `total`: more than the faulty validators can hold.
pub open spec fn honesty_of(total: nat) -> nat {
    total / 3 + 1
}

/// The number of validators in a quorum of a committee of `n`.
pub fn quorum_size(n: usize) -> (r: usize)
    ensures
        r == quorum_of(n as nat),
{
    n - n / 3 - (if n % 3 == 0 {
        0
    } else {
        1
    }) + 1
}

/// The weight of a quorum of the committee.
pub fn quorum_weight_threshold(vs: &ValidatorSet) -> (r: u128)
    requires
        vs.wf(),
    ensures
        r == quorum_of(weight_sum(vs@)),
{
    let total: u128 = vs.total_weight();
    2 * total / 3 + 1
}

/// The weight that faulty validators cannot reach on their own.
pub fn honesty_weight_threshold(vs: &ValidatorSet) -> (r: u128)
    requires
        vs.wf(),
    ensures
        r == honesty_of(weight_sum(vs@)),
{
    let total: u128 = vs.total_weight();
    total / 3 + 1
}

/// Two quorums share more weight than faulty validators can hold, a quorum
/// holds at least that much itself, and the validators together make one.
pub proof fn quorums_share_an_honest_validator(total: nat, a: nat, b: nat)
    requires
        quorum_of(total) <= a <= total,
        quorum_of(total) <= b <= total,
    ensures
        a + b - total >= honesty_of(total),
        a >= honesty_of(total),
{
}

/// A faulty share of at most a third reaches neither threshold, and without
/// it a quorum still stands.
pub proof fn a_third_is_harmless(total: nat, faulty: nat)
    requires
        total > 0,
        faulty <= total / 3,
    ensures
        faulty < honesty_of(total),
        faulty < quorum_of(total),
        3 * faulty < total ==> total - faulty >= quorum_of(total),
{
}

} // verus!
