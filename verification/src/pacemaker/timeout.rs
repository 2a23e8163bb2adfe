//! How long a view may last.

use vstd::prelude::*;

verus! {

/// A duration in milliseconds.
pub type Millis = u64;

/// Maps the number of views that failed in a row to the length of the next
/// view timer.
pub trait TimeoutPolicy {
    /// The timer after `failures` failed views.
    closed spec fn duration(&self, failures: u32) -> Millis {
        arbitrary()
    }

    fn timeout(&self, failures: u32) -> (r: Millis)
        ensures
            r == self.duration(failures),
    ;
}

/// `base` doubled `failures` times, but no more than `max`.
pub open spec fn backoff(base: nat, max: nat, failures: nat) -> nat
    decreases failures,
{
    if base >= max {
        max
    } else if failures == 0 {
        base
    } else {
        backoff(2 * base, max, (failures - 1) as nat)
    }
}

/// The timer doubles with every failed view until it reaches a ceiling.
#[derive(Clone, Copy, Debug)]
pub struct ExponentialBackoff {
    pub base: Millis,
    pub max: Millis,
}

impl ExponentialBackoff {
    pub fn new(base: Millis, max: Millis) -> (r: ExponentialBackoff)
        ensures
            r.base == base,
            r.max == max,
    {
        ExponentialBackoff { base, max }
    }
}

impl TimeoutPolicy for ExponentialBackoff {
    open spec fn duration(&self, failures: u32) -> Millis {
        backoff(self.base as nat, self.max as nat, failures as nat) as Millis
    }

    fn timeout(&self, failures: u32) -> (r: Millis) {
        let mut current: Millis = self.base;
        let mut left: u32 = failures;
        while current < self.max && left > 0
            invariant
                backoff(self.base as nat, self.max as nat, failures as nat) == backoff(
                    current as nat,
                    self.max as nat,
                    left as nat,
                ),
            decreases left,
        {
            if current > self.max - current {
                assert(backoff(current as nat, self.max as nat, left as nat) == self.max) by {
                    assert(backoff((2 * current) as nat, self.max as nat, (left - 1) as nat) == self.max);
                }
                return self.max;
            }
            current = 2 * current;
            left = left - 1;
        }
        if current < self.max {
            current
        } else {
            self.max
        }
    }
}

/// The ceiling holds, and one more failure never shortens the timer.
pub proof fn backoff_grows_to_its_ceiling(base: nat, max: nat, failures: nat)
    ensures
        backoff(base, max, failures) <= max,
        backoff(base, max, failures) <= backoff(base, max, failures + 1),
        base <= max ==> base <= backoff(base, max, failures),
    decreases failures,
{
    if base < max {
        if failures > 0 {
            backoff_grows_to_its_ceiling(2 * base, max, (failures - 1) as nat);
        } else {
            reveal_with_fuel(backoff, 3);
        }
    }
}

} // verus!
