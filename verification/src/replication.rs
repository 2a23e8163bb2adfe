//! What the node needs of the replicated application.

use vstd::prelude::*;

use crate::bytes::Bytes32;

verus! {

/// A command was rejected; the state is as it was.
#[derive(Clone, Copy, Debug, PartialEq, Eq, Structural)]
pub struct CommandError;

/// A snapshot could not be restored, and why.
#[derive(Debug, PartialEq, Eq)]
pub struct RestoreError {
    pub reason: String,
}

/// The replicated application: a deterministic state machine.
///
/// Its state is described by a model of the implementer's choice. A command
/// leads from one model to the next or is rejected, and then nothing
/// changes. Two states with one model have one commitment.
pub trait StateMachine {
    /// What the state is, as a mathematical value.
    type Model;

    closed spec fn model(&self) -> Self::Model {
        arbitrary()
    }

    /// The state after a command, or none where the command is rejected.
    closed spec fn next(m: Self::Model, command: Seq<u8>) -> Option<Self::Model> {
        arbitrary()
    }

    /// The commitment to a state.
    closed spec fn commitment_to(m: Self::Model) -> Bytes32 {
        arbitrary()
    }

    /// The state that a snapshot stands for, if it stands for one.
    closed spec fn stands_for(snapshot: Seq<u8>) -> Option<Self::Model> {
        arbitrary()
    }

    /// Every snapshot that stands for a state can be restored.
    closed spec fn restores_all() -> bool {
        false
    }

    fn apply(&mut self, command: &[u8]) -> (r: Result<Vec<u8>, CommandError>)
        ensures
            match Self::next(old(self).model(), command@) {
                Some(m) => r is Ok && final(self).model() == m,
                None => r is Err && final(self).model() == old(self).model(),
            },
    ;

    fn state_commitment(&self) -> (r: Bytes32)
        ensures
            r == Self::commitment_to(self.model()),
    ;

    fn snapshot(&self) -> (r: Vec<u8>)
        ensures
            Self::stands_for(r@) == Some(self.model()),
    ;

    /// Replaces the state by what the snapshot stands for. Whether that
    /// works out is up to the implementation, unless it restores all
    /// snapshots.
    fn restore(&mut self, snapshot: &[u8]) -> (r: Result<(), RestoreError>)
        ensures
            r is Ok ==> Self::stands_for(snapshot@) == Some(final(self).model()),
            Self::restores_all() && Self::stands_for(snapshot@) is Some ==> r is Ok,
    ;
}

/// The state after a list of commands; rejected ones change nothing.
pub open spec fn run_commands<S: StateMachine>(m: S::Model, commands: Seq<Seq<u8>>) -> S::Model
    decreases commands.len(),
{
    if commands.len() == 0 {
        m
    } else {
        let p = run_commands::<S>(m, commands.drop_last());
        match S::next(p, commands.last()) {
            Some(q) => q,
            None => p,
        }
    }
}

/// How many commands of the list are rejected.
pub open spec fn rejected_count<S: StateMachine>(m: S::Model, commands: Seq<Seq<u8>>) -> nat
    decreases commands.len(),
{
    if commands.len() == 0 {
        0
    } else {
        let p = run_commands::<S>(m, commands.drop_last());
        rejected_count::<S>(m, commands.drop_last()) + (if S::next(p, commands.last()) is None {
            1nat
        } else {
            0nat
        })
    }
}

/// Running two lists one after the other is running their concatenation.
pub proof fn lemma_run_concat<S: StateMachine>(m: S::Model, a: Seq<Seq<u8>>, b: Seq<Seq<u8>>)
    ensures
        run_commands::<S>(m, a + b) == run_commands::<S>(run_commands::<S>(m, a), b),
        rejected_count::<S>(m, a + b) == rejected_count::<S>(m, a) + rejected_count::<S>(
            run_commands::<S>(m, a),
            b,
        ),
    decreases b.len(),
{
    if b.len() == 0 {
        assert(a + b =~= a);
    } else {
        assert((a + b).drop_last() =~= a + b.drop_last());
        assert((a + b).last() == b.last());
        lemma_run_concat::<S>(m, a, b.drop_last());
    }
}

/// Applies a list of commands in order; rejected ones are skipped. Says how
/// many were rejected.
pub fn apply_all<S: StateMachine>(sm: &mut S, commands: &Vec<Vec<u8>>) -> (rejected: usize)
    ensures
        final(sm).model() == run_commands::<S>(old(sm).model(), crate::bytes::payloads(commands@)),
        rejected == rejected_count::<S>(old(sm).model(), crate::bytes::payloads(commands@)),
        rejected <= commands@.len(),
{
    let ghost all = crate::bytes::payloads(commands@);
    let ghost m0 = sm.model();
    let mut rejected: usize = 0;
    let mut i: usize = 0;
    assert(all.take(0) =~= seq![]);
    while i < commands.len()
        invariant
            i <= commands.len(),
            rejected <= i,
            all == crate::bytes::payloads(commands@),
            sm.model() == run_commands::<S>(m0, all.take(i as int)),
            rejected == rejected_count::<S>(m0, all.take(i as int)),
        decreases commands.len() - i,
    {
        proof {
            assert(all.take(i + 1).drop_last() =~= all.take(i as int));
            assert(all.take(i + 1).last() == commands@[i as int]@);
        }
        match sm.apply(commands[i].as_slice()) {
            Ok(_) => {},
            Err(_) => {
                rejected = rejected + 1;
            },
        }
        i = i + 1;
    }
    assert(all.take(i as int) =~= all);
    rejected
}

} // verus!
