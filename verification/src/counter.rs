//! The simplest application: a counter.

use vstd::bytes::{spec_u64_to_le_bytes, u64_to_le_bytes};
use vstd::prelude::*;

use crate::bytes::Bytes32;
use crate::codec::{array_of, decode_voted_view, encode_voted_view, lemma_array_of, stored_view_reads_back};
use crate::replication::{CommandError, RestoreError, StateMachine};
use crate::trusted::take_varint;

verus! {

/// A counter. A command of a single zero byte takes it up by one, a single
/// one byte takes it down; a counter never goes below zero.
#[derive(Debug)]
pub struct CounterStateMachine {
    value: u64,
}

/// What the counters understand.
#[derive(Clone, Copy, Debug, PartialEq, Eq, Structural)]
pub enum CounterCommand {
    Increment,
    Decrement,
}

impl CounterCommand {
    /// The command in bytes.
    pub fn encode(self) -> (r: Vec<u8>)
        ensures
            r@ == seq![
                match self {
                    CounterCommand::Increment => 0u8,
                    CounterCommand::Decrement => 1u8,
                },
            ],
    {
        let mut v: Vec<u8> = Vec::new();
        match self {
            CounterCommand::Increment => v.push(0),
            CounterCommand::Decrement => v.push(1),
        }
        assert(v@ =~= seq![
            match self {
                CounterCommand::Increment => 0u8,
                CounterCommand::Decrement => 1u8,
            },
        ]);
        v
    }
}

/// The commitment to a value: its bytes, least significant first, and zeros.
pub open spec fn value_digest(v: u64) -> Seq<u8> {
    spec_u64_to_le_bytes(v) + Seq::new(24, |i: int| 0u8)
}

impl CounterStateMachine {
    pub closed spec fn count(&self) -> u64 {
        self.value
    }

    pub fn new() -> (r: CounterStateMachine)
        ensures
            r.count() == 0,
    {
        CounterStateMachine { value: 0 }
    }

    pub fn value(&self) -> (r: u64)
        ensures
            r == self.count(),
    {
        self.value
    }
}

impl StateMachine for CounterStateMachine {
    type Model = u64;

    open spec fn model(&self) -> u64 {
        self.count()
    }

    open spec fn next(m: u64, command: Seq<u8>) -> Option<u64> {
        if command == seq![0u8] && m < u64::MAX {
            Some((m + 1) as u64)
        } else if command == seq![1u8] && m > 0 {
            Some((m - 1) as u64)
        } else {
            None
        }
    }

    open spec fn commitment_to(m: u64) -> Bytes32 {
        array_of(value_digest(m))
    }

    open spec fn stands_for(snapshot: Seq<u8>) -> Option<u64> {
        match take_varint(snapshot) {
            Some((v, _)) => Some(v as u64),
            None => None,
        }
    }

    open spec fn restores_all() -> bool {
        true
    }

    fn apply(&mut self, command: &[u8]) -> (r: Result<Vec<u8>, CommandError>) {
        if command.len() != 1 {
            assert(command@ != seq![0u8] && command@ != seq![1u8]) by {
                assert(command@.len() != 1);
                assert(seq![0u8].len() == 1 && seq![1u8].len() == 1);
            }
            return Err(CommandError);
        }
        assert(command@ =~= seq![command@[0]]);
        if command[0] == 0 && self.value < u64::MAX {
            self.value = self.value + 1;
            return Ok(Vec::new());
        }
        if command[0] == 1 && self.value > 0 {
            assert(seq![1u8][0] != seq![0u8][0]);
            self.value = self.value - 1;
            return Ok(Vec::new());
        }
        proof {
            if command@ == seq![0u8] {
                assert(command@[0] == 0);
            }
            if command@ == seq![1u8] {
                assert(command@[0] == 1);
            }
        }
        Err(CommandError)
    }

    fn state_commitment(&self) -> (r: Bytes32) {
        let bytes = u64_to_le_bytes(self.value);
        let mut a: Bytes32 = [0u8; 32];
        let mut i: usize = 0;
        while i < 8
            invariant
                i <= 8,
                bytes@ == spec_u64_to_le_bytes(self.value),
                bytes@.len() == 8,
                forall|k: int| 0 <= k < i ==> a@[k] == bytes@[k],
                forall|k: int| i <= k < 32 ==> a@[k] == 0,
            decreases 8 - i,
        {
            a[i] = bytes[i];
            i = i + 1;
        }
        proof {
            assert(a@ =~= value_digest(self.value));
            lemma_array_of(a);
        }
        a
    }

    fn snapshot(&self) -> (r: Vec<u8>) {
        proof {
            stored_view_reads_back(self.value);
        }
        match encode_voted_view(self.value) {
            Ok(bytes) => bytes,
            Err(_) => Vec::new(),
        }
    }

    fn restore(&mut self, snapshot: &[u8]) -> (r: Result<(), RestoreError>) {
        match decode_voted_view(snapshot) {
            Ok(v) => {
                self.value = v;
                Ok(())
            },
            Err(_) => Err(RestoreError { reason: String::from_str("not a counter") }),
        }
    }
}

/// One command takes the counter up by one and another takes it down again;
/// nothing else moves it, and it never goes below zero or past its range.
pub proof fn a_counter_goes_up_and_down(m: u64, command: Seq<u8>)
    ensures
        ({
            let up = <CounterStateMachine as StateMachine>::next(m, seq![0u8]);
            let down = <CounterStateMachine as StateMachine>::next(m, seq![1u8]);
            let other = <CounterStateMachine as StateMachine>::next(m, command);
            &&& m < u64::MAX ==> up == Some((m + 1) as u64)
            &&& m == u64::MAX ==> up is None
            &&& m > 0 ==> down == Some((m - 1) as u64)
            &&& m == 0 ==> down is None
            &&& other is Some ==> command.len() == 1 && command[0] <= 1
        }),
{
    assert(seq![0u8][0] != seq![1u8][0]);
    if command == seq![0u8] || command == seq![1u8] {
        assert(command.len() == 1);
    }
}

} // verus!
