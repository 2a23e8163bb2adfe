//! What can go wrong in the node.

use vstd::prelude::*;

use crate::codec::Record;
use crate::decimal::{decimal, decimal_string};

verus! {

/// Why a node operation failed.
#[derive(Clone, Copy, Debug, PartialEq, Eq, Structural)]
pub enum NodeError {
    /// The store refused to read a record.
    Read(Record),
    /// The store refused to write a record.
    Write(Record),
    /// The stored bytes of a record are not its encoding.
    Corrupt(Record),
    /// The application refused a snapshot.
    RestoreFailed,
    /// The restored state is not the one that the snapshot was taken of.
    CommitmentMismatch,
    /// A committee of the snapshot would take effect before one that the
    /// safety state knows.
    BoundaryRefused { v_eff: u64 },
}

impl NodeError {
    /// The text of the error: what failed, and on which record.
    pub open spec fn text(self) -> Seq<char> {
        match self {
            NodeError::Read(x) => "read from storage: "@ + x.label(),
            NodeError::Write(x) => "write to storage: "@ + x.label(),
            NodeError::Corrupt(x) => "decode "@ + x.label(),
            NodeError::RestoreFailed => "state_machine.restore failed"@,
            NodeError::CommitmentMismatch => "restored state does not match the snapshot"@,
            NodeError::BoundaryRefused { v_eff } => "replay validator boundary at v_eff = "@ + decimal(v_eff as nat),
        }
    }

    /// What the operator gets to read.
    pub fn message(&self) -> (r: String)
        ensures
            r@ == self.text(),
    {
        match self {
            NodeError::Read(x) => joined("read from storage: ", x.name()),
            NodeError::Write(x) => joined("write to storage: ", x.name()),
            NodeError::Corrupt(x) => joined("decode ", x.name()),
            NodeError::RestoreFailed => String::from_str("state_machine.restore failed"),
            NodeError::CommitmentMismatch => String::from_str("restored state does not match the snapshot"),
            NodeError::BoundaryRefused { v_eff } => joined(
                "replay validator boundary at v_eff = ",
                decimal_string(*v_eff).as_str(),
            ),
        }
    }
}

/// Two pieces of text, one after the other.
pub fn joined(a: &str, b: &str) -> (r: String)
    ensures
        r@ == a@ + b@,
{
    let mut s = String::from_str(a);
    s.append(b);
    s
}

} // verus!
