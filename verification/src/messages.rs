//! The messages of the protocol.

use vstd::prelude::*;

use crate::pacemaker::state_machine::Event;
use crate::types::{Block, BlockHash, QuorumCertificate};
use crate::validator_set::NodeId;

verus! {

/// A payload, who signed it and the signature.
#[derive(Debug, PartialEq, Eq)]
pub struct Signed<T> {
    pub payload: T,
    pub signer: NodeId,
    pub sig: [u8; 64],
}

/// A block that a leader puts forward, and the certificate over its parent.
#[derive(Debug, PartialEq, Eq)]
pub struct Proposal {
    pub block: Block,
    pub justify: QuorumCertificate,
}

/// A vote for a block.
#[derive(Clone, Copy, Debug, PartialEq, Eq)]
pub struct Vote {
    pub view: u64,
    pub block_hash: BlockHash,
}

/// The freshest certificate that a replica knows of.
#[derive(Debug, PartialEq, Eq)]
pub struct NewView {
    pub high_qc: QuorumCertificate,
}

/// What the safety rules have a replica say.
#[derive(Debug, PartialEq, Eq)]
pub enum ConsensusMsg {
    Proposal(Proposal),
    Vote(Vote),
    NewView(NewView),
}

/// What the safety rules react to. Signatures have been verified.
#[derive(Debug, PartialEq, Eq)]
pub enum SafetyEvent {
    ProposalReceived(Signed<Proposal>),
    VoteReceived(Signed<Vote>),
    NewViewReceived(Signed<NewView>),
    PacemakerAdvance(u64),
}

/// A short, stable tag of a message for logs.
pub fn msg_kind(msg: &ConsensusMsg) -> (r: &'static str)
    ensures
        r@ == match *msg {
            ConsensusMsg::Proposal(_) => "Proposal"@,
            ConsensusMsg::Vote(_) => "Vote"@,
            ConsensusMsg::NewView(_) => "NewView"@,
        },
{
    match msg {
        ConsensusMsg::Proposal(_) => "Proposal",
        ConsensusMsg::Vote(_) => "Vote",
        ConsensusMsg::NewView(_) => "NewView",
    }
}

/// A short, stable tag of a pacemaker event for logs.
pub fn pacemaker_event_kind(ev: &Event) -> (r: &'static str)
    ensures
        r@ == match *ev {
            Event::OnQc(_) => "OnQc"@,
            Event::OnTimeoutCert(_) => "OnTimeoutCert"@,
            Event::OnTimeout(_) => "OnTimeout"@,
            Event::OnProposalReceived(_) => "OnProposalReceived"@,
            Event::OnRoundSync { .. } => "OnRoundSync"@,
        },
{
    match ev {
        Event::OnQc(_) => "OnQc",
        Event::OnTimeoutCert(_) => "OnTimeoutCert",
        Event::OnTimeout(_) => "OnTimeout",
        Event::OnProposalReceived(_) => "OnProposalReceived",
        Event::OnRoundSync { .. } => "OnRoundSync",
    }
}

} // verus!
