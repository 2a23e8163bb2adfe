//! The messages in the log that operators filter by.

use vstd::prelude::*;

use crate::node::actions::StepSummary;

verus! {

/// A point in the life of the node that the log marks with a fixed message.
#[derive(Clone, Copy, Debug, PartialEq, Eq, Structural)]
pub enum TraceMessage {
    /// The pacemaker was given an event.
    PacemakerEvent,
    /// An action of the pacemaker is carried out.
    PacemakerAction,
    /// The node has moved to a new view.
    ViewAdvanced,
    /// A message goes out to everyone.
    OutboundBroadcast,
    NewViewReceived,
    ProposalReceived,
    VoteReceived,
    /// A batch of updates is durable.
    Persisted,
}

impl TraceMessage {
    pub open spec fn text(self) -> Seq<char> {
        match self {
            TraceMessage::PacemakerEvent => "pacemaker_event"@,
            TraceMessage::PacemakerAction => "pacemaker_action"@,
            TraceMessage::ViewAdvanced => "view_advanced"@,
            TraceMessage::OutboundBroadcast => "outbound_broadcast"@,
            TraceMessage::NewViewReceived => "new_view_received"@,
            TraceMessage::ProposalReceived => "proposal_received"@,
            TraceMessage::VoteReceived => "vote_received"@,
            TraceMessage::Persisted => "persisted"@,
        }
    }

    /// The message, as it stands in the log.
    pub fn name(self) -> (r: &'static str)
        ensures
            r@ == self.text(),
    {
        match self {
            TraceMessage::PacemakerEvent => "pacemaker_event",
            TraceMessage::PacemakerAction => "pacemaker_action",
            TraceMessage::ViewAdvanced => "view_advanced",
            TraceMessage::OutboundBroadcast => "outbound_broadcast",
            TraceMessage::NewViewReceived => "new_view_received",
            TraceMessage::ProposalReceived => "proposal_received",
            TraceMessage::VoteReceived => "vote_received",
            TraceMessage::Persisted => "persisted",
        }
    }

    /// The message that goes with the summary of a step of the safety rules,
    /// if it is worth one.
    pub fn of_step(summary: &StepSummary) -> (r: Option<TraceMessage>)
        ensures
            r == match *summary {
                StepSummary::Proposal { .. } => Some(TraceMessage::ProposalReceived),
                StepSummary::Vote { .. } => Some(TraceMessage::VoteReceived),
                StepSummary::NewView { .. } => Some(TraceMessage::NewViewReceived),
                StepSummary::Silent => None,
            },
    {
        match summary {
            StepSummary::Proposal { .. } => Some(TraceMessage::ProposalReceived),
            StepSummary::Vote { .. } => Some(TraceMessage::VoteReceived),
            StepSummary::NewView { .. } => Some(TraceMessage::NewViewReceived),
            StepSummary::Silent => None,
        }
    }
}

} // verus!
