//! Which frames from peers are looked at.

use vstd::prelude::*;

verus! {

/// How many kinds of messages there are.
pub const KINDS: u8 = 10;

/// The kinds of messages on the wire, in the order of their tags.
#[derive(Clone, Copy, Debug, PartialEq, Eq, Structural)]
pub enum MessageKind {
    Proposal,
    Vote,
    NewView,
    TimeoutVote,
    BlockRequest,
    BlockResponse,
    SnapshotManifestRequest,
    SnapshotManifestResponse,
    SnapshotChunkRequest,
    SnapshotChunkResponse,
}

impl MessageKind {
    /// The first byte of every message of this kind.
    pub open spec fn tag(self) -> u8 {
        match self {
            MessageKind::Proposal => 0,
            MessageKind::Vote => 1,
            MessageKind::NewView => 2,
            MessageKind::TimeoutVote => 3,
            MessageKind::BlockRequest => 4,
            MessageKind::BlockResponse => 5,
            MessageKind::SnapshotManifestRequest => 6,
            MessageKind::SnapshotManifestResponse => 7,
            MessageKind::SnapshotChunkRequest => 8,
            MessageKind::SnapshotChunkResponse => 9,
        }
    }

    /// The first byte of every message of this kind.
    pub fn wire_tag(self) -> (r: u8)
        ensures
            r == self.tag(),
    {
        match self {
            MessageKind::Proposal => 0,
            MessageKind::Vote => 1,
            MessageKind::NewView => 2,
            MessageKind::TimeoutVote => 3,
            MessageKind::BlockRequest => 4,
            MessageKind::BlockResponse => 5,
            MessageKind::SnapshotManifestRequest => 6,
            MessageKind::SnapshotManifestResponse => 7,
            MessageKind::SnapshotChunkRequest => 8,
            MessageKind::SnapshotChunkResponse => 9,
        }
    }

    /// The kind of a message by its first byte.
    pub fn from_wire_tag(tag: u8) -> (r: Option<MessageKind>)
        ensures
            r matches Some(k) ==> k.tag() == tag,
            r is Some <==> tag < KINDS,
    {
        match tag {
            0 => Some(MessageKind::Proposal),
            1 => Some(MessageKind::Vote),
            2 => Some(MessageKind::NewView),
            3 => Some(MessageKind::TimeoutVote),
            4 => Some(MessageKind::BlockRequest),
            5 => Some(MessageKind::BlockResponse),
            6 => Some(MessageKind::SnapshotManifestRequest),
            7 => Some(MessageKind::SnapshotManifestResponse),
            8 => Some(MessageKind::SnapshotChunkRequest),
            9 => Some(MessageKind::SnapshotChunkResponse),
            _ => None,
        }
    }
}

/// What a rate limiter says of a frame.
#[derive(Clone, Copy, Debug, PartialEq, Eq, Structural)]
pub enum Decision {
    Allow,
    Drop,
    Disconnect,
}

/// What happens to a frame.
#[derive(Clone, Copy, Debug, PartialEq, Eq, Structural)]
pub enum Admission {
    Dispatch,
    Drop,
    /// Drop it and the peer with it.
    Disconnect,
}

/// The kind of message about which the rate limiter has to be asked. It is
/// not asked where there is none, nor of frames that cannot be decoded: those
/// are let through, so that their decoding fails in plain sight.
pub fn limiter_query(has_limiter: bool, payload: &[u8]) -> (r: Option<MessageKind>)
    ensures
        !has_limiter || payload@.len() == 0 ==> r is None,
        has_limiter && payload@.len() > 0 ==> {
            &&& r is Some <==> payload@[0] < KINDS
            &&& r matches Some(k) ==> k.tag() == payload@[0]
        },
{
    if !has_limiter || payload.len() == 0 {
        return None;
    }
    MessageKind::from_wire_tag(payload[0])
}

/// What happens to a frame, by the answer of the rate limiter; without a
/// question there is no answer.
pub fn admit_inbound(answer: Option<Decision>) -> (r: Admission)
    ensures
        r == match answer {
            None | Some(Decision::Allow) => Admission::Dispatch,
            Some(Decision::Drop) => Admission::Drop,
            Some(Decision::Disconnect) => Admission::Disconnect,
        },
{
    match answer {
        None => Admission::Dispatch,
        Some(Decision::Allow) => Admission::Dispatch,
        Some(Decision::Drop) => Admission::Drop,
        Some(Decision::Disconnect) => Admission::Disconnect,
    }
}

/// Every kind has a tag of its own.
pub proof fn tags_tell_kinds_apart(a: MessageKind, b: MessageKind)
    ensures
        a.tag() < KINDS,
        a.tag() == b.tag() ==> a == b,
{
}

} // verus!
