//! Moving through the views: the pacemaker, timeout votes and the start of
//! the run loop.

use vstd::prelude::*;

use crate::bytes::{copy_bytes, same};
use crate::codec::{
    decode_timeout_vote, enc_timeout_vote, encodable_qc, encode_timeout_vote, parse_timeout_vote,
    stored_timeout_vote_reads_back, Record,
};
use crate::key_history::owner;
use crate::node::consensus_node::{CacheEvictionCounters, ConsensusNode, NodeView};
use crate::node::error::NodeError;
use crate::node::timeouts::{
    after_vote, bucket_at, contains_id, crosses, fresher, vote_evicts, weight_plus, with_room, Counted, Thresholds,
};
use crate::pacemaker::state_machine::{
    advance_target, next_state, step_actions, Action, Event, HonestyThresholdEvidence,
};
use crate::pacemaker::timeout::Millis;
use crate::quorum::{honesty_of, honesty_weight_threshold, quorum_of, quorum_weight_threshold};
use crate::storage::{apply_writes, key_bytes, lookup, writes_view, Storage, Write, STORAGE_KEY_LAST_TIMEOUT_VOTE};
use crate::types::{copy_opt_qc, QcView, QuorumCertificate, TimeoutVote, TimeoutVoteView};
use crate::validator_set::{has_member, weight_at, weight_sum, NodeId, ValidatorId};

verus! {

/// What the driver does about an action of the pacemaker.
#[derive(Clone, Copy, Debug, PartialEq, Eq, Structural)]
pub enum PacemakerEffect {
    /// Tell the safety rules that the view has come.
    AdvanceSafety(u64),
    /// Have the safety rules propose in the view.
    Propose(u64),
    /// Arm the timer, to report the view when it runs out.
    ArmTimer { view: u64, after: Millis },
    /// Send a timeout vote for the view.
    SendTimeout(u64),
}

/// The view that a restarted node resumes from: whatever it voted for or saw
/// certified is behind it.
pub open spec fn boot_view(n: NodeView) -> u64 {
    let certified: u64 = match n.state.high_qc {
        Some(qc) => qc.view,
        None => 0,
    };
    if certified > n.state.last_voted_view {
        certified
    } else {
        n.state.last_voted_view
    }
}

impl ConsensusNode {
    /// Hands an event to the pacemaker.
    pub fn step_pacemaker(&mut self, ev: Event) -> (r: Vec<Action>)
        requires
            old(self).wf(),
            advance_target(old(self)@.pacemaker, ev) matches Some((view, _)) ==> view <= u64::MAX,
        ensures
            final(self).wf(),
            final(self)@ == (NodeView { pacemaker: next_state(old(self)@.pacemaker, ev), ..old(self)@ }),
            r@ == step_actions(&old(self).pacemaker, ev),
    {
        self.pacemaker.step(ev)
    }

    /// What to do about an action of the pacemaker. The timer is armed for
    /// the view that is current when it is armed.
    pub fn pacemaker_effect(&self, action: Action) -> (r: PacemakerEffect)
        ensures
            r == match action {
                Action::AdvanceToView { view, .. } => PacemakerEffect::AdvanceSafety(view),
                Action::BecomeLeader(view) => PacemakerEffect::Propose(view),
                Action::ResetTimer(after) => PacemakerEffect::ArmTimer { view: self@.pacemaker.current_view, after },
                Action::SendTimeout(view) => PacemakerEffect::SendTimeout(view),
            },
    {
        match action {
            Action::AdvanceToView { view, .. } => PacemakerEffect::AdvanceSafety(view),
            Action::BecomeLeader(view) => PacemakerEffect::Propose(view),
            Action::ResetTimer(after) => PacemakerEffect::ArmTimer { view: self.pacemaker.current_view(), after },
            Action::SendTimeout(view) => PacemakerEffect::SendTimeout(view),
        }
    }

    /// The event that sets a node in motion: the highest view that it voted
    /// in or has a certificate for is over.
    pub fn boot_event(&self) -> (r: Event)
        ensures
            r == Event::OnQc(boot_view(self@)),
    {
        let certified: u64 = match &self.state.high_qc {
            Some(qc) => qc.view,
            None => 0,
        };
        if certified > self.state.last_voted_view {
            Event::OnQc(certified)
        } else {
            Event::OnQc(self.state.last_voted_view)
        }
    }

    /// The peers that are connected when the run loop starts, each once.
    pub fn set_peers(&mut self, peers: &Vec<NodeId>)
        requires
            old(self).wf(),
        ensures
            final(self).wf(),
            final(self)@ == (NodeView { peers_connected: final(self)@.peers_connected, ..old(self)@ }),
            forall|p: NodeId| final(self)@.peers_connected.contains(p) <==> peers@.contains(p),
    {
        let ghost before = self@;
        self.peers_connected = Vec::new();
        let mut i: usize = 0;
        while i < peers.len()
            invariant
                i <= peers.len(),
                self.wf(),
                self@ == (NodeView { peers_connected: self@.peers_connected, ..before }),
                forall|p: NodeId| self@.peers_connected.contains(p) <==> peers@.take(i as int).contains(p),
            decreases peers.len() - i,
        {
            self.peer_connected(peers[i]);
            proof {
                assert(peers@.take(i + 1) =~= peers@.take(i as int).push(peers@[i as int]));
                assert forall|p: NodeId| peers@.take(i + 1).contains(p) <==> (peers@.take(i as int).contains(p) || p
                    == peers@[i as int]) by {
                    lemma_push_contains(peers@.take(i as int), peers@[i as int], p);
                }
            }
            i = i + 1;
        }
        assert(peers@.take(i as int) =~= peers@);
    }

    /// A peer has connected.
    pub fn peer_connected(&mut self, peer: NodeId)
        requires
            old(self).wf(),
        ensures
            final(self).wf(),
            final(self)@ == (NodeView {
                peers_connected: if old(self)@.peers_connected.contains(peer) {
                    old(self)@.peers_connected
                } else {
                    old(self)@.peers_connected.push(peer)
                },
                ..old(self)@
            }),
            forall|p: NodeId|
                final(self)@.peers_connected.contains(p) <==> old(self)@.peers_connected.contains(p) || p == peer,
    {
        let ghost s = self@.peers_connected;
        if !contains_id(&self.peers_connected, &peer) {
            self.peers_connected.push(peer);
        }
        proof {
            assert forall|p: NodeId| self@.peers_connected.contains(p) <==> s.contains(p) || p == peer by {
                lemma_push_contains(s, peer, p);
            }
        }
    }

    /// A peer has gone.
    pub fn peer_disconnected(&mut self, peer: &NodeId)
        requires
            old(self).wf(),
        ensures
            final(self).wf(),
            final(self)@ == (NodeView { peers_connected: final(self)@.peers_connected, ..old(self)@ }),
            forall|p: NodeId|
                final(self)@.peers_connected.contains(p) <==> old(self)@.peers_connected.contains(p) && p != *peer,
    {
        let ghost s = self@.peers_connected;
        let ghost before = self@;
        let mut kept: Vec<NodeId> = Vec::new();
        let mut i: usize = 0;
        while i < self.peers_connected.len()
            invariant
                i <= self.peers_connected.len(),
                s == self.peers_connected@,
                s.no_duplicates(),
                kept@.no_duplicates(),
                forall|p: NodeId| kept@.contains(p) <==> s.take(i as int).contains(p) && p != *peer,
            decreases self.peers_connected.len() - i,
        {
            let ghost had = kept@;
            let p = self.peers_connected[i];
            if !same(&p, peer) {
                kept.push(p);
            }
            proof {
                assert(s.take(i + 1) =~= s.take(i as int).push(p));
                assert(!had.contains(p)) by {
                    assert(!s.take(i as int).contains(p));
                }
                assert forall|q: NodeId| kept@.contains(q) <==> s.take(i + 1).contains(q) && q != *peer by {
                    lemma_push_contains(s.take(i as int), p, q);
                    lemma_push_contains(had, p, q);
                }
            }
            i = i + 1;
        }
        assert(s.take(i as int) =~= s);
        self.peers_connected = kept;
    }
}

proof fn lemma_push_contains<A>(s: Seq<A>, x: A, y: A)
    ensures
        s.push(x).contains(y) <==> s.contains(y) || y == x,
{
    if s.contains(y) {
        let i = choose|i: int| 0 <= i < s.len() && s[i] == y;
        assert(s.push(x)[i] == y);
    }
    assert(s.push(x)[s.len() as int] == x);
}

// ---- timeout votes -------------------------------------------------------

/// What a timeout vote leads to, in order.
#[derive(Debug)]
pub enum TimeoutStep {
    /// The sender is behind: send it the freshest certificate.
    CatchUp { to: NodeId, high_qc: QuorumCertificate },
    /// Enough weight for one honest validator stands at the view.
    RoundSync { view: u64, evidence: HonestyThresholdEvidence },
    /// Feed the freshest certificate of the quorum to the safety rules.
    Adopt { high_qc: QuorumCertificate },
    /// Feed the timeout certificate to the pacemaker.
    TimeoutCert { view: u64 },
}

pub enum TimeoutStepView {
    CatchUp { to: NodeId, high_qc: QcView },
    RoundSync { view: u64, weight: u128 },
    Adopt { high_qc: QcView },
    TimeoutCert { view: u64 },
}

impl View for TimeoutStep {
    type V = TimeoutStepView;

    open spec fn view(&self) -> TimeoutStepView {
        match *self {
            TimeoutStep::CatchUp { to, high_qc } => TimeoutStepView::CatchUp { to, high_qc: high_qc@ },
            TimeoutStep::RoundSync { view, evidence } => TimeoutStepView::RoundSync { view, weight: evidence.weight() },
            TimeoutStep::Adopt { high_qc } => TimeoutStepView::Adopt { high_qc: high_qc@ },
            TimeoutStep::TimeoutCert { view } => TimeoutStepView::TimeoutCert { view },
        }
    }
}

pub open spec fn steps_view(s: Seq<TimeoutStep>) -> Seq<TimeoutStepView> {
    Seq::new(s.len(), |i: int| s[i]@)
}

/// The validator behind a key, if it sits on the committee.
pub open spec fn voter(n: NodeView, key: NodeId) -> Option<NodeId> {
    match owner(n.keys, key) {
        Some(i) => if has_member(n.validator_set, n.keys[i].0) {
            Some(n.keys[i].0)
        } else {
            None
        },
        None => None,
    }
}

/// What votes are counted against.
pub open spec fn thresholds(n: NodeView) -> Thresholds {
    Thresholds {
        honesty: honesty_of(weight_sum(n.validator_set)) as u128,
        quorum: quorum_of(weight_sum(n.validator_set)) as u128,
        capacity: n.timeout_buckets_capacity,
    }
}

/// The certificate of a vote, where it may be believed.
pub open spec fn believed(vote: TimeoutVoteView, trusted: bool) -> Option<QcView> {
    if trusted {
        vote.high_qc
    } else {
        None
    }
}

/// A counter of dropped timeout buckets, one up where a bucket left.
pub open spec fn bump_timeout(c: CacheEvictionCounters, evicted: bool) -> CacheEvictionCounters {
    if evicted {
        CacheEvictionCounters { timeout_buckets: c.timeout_buckets.wrapping_add(1), ..c }
    } else {
        c
    }
}

/// The node after a timeout vote: nothing changes unless a committee member
/// voted for the current or a later view.
pub open spec fn after_timeout_vote(n: NodeView, signer: NodeId, vote: TimeoutVoteView, trusted: bool) -> NodeView {
    match voter(n, signer) {
        Some(id) => if vote.view < n.pacemaker.current_view {
            n
        } else {
            NodeView {
                timeout_buckets: after_vote(
                    n.timeout_buckets,
                    vote.view,
                    signer,
                    weight_at(n.validator_set, id).unwrap() as u128,
                    believed(vote, trusted),
                    thresholds(n),
                ),
                eviction_counters: bump_timeout(
                    n.eviction_counters,
                    vote_evicts(n.timeout_buckets, vote.view, n.timeout_buckets_capacity),
                ),
                ..n
            }
        },
        None => n,
    }
}

/// What a timeout vote leads to. A vote for a view that is over is answered
/// with the freshest certificate. A vote that lifts the weight over the
/// honesty threshold calls for a round sync, and one that completes a quorum
/// for the certificate to be adopted and the view to be left.
pub open spec fn timeout_steps(n: NodeView, signer: NodeId, vote: TimeoutVoteView, trusted: bool) -> Seq<
    TimeoutStepView,
> {
    match voter(n, signer) {
        None => seq![],
        Some(id) => if vote.view < n.pacemaker.current_view {
            match n.state.high_qc {
                Some(qc) => seq![TimeoutStepView::CatchUp { to: signer, high_qc: qc }],
                None => seq![],
            }
        } else {
            let b = bucket_at(n.timeout_buckets, vote.view);
            let weight = weight_at(n.validator_set, id).unwrap() as u128;
            let sum = weight_plus(b.signer_weight, weight);
            let t = thresholds(n);
            let sync = if crosses(b, weight, t.honesty) {
                seq![TimeoutStepView::RoundSync { view: vote.view, weight: sum }]
            } else {
                seq![]
            };
            if b.signers.contains(signer) {
                seq![]
            } else if sum < t.quorum {
                sync
            } else {
                let adopt = match fresher(b.best_high_qc, believed(vote, trusted)) {
                    Some(qc) => seq![TimeoutStepView::Adopt { high_qc: qc }],
                    None => seq![],
                };
                sync + adopt + seq![TimeoutStepView::TimeoutCert { view: vote.view }]
            }
        },
    }
}

impl ConsensusNode {
    /// Counts the timeout vote that `signer` signed. `trusted` says whether
    /// the certificate in it has been verified; the vote counts either way.
    pub fn on_timeout_vote(&mut self, signer: NodeId, vote: TimeoutVote, trusted: bool) -> (r: Vec<TimeoutStep>)
        requires
            old(self).wf(),
        ensures
            final(self).wf(),
            final(self)@ == after_timeout_vote(old(self)@, signer, vote@, trusted),
            steps_view(r@) == timeout_steps(old(self)@, signer, vote@, trusted),
    {
        let ghost n = self@;
        let ghost vv = vote@;
        let mut steps: Vec<TimeoutStep> = Vec::new();
        assert(steps_view(steps@) =~= seq![]);
        let stable_id = match self.validator_key_history.validator_for(&signer) {
            Some(id) => id,
            None => {
                return steps;
            },
        };
        if !self.validator_set.contains(&stable_id) {
            return steps;
        }
        let view: u64 = vote.view;
        if view < self.pacemaker.current_view() {
            match &self.state.high_qc {
                Some(qc) => {
                    steps.push(TimeoutStep::CatchUp { to: signer, high_qc: qc.copy() });
                },
                None => {},
            }
            assert(steps_view(steps@) =~= timeout_steps(n, signer, vv, trusted));
            return steps;
        }
        let weight: u128 = match self.validator_set.weight_for(&stable_id) {
            Some(w) => w as u128,
            None => 0,
        };
        proof {
            crate::validator_set::lemma_weight_sum_bound(self.validator_set@);
        }
        let t = Thresholds {
            honesty: honesty_weight_threshold(&self.validator_set),
            quorum: quorum_weight_threshold(&self.validator_set),
            capacity: self.timeout_buckets_capacity,
        };
        let qc = if trusted {
            vote.high_qc
        } else {
            None
        };
        let (counted, evicted) = self.timeout_buckets.count(view, signer, weight, qc, t);
        if evicted {
            self.eviction_counters.timeout_buckets = self.eviction_counters.timeout_buckets.wrapping_add(1);
        }
        match counted {
            Counted::Duplicate => {},
            Counted::Pending { round_sync } => {
                if let Some(evidence) = round_sync {
                    steps.push(TimeoutStep::RoundSync { view, evidence });
                }
            },
            Counted::Certificate { round_sync, adopt } => {
                if let Some(evidence) = round_sync {
                    steps.push(TimeoutStep::RoundSync { view, evidence });
                }
                if let Some(high_qc) = adopt {
                    steps.push(TimeoutStep::Adopt { high_qc });
                }
                steps.push(TimeoutStep::TimeoutCert { view });
            },
        }
        assert(steps_view(steps@) =~= timeout_steps(n, signer, vv, trusted));
        steps
    }

    /// Makes room for the bucket of one more view: at capacity, the lowest
    /// view leaves and is counted.
    pub fn evict_timeout_buckets_to_fit_one(&mut self)
        requires
            old(self).wf(),
        ensures
            final(self).wf(),
            final(self)@ == (NodeView {
                timeout_buckets: with_room(
                    old(self)@.timeout_buckets,
                    old(self)@.timeout_buckets_capacity as nat,
                ),
                eviction_counters: bump_timeout(
                    old(self)@.eviction_counters,
                    old(self)@.timeout_buckets.len() >= old(self)@.timeout_buckets_capacity
                        && old(self)@.timeout_buckets.len() > 0,
                ),
                ..old(self)@
            }),
    {
        if self.timeout_buckets.evict_to_fit_one(self.timeout_buckets_capacity) {
            self.eviction_counters.timeout_buckets = self.eviction_counters.timeout_buckets.wrapping_add(1);
        }
    }

    /// The validator that signs with `key`. A key that nobody is known to
    /// have stands for itself.
    pub fn validator_behind(&self, key: NodeId) -> (r: ValidatorId)
        requires
            self.wf(),
        ensures
            r.id == match owner(self@.keys, key) {
                Some(i) => self@.keys[i].0,
                None => key,
            },
    {
        match self.validator_key_history.validator_for(&key) {
            Some(id) => id,
            None => ValidatorId::from_genesis_pubkey(key),
        }
    }

    /// The timeout vote for `view`. A vote for that view that was made
    /// before, in this run or an earlier one, is repeated; a new one is
    /// durable before it is returned.
    pub fn timeout_vote_for<S: Storage>(&self, storage: &mut S, view: u64) -> (r: Result<TimeoutVote, NodeError>)
        ensures
            match r {
                Ok(vote) => match timeout_decision(old(storage).contents(), view, self@.state.high_qc) {
                    TimeoutDecision::Replay(v) => vote@ == v && final(storage).contents() == old(
                        storage,
                    ).contents(),
                    TimeoutDecision::Fresh(v) => vote@ == v && final(storage).contents() == old(
                        storage,
                    ).contents().insert(key_bytes(STORAGE_KEY_LAST_TIMEOUT_VOTE), enc_timeout_vote(v)),
                    TimeoutDecision::Corrupt => false,
                },
                Err(e) => {
                    &&& final(storage).contents() == old(storage).contents()
                    &&& old(storage).steady() ==> e == NodeError::Corrupt(Record::TimeoutVote)
                    &&& match timeout_decision(old(storage).contents(), view, self@.state.high_qc) {
                        TimeoutDecision::Replay(_) => e == NodeError::Read(Record::TimeoutVote),
                        TimeoutDecision::Fresh(_) => e == NodeError::Read(Record::TimeoutVote) || e
                            == NodeError::Write(Record::TimeoutVote),
                        TimeoutDecision::Corrupt => e == NodeError::Read(Record::TimeoutVote) || e
                            == NodeError::Corrupt(Record::TimeoutVote),
                    }
                },
            },
    {
        let raw = match storage.get(STORAGE_KEY_LAST_TIMEOUT_VOTE.as_bytes()) {
            Ok(raw) => raw,
            Err(_) => {
                return Err(NodeError::Read(Record::TimeoutVote));
            },
        };
        if let Some(bytes) = raw {
            match decode_timeout_vote(bytes.as_slice()) {
                Ok(prev) => {
                    if prev.view == view {
                        return Ok(prev);
                    }
                },
                Err(_) => {
                    return Err(NodeError::Corrupt(Record::TimeoutVote));
                },
            }
        }
        self.persist_fresh_timeout_vote(storage, view)
    }

    /// Makes a timeout vote for `view` with the freshest certificate, and
    /// makes it durable.
    pub fn persist_fresh_timeout_vote<S: Storage>(&self, storage: &mut S, view: u64) -> (r: Result<
        TimeoutVote,
        NodeError,
    >)
        ensures
            match r {
                Ok(vote) => {
                    &&& vote@ == (TimeoutVoteView { view, high_qc: self@.state.high_qc })
                    &&& final(storage).contents() == old(storage).contents().insert(
                        key_bytes(STORAGE_KEY_LAST_TIMEOUT_VOTE),
                        enc_timeout_vote(vote@),
                    )
                },
                Err(e) => {
                    &&& e == NodeError::Write(Record::TimeoutVote)
                    &&& !old(storage).steady()
                    &&& final(storage).contents() == old(storage).contents()
                },
            },
    {
        let vote = TimeoutVote { view, high_qc: copy_opt_qc(&self.state.high_qc) };
        let value = match encode_timeout_vote(&vote) {
            Ok(bytes) => bytes,
            Err(_) => {
                return Err(NodeError::Write(Record::TimeoutVote));
            },
        };
        let mut writes: Vec<Write> = Vec::new();
        writes.push(Write { key: copy_bytes(STORAGE_KEY_LAST_TIMEOUT_VOTE.as_bytes()), value });
        proof {
            let w = (key_bytes(STORAGE_KEY_LAST_TIMEOUT_VOTE), enc_timeout_vote(vote@));
            assert(writes_view(writes@) =~= seq![w]);
            reveal_with_fuel(apply_writes, 2);
            assert(seq![w].drop_last() =~= seq![]);
        }
        match storage.batch(&writes) {
            Ok(_) => Ok(vote),
            Err(_) => Err(NodeError::Write(Record::TimeoutVote)),
        }
    }
}

/// What to send for a timeout, by what storage holds.
pub enum TimeoutDecision {
    /// What was sent before for this view.
    Replay(TimeoutVoteView),
    /// Something new.
    Fresh(TimeoutVoteView),
    /// The record cannot be read.
    Corrupt,
}

pub open spec fn timeout_decision(m: Map<Seq<u8>, Seq<u8>>, view: u64, high_qc: Option<QcView>) -> TimeoutDecision {
    match lookup(m, key_bytes(STORAGE_KEY_LAST_TIMEOUT_VOTE)) {
        None => TimeoutDecision::Fresh(TimeoutVoteView { view, high_qc }),
        Some(bytes) => match parse_timeout_vote(bytes) {
            None => TimeoutDecision::Corrupt,
            Some(prev) => if prev.view == view {
                TimeoutDecision::Replay(prev)
            } else {
                TimeoutDecision::Fresh(TimeoutVoteView { view, high_qc })
            },
        },
    }
}

// ---- laws ----------------------------------------------------------------

/// A replica says one thing per view when it gives up on it: once a timeout
/// vote for a view is durable, every later one for that view is the same,
/// whatever certificate the replica has come to know since.
pub proof fn a_timeout_is_never_contradicted(
    m: Map<Seq<u8>, Seq<u8>>,
    vote: TimeoutVoteView,
    later_qc: Option<QcView>,
)
    requires
        vote.high_qc matches Some(qc) ==> encodable_qc(qc),
    ensures
        timeout_decision(
            m.insert(key_bytes(STORAGE_KEY_LAST_TIMEOUT_VOTE), enc_timeout_vote(vote)),
            vote.view,
            later_qc,
        ) == TimeoutDecision::Replay(vote),
{
    stored_timeout_vote_reads_back(vote);
}

/// A node that starts lands in the view after the highest one that it voted
/// in or has a certificate for.
pub proof fn a_node_resumes_after_its_last_vote(n: NodeView)
    requires
        n.pacemaker.current_view <= boot_view(n) < u64::MAX,
    ensures
        next_state(n.pacemaker, Event::OnQc(boot_view(n))).current_view == boot_view(n) + 1,
        boot_view(n) >= n.state.last_voted_view,
        n.state.high_qc matches Some(qc) ==> boot_view(n) >= qc.view,
{
}

/// A vote with a certificate that was not verified changes nothing but the
/// count: the best certificate of its bucket stays what it was.
pub proof fn unverified_certificates_are_not_adopted(
    n: NodeView,
    signer: NodeId,
    vote: TimeoutVoteView,
    other: Option<QcView>,
)
    ensures
        after_timeout_vote(n, signer, vote, false) == after_timeout_vote(
            n,
            signer,
            TimeoutVoteView { high_qc: other, ..vote },
            false,
        ),
        timeout_steps(n, signer, vote, false) == timeout_steps(
            n,
            signer,
            TimeoutVoteView { high_qc: other, ..vote },
            false,
        ),
{
}

/// A timeout vote touches the buckets and their counter and nothing else.
pub proof fn timeout_votes_touch_the_buckets_only(n: NodeView, signer: NodeId, vote: TimeoutVoteView, trusted: bool)
    ensures
        ({
            let m = after_timeout_vote(n, signer, vote, trusted);
            m == (NodeView { timeout_buckets: m.timeout_buckets, eviction_counters: m.eviction_counters, ..n })
        }),
{
}

} // verus!
