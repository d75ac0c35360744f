//! Leader election on top of consensus: the role this node plays and the
//! leader it knows.
use vstd::prelude::*;
use crate::cluster::consensus::{Consensus, ConsensusConfig, ConsensusState, ConsensusView, spec_request_vote, spec_receive_vote, spec_start_election};
use crate::cluster::membership::{Membership, MembershipView, MemberView, member_views};
use crate::core_types::error::CoreError;
use crate::core_types::id::NodeId;

verus! {

/// Settings of leader election.
#[derive(Debug, Clone, PartialEq, Eq)]
pub struct ElectionConfig {
    pub node_id: NodeId,
    pub election_timeout_ms: u64,
    pub heartbeat_interval_ms: u64,
}

impl ElectionConfig {
    /// The default settings for `node_id`.
    pub fn new(node_id: NodeId) -> (c: Self)
        ensures
            c == (ElectionConfig { node_id, election_timeout_ms: 1000, heartbeat_interval_ms: 100 }),
    {
        ElectionConfig { node_id, election_timeout_ms: 1000, heartbeat_interval_ms: 100 }
    }
}

impl Default for ElectionConfig {
    /// The default settings for a fresh random node.
    fn default() -> (c: Self)
        ensures
            c.election_timeout_ms == 1000,
            c.heartbeat_interval_ms == 100,
    {
        ElectionConfig::new(NodeId::new())
    }
}

/// An election error.
#[derive(Debug, Clone, PartialEq, Eq)]
pub enum ElectionError {
    NoQuorum,
    Timeout,
    TermChanged,
}

impl ElectionError {
    /// The error message.
    pub fn to_string(&self) -> (s: String)
        ensures
            s@ == (match *self {
                ElectionError::NoQuorum => "No quorum available"@,
                ElectionError::Timeout => "Election timeout"@,
                ElectionError::TermChanged => "Term changed during election"@,
            }),
    {
        match self {
            ElectionError::NoQuorum => "No quorum available".to_owned(),
            ElectionError::Timeout => "Election timeout".to_owned(),
            ElectionError::TermChanged => "Term changed during election".to_owned(),
        }
    }
}

/// The election role of this node.
#[derive(Debug, Clone, Copy, PartialEq, Eq, Structural)]
pub enum ElectionState {
    Idle,
    InProgress,
    Leader,
    Follower(NodeId),
}

/// What an election instance holds, as plain values.
pub struct ElectionView {
    pub config: ElectionConfig,
    pub state: ElectionState,
    pub leader: Option<u128>,
    pub consensus: ConsensusView,
    pub membership: MembershipView,
}

/// Leader election for one node, with the consensus participant and the
/// membership it consults.
pub struct LeaderElection {
    config: ElectionConfig,
    state: ElectionState,
    leader: Option<NodeId>,
    consensus: Consensus,
    membership: Membership,
}

impl View for LeaderElection {
    type V = ElectionView;

    closed spec fn view(&self) -> ElectionView {
        ElectionView {
            config: self.config,
            state: self.state,
            leader: crate::cluster::consensus::opt_id(self.leader),
            consensus: self.consensus@,
            membership: self.membership@,
        }
    }
}

/// Whether a heartbeat is due at `now` after one at `last`: a node that does
/// not lead has waited longer than the election timeout.
pub open spec fn spec_timed_out(state: ElectionState, timeout: u64, last: u64, now: u64) -> bool {
    state != ElectionState::Leader && (if now >= last { now - last } else { 0 }) > timeout
}

/// A leader never times out, whatever the heartbeat and clock readings; a
/// node in any other state times out exactly when the clock reads more
/// than the timeout past the last heartbeat.
pub proof fn lemma_leader_never_times_out(state: ElectionState, timeout: u64, last: u64, now: u64)
    ensures
        state == ElectionState::Leader ==> !spec_timed_out(state, timeout, last, now),
        state != ElectionState::Leader ==> (spec_timed_out(state, timeout, last, now) <==> now > last + timeout),
{
}

/// The members a leader sends heartbeats to: every member but itself.
pub open spec fn spec_heartbeat_targets(ms: Seq<MemberView>, own: u128) -> Seq<u128>
    decreases ms.len(),
{
    if ms.len() == 0 {
        Seq::empty()
    } else {
        spec_heartbeat_targets(ms.drop_last(), own) + (if ms.last().node != own {
            seq![ms.last().node]
        } else {
            Seq::empty()
        })
    }
}

impl LeaderElection {
    /// An idle election with no known leader.
    pub fn new(config: ElectionConfig, consensus: Consensus, membership: Membership) -> (e: Self)
        ensures
            e@ == (ElectionView {
                config,
                state: ElectionState::Idle,
                leader: None,
                consensus: consensus@,
                membership: membership@,
            }),
    {
        LeaderElection { config, state: ElectionState::Idle, leader: None, consensus, membership }
    }

    /// The election role.
    pub fn state(&self) -> (s: ElectionState)
        ensures
            s == self@.state,
    {
        self.state
    }

    /// The known leader.
    pub fn leader(&self) -> (l: Option<NodeId>)
        ensures
            crate::cluster::consensus::opt_id(l) == self@.leader,
    {
        self.leader
    }

    /// Whether this node leads.
    pub fn is_leader(&self) -> (b: bool)
        ensures
            b == (self@.state == ElectionState::Leader),
    {
        self.state == ElectionState::Leader
    }

    /// Sets the election role.
    pub fn set_state(&mut self, state: ElectionState)
        ensures
            final(self)@ == (ElectionView { state, ..old(self)@ }),
    {
        self.state = state;
    }

    /// The consensus participant.
    pub fn consensus(&self) -> (c: &Consensus)
        ensures
            c@ == self@.consensus,
    {
        &self.consensus
    }

    /// The membership consulted.
    pub fn membership(&self) -> (m: &Membership)
        ensures
            m@ == self@.membership,
    {
        &self.membership
    }

    /// Starts an election: the role is in progress and consensus moves to the
    /// next term as candidate.
    pub fn start_election(&mut self) -> (r: Result<(), CoreError>)
        requires
            old(self)@.consensus.term < u64::MAX,
        ensures
            r is Ok,
            final(self)@ == (ElectionView {
                state: ElectionState::InProgress,
                consensus: spec_start_election(old(self)@.consensus),
                ..old(self)@
            }),
    {
        self.state = ElectionState::InProgress;
        self.consensus.start_election()
    }

    /// Answers a vote request through consensus, without a log position.
    pub fn vote(&mut self, candidate_id: NodeId, term: u64) -> (r: Result<bool, CoreError>)
        ensures
            r == Ok::<bool, CoreError>(spec_request_vote(old(self)@.consensus, candidate_id.value, term).1),
            final(self)@ == (ElectionView {
                consensus: spec_request_vote(old(self)@.consensus, candidate_id.value, term).0,
                ..old(self)@
            }),
    {
        self.consensus.request_vote(candidate_id, term, 0, 0)
    }

    /// Counts a vote through consensus; when it wins the election this node
    /// leads and knows itself as leader.
    pub fn receive_vote(&mut self, voter_id: NodeId, term: u64) -> (r: Result<bool, CoreError>)
        ensures
            ({
                let (c, won) = spec_receive_vote(old(self)@.consensus, voter_id.value, term);
                &&& r == Ok::<bool, CoreError>(won)
                &&& final(self)@ == (if won {
                    ElectionView {
                        consensus: c,
                        state: ElectionState::Leader,
                        leader: Some(old(self)@.config.node_id.value),
                        ..old(self)@
                    }
                } else {
                    ElectionView { consensus: c, ..old(self)@ }
                })
            }),
    {
        let won = match self.consensus.receive_vote(voter_id, term) {
            Ok(w) => w,
            Err(e) => {
                return Err(e);
            },
        };
        if won {
            self.state = ElectionState::Leader;
            self.leader = Some(self.config.node_id);
        }
        Ok(won)
    }

    /// Steps down: follows itself, forgets the leader, and consensus drops to
    /// follower.
    pub fn step_down(&mut self)
        ensures
            final(self)@ == (ElectionView {
                state: ElectionState::Follower(old(self)@.config.node_id),
                leader: None,
                consensus: ConsensusView {
                    state: ConsensusState::Follower,
                    leader: None,
                    ..old(self)@.consensus
                },
                ..old(self)@
            }),
    {
        self.state = ElectionState::Follower(self.config.node_id);
        self.leader = None;
        self.consensus.become_follower();
    }

    /// Follows `leader_id`.
    pub fn recognize_leader(&mut self, leader_id: NodeId)
        ensures
            final(self)@ == (ElectionView {
                state: ElectionState::Follower(leader_id),
                leader: Some(leader_id.value),
                ..old(self)@
            }),
    {
        self.state = ElectionState::Follower(leader_id);
        self.leader = Some(leader_id);
    }

    /// The members a heartbeat goes to, each with the current term: every
    /// member but this node when it leads, none otherwise.
    pub fn heartbeat_targets(&self) -> (v: Vec<(NodeId, u64)>)
        ensures
            self@.state != ElectionState::Leader ==> v@.len() == 0,
            self@.state == ElectionState::Leader ==> v@.map_values(|p: (NodeId, u64)| p.0.value)
                == spec_heartbeat_targets(self@.membership.members, self@.config.node_id.value),
            forall|i: int| 0 <= i < v@.len() ==> (#[trigger] v@[i]).1 == self@.consensus.term,
    {
        let mut v: Vec<(NodeId, u64)> = Vec::new();
        if self.state != ElectionState::Leader {
            return v;
        }
        let members = self.membership.members();
        let term = self.consensus.current_term();
        let own = self.config.node_id;
        let ghost ms = self@.membership.members;
        let mut i: usize = 0;
        while i < members.len()
            invariant
                member_views(members@) == ms,
                term == self@.consensus.term,
                own == self@.config.node_id,
                i <= members@.len(),
                v@.map_values(|p: (NodeId, u64)| p.0.value) == spec_heartbeat_targets(ms.take(i as int), own.value),
                forall|k: int| 0 <= k < v@.len() ==> (#[trigger] v@[k]).1 == term,
            decreases members@.len() - i,
        {
            proof {
                assert(ms.take(i + 1).drop_last() =~= ms.take(i as int));
                assert(ms[i as int] == members@[i as int]@);
            }
            let ghost before = v@;
            if members[i].node_id != own {
                v.push((members[i].node_id, term));
                assert(v@.map_values(|p: (NodeId, u64)| p.0.value) =~= before.map_values(
                    |p: (NodeId, u64)| p.0.value,
                ).push(members@[i as int].node_id.value));
            }
            i = i + 1;
        }
        assert(ms.take(i as int) =~= ms);
        v
    }

    /// Sends heartbeats when leading; the messages are those of
    /// `heartbeat_targets`, handed to the transport by the caller.
    pub fn send_heartbeat(&self) -> (r: Result<(), CoreError>)
        ensures
            r is Ok,
    {
        let _targets = self.heartbeat_targets();
        Ok(())
    }

    /// Whether the election timeout has passed since `last_heartbeat`; a
    /// leader never times out.
    pub fn check_timeout(&self, last_heartbeat: u64, current_time: u64) -> (b: bool)
        ensures
            b == spec_timed_out(self@.state, self@.config.election_timeout_ms, last_heartbeat, current_time),
    {
        if self.state == ElectionState::Leader {
            return false;
        }
        current_time.saturating_sub(last_heartbeat) > self.config.election_timeout_ms
    }
}

impl Default for LeaderElection {
    /// An idle election for a fresh random node, with its own consensus
    /// participant and membership.
    fn default() -> (e: Self)
        ensures
            e@.state == ElectionState::Idle,
            e@.leader is None,
    {
        let node_id = NodeId::new();
        let config = ElectionConfig::new(node_id);
        let consensus = Consensus::new(ConsensusConfig::new(node_id));
        let membership = Membership::new(node_id);
        LeaderElection::new(config, consensus, membership)
    }
}

} // verus!
