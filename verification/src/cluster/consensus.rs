//! Consensus over a replicated log: terms, votes, elections and the log that
//! a leader appends to and followers receive.
use vstd::prelude::*;
use crate::core_types::error::{CoreError, cat4};
use crate::core_types::hash;
use crate::core_types::hash::spec_blake3;
use crate::core_types::id::NodeId;
use crate::core_types::text::{spec_u64_decimal, spec_decimal, u64_to_decimal, usize_to_decimal};
use crate::plan::dag::ids;

verus! {

/// Settings of a consensus participant.
#[derive(Debug, Clone, PartialEq, Eq)]
pub struct ConsensusConfig {
    pub node_id: NodeId,
    pub election_timeout_ms: u64,
    pub heartbeat_interval_ms: u64,
    pub max_entries_per_msg: usize,
    pub quorum_size: usize,
}

impl ConsensusConfig {
    /// The default settings for `node_id`.
    pub fn new(node_id: NodeId) -> (c: Self)
        ensures
            c.node_id == node_id,
            c.election_timeout_ms == 1000,
            c.heartbeat_interval_ms == 100,
            c.max_entries_per_msg == 100,
            c.quorum_size == 2,
    {
        ConsensusConfig {
            node_id,
            election_timeout_ms: 1000,
            heartbeat_interval_ms: 100,
            max_entries_per_msg: 100,
            quorum_size: 2,
        }
    }

    /// The same settings with another election timeout.
    pub fn with_election_timeout(self, timeout_ms: u64) -> (c: Self)
        ensures
            c == (ConsensusConfig { election_timeout_ms: timeout_ms, ..self }),
    {
        ConsensusConfig { election_timeout_ms: timeout_ms, ..self }
    }

    /// The same settings with another heartbeat interval.
    pub fn with_heartbeat_interval(self, interval_ms: u64) -> (c: Self)
        ensures
            c == (ConsensusConfig { heartbeat_interval_ms: interval_ms, ..self }),
    {
        ConsensusConfig { heartbeat_interval_ms: interval_ms, ..self }
    }

    /// The same settings with another quorum size.
    pub fn with_quorum_size(self, size: usize) -> (c: Self)
        ensures
            c == (ConsensusConfig { quorum_size: size, ..self }),
    {
        ConsensusConfig { quorum_size: size, ..self }
    }
}

impl Default for ConsensusConfig {
    /// The default settings for a fresh random node.
    fn default() -> (c: Self)
        ensures
            c.election_timeout_ms == 1000,
            c.heartbeat_interval_ms == 100,
            c.max_entries_per_msg == 100,
            c.quorum_size == 2,
    {
        ConsensusConfig::new(NodeId::new())
    }
}

/// One entry of the replicated log, with the hash of its data.
#[derive(Debug, Clone, PartialEq, Eq)]
pub struct ConsensusEntry {
    pub index: u64,
    pub term: u64,
    pub data: Vec<u8>,
    pub hash: hash::Hash,
}

impl ConsensusEntry {
    /// An entry whose hash is the BLAKE3 hash of `data`.
    pub fn new(index: u64, term: u64, data: Vec<u8>) -> (e: Self)
        ensures
            e.index == index,
            e.term == term,
            e.data@ == data@,
            e.hash@ == spec_blake3(data@),
    {
        let hash = hash::Hash::compute(data.as_slice());
        ConsensusEntry { index, term, data, hash }
    }
}

/// The role of a participant.
#[derive(Debug, Clone, Copy, PartialEq, Eq, Structural)]
pub enum ConsensusState {
    Follower,
    Candidate,
    Leader,
}

/// A consensus error.
#[derive(Debug, Clone, PartialEq, Eq)]
pub enum ConsensusError {
    NotLeader,
    TermMismatch { current: u64, received: u64 },
    LogConflict { index: u64 },
    QuorumNotReached { have: usize, needed: usize },
    InvalidEntry(String),
    Transport(String),
}

/// The message of a consensus error.
pub open spec fn spec_consensus_error_text(e: ConsensusError) -> Seq<char> {
    match e {
        ConsensusError::NotLeader => "Not a leader"@,
        ConsensusError::TermMismatch { current, received } => "Term mismatch: current "@ + spec_u64_decimal(
            current,
        ) + ", received "@ + spec_u64_decimal(received),
        ConsensusError::LogConflict { index } => "Log conflict at index "@ + spec_u64_decimal(index),
        ConsensusError::QuorumNotReached { have, needed } => "Quorum not reached: "@ + spec_decimal(
            have as nat,
        ) + "/"@ + spec_decimal(needed as nat) + " votes"@,
        ConsensusError::InvalidEntry(m) => "Invalid entry: "@ + m@,
        ConsensusError::Transport(m) => "Transport error: "@ + m@,
    }
}

impl ConsensusError {
    /// The error message.
    pub fn to_string(&self) -> (s: String)
        ensures
            s@ == spec_consensus_error_text(*self),
    {
        proof {
            reveal_strlit("");
        }
        match self {
            ConsensusError::NotLeader => "Not a leader".to_owned(),
            ConsensusError::TermMismatch { current, received } => {
                let c = u64_to_decimal(*current);
                let r = u64_to_decimal(*received);
                cat4("Term mismatch: current ", c.as_str(), ", received ", r.as_str())
            },
            ConsensusError::LogConflict { index } => {
                let i = u64_to_decimal(*index);
                cat4("Log conflict at index ", i.as_str(), "", "")
            },
            ConsensusError::QuorumNotReached { have, needed } => {
                let h = usize_to_decimal(*have);
                let n = usize_to_decimal(*needed);
                let s = cat4("Quorum not reached: ", h.as_str(), "/", n.as_str());
                cat4(s.as_str(), " votes", "", "")
            },
            ConsensusError::InvalidEntry(m) => cat4("Invalid entry: ", m.as_str(), "", ""),
            ConsensusError::Transport(m) => cat4("Transport error: ", m.as_str(), "", ""),
        }
    }
}

/// What a participant holds, as plain values.
pub struct ConsensusView {
    pub config: ConsensusConfig,
    pub state: ConsensusState,
    pub term: u64,
    pub voted_for: Option<u128>,
    pub log: Seq<ConsensusEntry>,
    pub commit: u64,
    pub last_applied: u64,
    pub leader: Option<u128>,
    /// The distinct voters of the current election.
    pub votes: Set<u128>,
}

/// A participant in consensus: its role, term, vote, log and commit index.
pub struct Consensus {
    config: ConsensusConfig,
    state: ConsensusState,
    current_term: u64,
    voted_for: Option<NodeId>,
    log: Vec<ConsensusEntry>,
    commit_index: u64,
    last_applied: u64,
    leader_id: Option<NodeId>,
    votes_received: Vec<NodeId>,
}

/// The value of an optional identifier.
pub open spec fn opt_id(o: Option<NodeId>) -> Option<u128> {
    match o {
        Some(n) => Some(n.value),
        None => None,
    }
}

impl View for Consensus {
    type V = ConsensusView;

    closed spec fn view(&self) -> ConsensusView {
        ConsensusView {
            config: self.config,
            state: self.state,
            term: self.current_term,
            voted_for: opt_id(self.voted_for),
            log: self.log@,
            commit: self.commit_index,
            last_applied: self.last_applied,
            leader: opt_id(self.leader_id),
            votes: ids(self.votes_received@).to_set(),
        }
    }
}

/// What answering a vote request does: an older term is refused; a newer
/// term is adopted, dropping the role to follower and forgetting the leader
/// and the vote; the vote goes to the candidate when none was cast in the
/// term or it was cast for the same candidate.
pub open spec fn spec_request_vote(v: ConsensusView, candidate: u128, term: u64) -> (ConsensusView, bool) {
    if term < v.term {
        (v, false)
    } else {
        let v1 = if term > v.term {
            ConsensusView { term, state: ConsensusState::Follower, leader: None, voted_for: None, ..v }
        } else {
            v
        };
        if v1.voted_for is None || v1.voted_for == Some(candidate) {
            (ConsensusView { voted_for: Some(candidate), ..v1 }, true)
        } else {
            (v1, false)
        }
    }
}

/// What receiving entries does: an older term is refused; otherwise a newer
/// term is adopted with the follower role, the leader is set to this node
/// and the entries are appended.
pub open spec fn spec_append_entries(v: ConsensusView, term: u64, entries: Seq<ConsensusEntry>) -> (
    ConsensusView,
    bool,
) {
    if term < v.term {
        (v, false)
    } else {
        let v1 = if term > v.term {
            ConsensusView { term, state: ConsensusState::Follower, ..v }
        } else {
            v
        };
        (ConsensusView { leader: Some(v.config.node_id.value), log: v1.log + entries, ..v1 }, true)
    }
}

/// What starting an election does: the next term, the candidate role, no
/// leader, and a vote for itself, the only vote received so far.
pub open spec fn spec_start_election(v: ConsensusView) -> ConsensusView {
    ConsensusView {
        term: (v.term + 1) as u64,
        state: ConsensusState::Candidate,
        leader: None,
        voted_for: Some(v.config.node_id.value),
        votes: set![v.config.node_id.value],
        ..v
    }
}

/// What receiving a vote does: a vote for another term, or one received
/// while not a candidate, is ignored; otherwise the voter is counted, and
/// once the distinct voters reach the quorum the node leads.
pub open spec fn spec_receive_vote(v: ConsensusView, voter: u128, term: u64) -> (ConsensusView, bool) {
    if term != v.term || v.state != ConsensusState::Candidate {
        (v, false)
    } else {
        let votes = v.votes.insert(voter);
        if votes.len() >= v.config.quorum_size {
            (
                ConsensusView {
                    votes,
                    state: ConsensusState::Leader,
                    leader: Some(v.config.node_id.value),
                    ..v
                },
                true,
            )
        } else {
            (ConsensusView { votes, ..v }, false)
        }
    }
}

impl Consensus {
    #[verifier::type_invariant]
    closed spec fn wf(self) -> bool {
        ids(self.votes_received@).no_duplicates()
    }

    /// A follower at term 0 with an empty log and no vote.
    pub fn new(config: ConsensusConfig) -> (c: Self)
        ensures
            c@ == (ConsensusView {
                config,
                state: ConsensusState::Follower,
                term: 0,
                voted_for: None,
                log: Seq::empty(),
                commit: 0,
                last_applied: 0,
                leader: None,
                votes: Set::empty(),
            }),
    {
        let c = Consensus {
            config,
            state: ConsensusState::Follower,
            current_term: 0,
            voted_for: None,
            log: Vec::new(),
            commit_index: 0,
            last_applied: 0,
            leader_id: None,
            votes_received: Vec::new(),
        };
        assert(ids(c.votes_received@) =~= Seq::<u128>::empty());
        assert(c@.votes =~= Set::<u128>::empty());
        c
    }

    /// The current role.
    pub fn state(&self) -> (s: ConsensusState)
        ensures
            s == self@.state,
    {
        self.state
    }

    /// The current term.
    pub fn current_term(&self) -> (t: u64)
        ensures
            t == self@.term,
    {
        self.current_term
    }

    /// The known leader.
    pub fn leader_id(&self) -> (l: Option<NodeId>)
        ensures
            opt_id(l) == self@.leader,
    {
        self.leader_id
    }

    /// Appends `data` as an entry of the current term, when leading; the
    /// result is the entry's index, the former length of the log.
    pub fn append(&mut self, data: Vec<u8>) -> (r: Result<u64, CoreError>)
        requires
            old(self)@.log.len() < u64::MAX,
        ensures
            old(self)@.state != ConsensusState::Leader ==> {
                &&& r matches Err(CoreError::Validation { field, reason }) && field@ == "state"@ && reason@
                    == "Not a leader"@
                &&& final(self)@ == old(self)@
            },
            old(self)@.state == ConsensusState::Leader ==> {
                &&& r == Ok::<u64, CoreError>(old(self)@.log.len() as u64)
                &&& final(self)@.log.len() == old(self)@.log.len() + 1
                &&& final(self)@.log.take(old(self)@.log.len() as int) == old(self)@.log
                &&& final(self)@.log.last().index == old(self)@.log.len()
                &&& final(self)@.log.last().term == old(self)@.term
                &&& final(self)@.log.last().data@ == data@
                &&& final(self)@.log.last().hash@ == spec_blake3(data@)
                &&& final(self)@ == (ConsensusView { log: final(self)@.log, ..old(self)@ })
            },
    {
        proof {
            use_type_invariant(&*self);
        }
        if self.state != ConsensusState::Leader {
            return Err(CoreError::Validation { field: "state".to_owned(), reason: "Not a leader".to_owned() });
        }
        let index = self.log.len() as u64;
        let entry = ConsensusEntry::new(index, self.current_term, data);
        let ghost before = self.log@;
        let mut log: Vec<ConsensusEntry> = Vec::new();
        std::mem::swap(&mut log, &mut self.log);
        log.push(entry);
        self.log = log;
        assert(self.log@.take(before.len() as int) =~= before);
        Ok(index)
    }

    /// Answers a vote request from `candidate_id` for `term`; the candidate's
    /// log position is not consulted.
    pub fn request_vote(
        &mut self,
        candidate_id: NodeId,
        term: u64,
        last_log_index: u64,
        last_log_term: u64,
    ) -> (r: Result<bool, CoreError>)
        ensures
            final(self)@ == spec_request_vote(old(self)@, candidate_id.value, term).0,
            r == Ok::<bool, CoreError>(spec_request_vote(old(self)@, candidate_id.value, term).1),
            final(self)@.term >= old(self)@.term,
    {
        proof {
            use_type_invariant(&*self);
        }
        if term < self.current_term {
            return Ok(false);
        }
        if term > self.current_term {
            self.current_term = term;
            self.state = ConsensusState::Follower;
            self.leader_id = None;
            self.voted_for = None;
        }
        let free = match self.voted_for {
            None => true,
            Some(v) => v == candidate_id,
        };
        if free {
            self.voted_for = Some(candidate_id);
            Ok(true)
        } else {
            Ok(false)
        }
    }

    /// Receives entries from a leader of `term`; the previous-entry position
    /// and the leader's commit index are not consulted.
    pub fn append_entries(
        &mut self,
        term: u64,
        prev_log_index: u64,
        prev_log_term: u64,
        entries: Vec<ConsensusEntry>,
        leader_commit: u64,
    ) -> (r: Result<bool, CoreError>)
        ensures
            final(self)@ == spec_append_entries(old(self)@, term, entries@).0,
            r == Ok::<bool, CoreError>(spec_append_entries(old(self)@, term, entries@).1),
            final(self)@.term >= old(self)@.term,
    {
        proof {
            use_type_invariant(&*self);
        }
        if term < self.current_term {
            return Ok(false);
        }
        if term > self.current_term {
            self.current_term = term;
            self.state = ConsensusState::Follower;
        }
        self.leader_id = Some(self.config.node_id);
        let mut entries = entries;
        if entries.len() > 0 {
            let mut log: Vec<ConsensusEntry> = Vec::new();
            std::mem::swap(&mut log, &mut self.log);
            log.append(&mut entries);
            self.log = log;
        }
        Ok(true)
    }

    /// Starts an election: the next term, as candidate, voting for itself.
    pub fn start_election(&mut self) -> (r: Result<(), CoreError>)
        requires
            old(self)@.term < u64::MAX,
        ensures
            r is Ok,
            final(self)@ == spec_start_election(old(self)@),
            final(self)@.term > old(self)@.term,
    {
        proof {
            use_type_invariant(&*self);
        }
        self.current_term = self.current_term + 1;
        self.state = ConsensusState::Candidate;
        self.leader_id = None;
        self.voted_for = Some(self.config.node_id);
        let mut votes: Vec<NodeId> = Vec::new();
        votes.push(self.config.node_id);
        self.votes_received = votes;
        proof {
            assert(ids(self.votes_received@) =~= seq![self.config.node_id.value]);
            let sq = ids(self.votes_received@);
            assert forall|x: u128| sq.to_set().contains(x) <==> set![self.config.node_id.value].contains(x) by {
                if x == self.config.node_id.value {
                    assert(sq[0] == x);
                }
            }
            assert(sq.to_set() =~= set![self.config.node_id.value]);
        }
        Ok(())
    }

    /// Counts a vote from `voter_id` for `term`; the result tells whether
    /// this vote made the node leader.
    pub fn receive_vote(&mut self, voter_id: NodeId, term: u64) -> (r: Result<bool, CoreError>)
        ensures
            final(self)@ == spec_receive_vote(old(self)@, voter_id.value, term).0,
            r == Ok::<bool, CoreError>(spec_receive_vote(old(self)@, voter_id.value, term).1),
            final(self)@.term == old(self)@.term,
    {
        proof {
            use_type_invariant(&*self);
        }
        if term != self.current_term {
            return Ok(false);
        }
        if self.state != ConsensusState::Candidate {
            return Ok(false);
        }
        let ghost before = ids(self.votes_received@);
        let mut seen = false;
        let mut i: usize = 0;
        while i < self.votes_received.len()
            invariant
                i <= self.votes_received@.len(),
                before == ids(self.votes_received@),
                seen <==> exists|k: int| 0 <= k < i && before[k] == voter_id.value,
            decreases self.votes_received@.len() - i,
        {
            assert(before[i as int] == self.votes_received@[i as int].value);
            if self.votes_received[i] == voter_id {
                seen = true;
            }
            i = i + 1;
        }
        if !seen {
            let mut votes: Vec<NodeId> = Vec::new();
            std::mem::swap(&mut votes, &mut self.votes_received);
            votes.push(voter_id);
            proof {
                let after = ids(votes@);
                assert(after =~= before.push(voter_id.value));
                assert(after.no_duplicates()) by {
                    assert forall|a: int, b: int| 0 <= a < after.len() && 0 <= b < after.len() && a != b implies after[a]
                        != after[b] by {
                        if a < before.len() && b < before.len() {
                            assert(after[a] == before[a] && after[b] == before[b]);
                        } else if a < before.len() {
                            assert(after[a] == before[a]);
                        } else {
                            assert(after[b] == before[b]);
                        }
                    }
                }
                assert forall|x: u128| after.to_set().contains(x) <==> before.to_set().insert(voter_id.value).contains(x) by {
                    if after.contains(x) {
                        let k = choose|k: int| 0 <= k < after.len() && after[k] == x;
                        if k < before.len() {
                            assert(before[k] == x);
                        }
                    }
                    if before.contains(x) {
                        let k = choose|k: int| 0 <= k < before.len() && before[k] == x;
                        assert(after[k] == x);
                    }
                    if x == voter_id.value {
                        assert(after[before.len() as int] == x);
                    }
                }
                assert(after.to_set() =~= before.to_set().insert(voter_id.value));
            }
            self.votes_received = votes;
        } else {
            proof {
                let k = choose|k: int| 0 <= k < before.len() && before[k] == voter_id.value;
                assert(before.to_set().contains(voter_id.value));
                assert(before.to_set().insert(voter_id.value) =~= before.to_set());
            }
        }
        proof {
            ids(self.votes_received@).unique_seq_to_set();
        }
        if self.votes_received.len() >= self.config.quorum_size {
            self.state = ConsensusState::Leader;
            self.leader_id = Some(self.config.node_id);
            Ok(true)
        } else {
            Ok(false)
        }
    }

    /// The commit index.
    pub fn commit_index(&self) -> (c: u64)
        ensures
            c == self@.commit,
    {
        self.commit_index
    }

    /// Raises the commit index to `index`; a lower index leaves it.
    pub fn commit_to(&mut self, index: u64) -> (r: Result<(), CoreError>)
        ensures
            r is Ok,
            final(self)@ == (ConsensusView {
                commit: if index > old(self)@.commit { index } else { old(self)@.commit },
                ..old(self)@
            }),
    {
        proof {
            use_type_invariant(&*self);
        }
        if index > self.commit_index {
            self.commit_index = index;
        }
        Ok(())
    }

    /// The number of log entries.
    pub fn log_len(&self) -> (n: usize)
        ensures
            n == self@.log.len(),
    {
        self.log.len()
    }

    /// Drops to follower and forgets the leader.
    pub fn become_follower(&mut self)
        ensures
            final(self)@ == (ConsensusView { state: ConsensusState::Follower, leader: None, ..old(self)@ }),
    {
        proof {
            use_type_invariant(&*self);
        }
        self.state = ConsensusState::Follower;
        self.leader_id = None;
    }
}

impl Default for Consensus {
    /// A participant with the default settings for a fresh random node.
    fn default() -> (c: Self)
        ensures
            c@.state == ConsensusState::Follower,
            c@.term == 0,
            c@.log.len() == 0,
    {
        Consensus::new(ConsensusConfig::default())
    }
}

/// A node votes for at most one candidate in a term: once it has granted its
/// vote in a term, a request from another candidate in that term is refused.
pub proof fn lemma_one_vote_per_term(v: ConsensusView, c: u128, d: u128, term: u64)
    requires
        spec_request_vote(v, c, term).1,
        c != d,
    ensures
        !spec_request_vote(spec_request_vote(v, c, term).0, d, term).1,
{
}

/// A node leads only with votes from a quorum of distinct voters, and its
/// term is the one it stood in.
pub proof fn lemma_leader_has_quorum(v: ConsensusView, voter: u128, term: u64)
    requires
        spec_receive_vote(v, voter, term).1,
    ensures
        spec_receive_vote(v, voter, term).0.state == ConsensusState::Leader,
        spec_receive_vote(v, voter, term).0.votes.len() >= v.config.quorum_size,
        spec_receive_vote(v, voter, term).0.votes.contains(voter),
        spec_receive_vote(v, voter, term).0.term == term,
{
}

/// Receiving entries never shortens the log: what was there stays a prefix.
pub proof fn lemma_append_entries_keeps_log(v: ConsensusView, term: u64, entries: Seq<ConsensusEntry>)
    ensures
        spec_append_entries(v, term, entries).0.log.take(v.log.len() as int) == v.log,
        spec_append_entries(v, term, entries).0.term >= v.term,
{
    assert((v.log + entries).take(v.log.len() as int) =~= v.log);
}

} // verus!
