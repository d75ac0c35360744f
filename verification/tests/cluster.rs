use cathedral::cluster::consensus::{Consensus, ConsensusConfig, ConsensusEntry, ConsensusError, ConsensusState};
use cathedral::cluster::coordinator::{
    Coordinator, CoordinatorConfig, CoordinatorError, ExecutionResult, ExecutionTask, TaskStatus,
};
use cathedral::cluster::leader::{ElectionConfig, ElectionError, ElectionState, LeaderElection};
use cathedral::cluster::membership::{Member, MemberState, Membership};
use cathedral::cluster::remote::{RemoteClient, RemoteExecutor, RemoteRequest, RemoteResponse, TransportError};
use cathedral::cluster::worker::{JobStatus, Job, Worker, WorkerConfig, WorkerError, WorkerState};
use cathedral::core_types::error::CoreError;
use cathedral::core_types::hash;
use cathedral::core_types::id::{EventId, NodeId};
use cathedral::runtime::executor::Executor;

fn leader_coordinator(node_id: NodeId) -> Coordinator {
    let config = CoordinatorConfig::new(node_id);
    let consensus = Consensus::new(ConsensusConfig::new(node_id));
    let mut election = LeaderElection::new(
        ElectionConfig::new(node_id),
        Consensus::new(ConsensusConfig::new(node_id)),
        Membership::new(node_id),
    );
    election.set_state(ElectionState::Leader);
    let membership = Membership::new(node_id);
    let remote = RemoteExecutor::new(node_id);
    Coordinator::new(config, consensus, election, membership, remote)
}

// ---- consensus ----

#[test]
fn test_consensus_new() {
    let consensus = Consensus::new(ConsensusConfig::new(NodeId::new()));
    assert_eq!(consensus.state(), ConsensusState::Follower);
    assert_eq!(consensus.current_term(), 0);
}

#[test]
fn test_consensus_config_new() {
    let node_id = NodeId::new();
    let config = ConsensusConfig::new(node_id);
    assert_eq!(config.node_id, node_id);
    assert_eq!(config.election_timeout_ms, 1000);
}

#[test]
fn test_consensus_config_with_election_timeout() {
    let config = ConsensusConfig::new(NodeId::new()).with_election_timeout(2000);
    assert_eq!(config.election_timeout_ms, 2000);
}

#[test]
fn test_consensus_config_with_quorum_size() {
    let config = ConsensusConfig::new(NodeId::new()).with_quorum_size(3);
    assert_eq!(config.quorum_size, 3);
}

#[test]
fn test_consensus_entry_new() {
    let entry = ConsensusEntry::new(0, 1, b"data".to_vec());
    assert_eq!(entry.index, 0);
    assert_eq!(entry.term, 1);
    assert_eq!(entry.data, b"data");
}

#[test]
fn test_request_vote_new_term() {
    let mut consensus = Consensus::new(ConsensusConfig::new(NodeId::new()));
    let candidate_id = NodeId::new();
    let granted = consensus.request_vote(candidate_id, 5, 0, 0).unwrap();
    assert!(granted);
    assert_eq!(consensus.current_term(), 5);
}

#[test]
fn test_request_vote_old_term() {
    let mut consensus = Consensus::new(ConsensusConfig::new(NodeId::new()));
    // Move to term 1 first.
    consensus.request_vote(NodeId::new(), 1, 0, 0).unwrap();
    assert_eq!(consensus.current_term(), 1);
    let candidate_id = NodeId::new();
    let granted = consensus.request_vote(candidate_id, 0, 0, 0).unwrap();
    assert!(!granted);
}

#[test]
fn consensus_test_start_election() {
    let mut consensus = Consensus::new(ConsensusConfig::new(NodeId::new()));
    consensus.start_election().unwrap();
    assert_eq!(consensus.state(), ConsensusState::Candidate);
    assert_eq!(consensus.current_term(), 1);
}

#[test]
fn test_receive_vote() {
    let node_id = NodeId::new();
    let mut config = ConsensusConfig::new(node_id);
    config.quorum_size = 2;
    let mut consensus = Consensus::new(config);
    consensus.start_election().unwrap();
    let voter_id = NodeId::new();
    let won = consensus.receive_vote(voter_id, 1).unwrap();
    assert!(won);
    assert_eq!(consensus.state(), ConsensusState::Leader);
}

fn make_leader() -> Consensus {
    let mut consensus = Consensus::new(ConsensusConfig::new(NodeId::new()));
    consensus.start_election().unwrap();
    assert!(consensus.receive_vote(NodeId::new(), 1).unwrap());
    consensus
}

#[test]
fn test_append_as_leader() {
    let mut consensus = make_leader();
    consensus.append(b"test data".to_vec()).unwrap();
    assert_eq!(consensus.log_len(), 1);
}

#[test]
fn test_append_as_follower() {
    let mut consensus = Consensus::new(ConsensusConfig::new(NodeId::new()));
    let result = consensus.append(b"test data".to_vec());
    assert!(result.is_err());
}

#[test]
fn test_append_entries() {
    let mut consensus = Consensus::new(ConsensusConfig::new(NodeId::new()));
    let entries = vec![ConsensusEntry::new(0, 1, b"data".to_vec())];
    let success = consensus.append_entries(1, 0, 0, entries, 0).unwrap();
    assert!(success);
    assert_eq!(consensus.log_len(), 1);
}

#[test]
fn test_commit_to() {
    let mut consensus = Consensus::new(ConsensusConfig::new(NodeId::new()));
    consensus.commit_to(5).unwrap();
    assert_eq!(consensus.commit_index(), 5);
}

#[test]
fn test_become_follower() {
    let mut consensus = make_leader();
    assert_eq!(consensus.state(), ConsensusState::Leader);
    consensus.become_follower();
    assert_eq!(consensus.state(), ConsensusState::Follower);
}

#[test]
fn test_consensus_default() {
    let consensus = Consensus::default();
    assert_eq!(consensus.state(), ConsensusState::Follower);
}

#[test]
fn test_consensus_state_equality() {
    assert_eq!(ConsensusState::Follower, ConsensusState::Follower);
    assert_ne!(ConsensusState::Follower, ConsensusState::Leader);
}

#[test]
fn test_one_vote_per_term() {
    let mut consensus = Consensus::new(ConsensusConfig::new(NodeId::new()));
    let a = NodeId::from_u128(1);
    let b = NodeId::from_u128(2);
    assert!(consensus.request_vote(a, 3, 0, 0).unwrap());
    assert!(!consensus.request_vote(b, 3, 0, 0).unwrap());
    // The same candidate may ask again.
    assert!(consensus.request_vote(a, 3, 0, 0).unwrap());
    // A newer term frees the vote.
    assert!(consensus.request_vote(b, 4, 0, 0).unwrap());
}

#[test]
fn test_append_returns_index_and_hash() {
    let mut consensus = make_leader();
    assert_eq!(consensus.append(b"a".to_vec()).unwrap(), 0);
    assert_eq!(consensus.append(b"b".to_vec()).unwrap(), 1);
    assert_eq!(consensus.log_len(), 2);
    let entry = ConsensusEntry::new(0, 1, b"a".to_vec());
    assert_eq!(entry.hash.to_hex(), hash::Hash::compute(b"a").to_hex());
}

#[test]
fn test_append_entries_old_term_refused() {
    let mut consensus = Consensus::new(ConsensusConfig::new(NodeId::new()));
    consensus.request_vote(NodeId::new(), 3, 0, 0).unwrap();
    let entries = vec![ConsensusEntry::new(0, 1, b"x".to_vec())];
    assert!(!consensus.append_entries(2, 0, 0, entries, 0).unwrap());
    assert_eq!(consensus.log_len(), 0);
}

#[test]
fn test_receive_vote_wrong_term_or_state() {
    let mut consensus = Consensus::new(ConsensusConfig::new(NodeId::new()));
    // Not a candidate.
    assert!(!consensus.receive_vote(NodeId::new(), 0).unwrap());
    consensus.start_election().unwrap();
    // Wrong term.
    assert!(!consensus.receive_vote(NodeId::new(), 7).unwrap());
    assert_eq!(consensus.state(), ConsensusState::Candidate);
}

#[test]
fn test_receive_vote_counts_distinct_voters() {
    let node_id = NodeId::new();
    let config = ConsensusConfig::new(node_id).with_quorum_size(3);
    let mut consensus = Consensus::new(config);
    consensus.start_election().unwrap();
    let voter = NodeId::new();
    assert!(!consensus.receive_vote(voter, 1).unwrap());
    // The same voter twice does not reach the quorum.
    assert!(!consensus.receive_vote(voter, 1).unwrap());
    assert!(consensus.receive_vote(NodeId::new(), 1).unwrap());
    assert_eq!(consensus.leader_id(), Some(node_id));
}

#[test]
fn test_commit_to_never_lowers() {
    let mut consensus = Consensus::new(ConsensusConfig::new(NodeId::new()));
    consensus.commit_to(5).unwrap();
    consensus.commit_to(3).unwrap();
    assert_eq!(consensus.commit_index(), 5);
}

#[test]
fn test_consensus_error_text() {
    assert_eq!(ConsensusError::NotLeader.to_string(), "Not a leader");
    assert_eq!(
        ConsensusError::TermMismatch { current: 2, received: 1 }.to_string(),
        "Term mismatch: current 2, received 1"
    );
    assert_eq!(ConsensusError::QuorumNotReached { have: 1, needed: 3 }.to_string(), "Quorum not reached: 1/3 votes");
    assert_eq!(ConsensusError::LogConflict { index: 9 }.to_string(), "Log conflict at index 9");
}

// ---- coordinator ----

#[test]
fn test_coordinator_config_new() {
    let node_id = NodeId::new();
    let config = CoordinatorConfig::new(node_id);
    assert_eq!(config.node_id, node_id);
    assert_eq!(config.max_concurrent, 100);
    assert_eq!(config.execution_timeout_ms, 30000);
}

#[test]
fn test_coordinator_config_with_max_concurrent() {
    let config = CoordinatorConfig::new(NodeId::new()).with_max_concurrent(50);
    assert_eq!(config.max_concurrent, 50);
}

#[test]
fn test_execution_task_new() {
    let event_id = EventId::new();
    let task = ExecutionTask::new(event_id);
    assert_eq!(task.event_id, event_id);
    assert_eq!(task.status, TaskStatus::Pending);
    assert!(task.assigned_worker.is_none());
    assert_eq!(task.retry_count, 0);
}

#[test]
fn test_execution_task_with_worker() {
    let worker_id = NodeId::new();
    let task = ExecutionTask::new(EventId::new()).with_worker(worker_id);
    assert_eq!(task.assigned_worker, Some(worker_id));
    assert_eq!(task.status, TaskStatus::Assigned);
}

#[test]
fn test_execution_result_success() {
    let result = ExecutionResult::success("task-1".to_string(), EventId::new(), hash::Hash::compute(&[]), 100);
    assert!(result.success);
    assert!(result.error.is_none());
    assert_eq!(result.execution_time_ms, 100);
}

#[test]
fn test_execution_result_failure() {
    let result = ExecutionResult::failure("task-1".to_string(), EventId::new(), "error".to_string());
    assert!(!result.success);
    assert_eq!(result.error, Some("error".to_string()));
}

#[test]
fn test_coordinator_new() {
    let node_id = NodeId::new();
    let coordinator = leader_coordinator(node_id);
    assert_eq!(coordinator.active_task_count(), 0);
    assert_eq!(coordinator.completed_task_count(), 0);
    assert_eq!(coordinator.snapshot_index(), 0);
}

#[test]
fn test_coordinator_submit() {
    let mut coordinator = leader_coordinator(NodeId::new());
    let task_id = coordinator.submit(EventId::new());
    assert!(task_id.is_ok());
}

#[test]
fn test_coordinator_submit_not_leader() {
    let mut coordinator = Coordinator::default();
    let r = coordinator.submit(EventId::new());
    assert_eq!(
        r,
        Err(CoreError::Validation { field: "leader".to_string(), reason: "Not a leader".to_string() })
    );
}

#[test]
fn test_coordinator_assign_task() {
    let mut coordinator = leader_coordinator(NodeId::new());
    let task_id = coordinator.submit(EventId::new()).unwrap();
    let worker_id = NodeId::new();
    let result = coordinator.assign_task(task_id.clone(), worker_id);
    assert!(result.is_ok());
    let task = coordinator.get_task(task_id);
    assert!(task.is_some());
    assert_eq!(task.unwrap().assigned_worker, Some(worker_id));
}

#[test]
fn test_coordinator_assign_unknown_task() {
    let mut coordinator = leader_coordinator(NodeId::new());
    let r = coordinator.assign_task("nope".to_string(), NodeId::new());
    assert_eq!(r, Err(CoreError::NotFound { kind: "task".to_string(), id: "nope".to_string() }));
}

#[test]
fn test_coordinator_create_snapshot() {
    let mut coordinator = leader_coordinator(NodeId::new());
    assert_eq!(coordinator.create_snapshot().unwrap(), 1);
    assert_eq!(coordinator.create_snapshot().unwrap(), 2);
}

#[test]
fn test_task_status_equality() {
    assert_eq!(TaskStatus::Pending, TaskStatus::Pending);
    assert_ne!(TaskStatus::Pending, TaskStatus::Running);
    assert_ne!(TaskStatus::Completed, TaskStatus::Failed);
}

fn coordinator_with_worker(own: NodeId, worker: NodeId, with_client: bool) -> Coordinator {
    let config = CoordinatorConfig::new(own);
    let consensus = Consensus::new(ConsensusConfig::new(own));
    let mut election = LeaderElection::new(
        ElectionConfig::new(own),
        Consensus::new(ConsensusConfig::new(own)),
        Membership::new(own),
    );
    election.set_state(ElectionState::Leader);
    let mut membership = Membership::new(own);
    membership.add_member(Member::new(own, "self".to_string()).with_state(MemberState::Active)).unwrap();
    membership.add_member(Member::new(worker, "w".to_string()).with_state(MemberState::Active)).unwrap();
    let mut remote = RemoteExecutor::new(own);
    if with_client {
        remote.add_client(RemoteClient::new(worker, "w".to_string())).unwrap();
    }
    Coordinator::new(config, consensus, election, membership, remote)
}

#[test]
fn test_coordinator_execute_task_success() {
    let own = NodeId::from_u128(1);
    let worker = NodeId::from_u128(2);
    let mut c = coordinator_with_worker(own, worker, true);
    let event = EventId::new();
    let id = c.submit(event).unwrap();
    assert_eq!(c.select_worker().unwrap(), worker);
    c.assign_task(id.clone(), worker).unwrap();
    let result = c.execute_task(id.clone()).unwrap();
    assert!(result.success);
    assert_eq!(result.event_id, event);
    assert_eq!(result.result_hash.to_hex(), hash::Hash::compute(b"executed").to_hex());
    assert_eq!(c.get_task(id.clone()).unwrap().status, TaskStatus::Completed);
    assert_eq!(c.completed_task_count(), 1);
    assert!(c.get_result(id).is_some());
}

#[test]
fn test_coordinator_execute_task_retry_then_fail() {
    let own = NodeId::from_u128(1);
    let worker = NodeId::from_u128(2);
    let mut c = coordinator_with_worker(own, worker, false);
    let id = c.submit(EventId::new()).unwrap();
    for attempt in 0..3 {
        c.assign_task(id.clone(), worker).unwrap();
        assert!(c.execute_task(id.clone()).is_err());
        let t = c.get_task(id.clone()).unwrap();
        assert_eq!(t.status, TaskStatus::Pending);
        assert_eq!(t.retry_count, attempt + 1);
        assert!(t.assigned_worker.is_none());
    }
    c.assign_task(id.clone(), worker).unwrap();
    assert!(c.execute_task(id.clone()).is_err());
    let t = c.get_task(id).unwrap();
    assert_eq!(t.status, TaskStatus::Failed);
    assert_eq!(t.retry_count, 3);
}

#[test]
fn test_coordinator_execute_unassigned() {
    let mut c = leader_coordinator(NodeId::new());
    let id = c.submit(EventId::new()).unwrap();
    let r = c.execute_task(id);
    assert_eq!(
        r.map(|_| ()),
        Err(CoreError::Validation { field: "assigned_worker".to_string(), reason: "Task not assigned".to_string() })
    );
}

#[test]
fn test_coordinator_select_worker_none() {
    let c = leader_coordinator(NodeId::new());
    assert!(c.select_worker().is_err());
}

#[test]
fn test_coordinator_process_pending() {
    let own = NodeId::from_u128(1);
    let worker = NodeId::from_u128(2);
    let mut c = coordinator_with_worker(own, worker, true);
    c.submit(EventId::new()).unwrap();
    c.submit(EventId::new()).unwrap();
    let results = c.process_pending().unwrap();
    assert_eq!(results.len(), 2);
    assert_eq!(c.pending_tasks().len(), 0);
    assert_eq!(c.completed_task_count(), 2);
}

#[test]
fn test_coordinator_process_pending_without_worker() {
    let mut c = leader_coordinator(NodeId::new());
    c.submit(EventId::new()).unwrap();
    assert!(c.process_pending().is_err());
    assert_eq!(c.pending_tasks().len(), 1);
}

#[test]
fn test_coordinator_is_healthy() {
    let c = leader_coordinator(NodeId::new());
    assert!(!c.is_healthy());
}

#[test]
fn test_coordinator_error_text() {
    assert_eq!(CoordinatorError::NoWorkers.to_string(), "No workers available");
    assert_eq!(CoordinatorError::Timeout(5).to_string(), "Execution timeout after 5ms");
    assert_eq!(CoordinatorError::ExecutionFailed("x".to_string()).to_string(), "Execution failed: x");
}

// ---- leader election ----

fn election(node_id: NodeId) -> LeaderElection {
    LeaderElection::new(
        ElectionConfig::new(node_id),
        Consensus::new(ConsensusConfig::new(node_id)),
        Membership::new(node_id),
    )
}

#[test]
fn test_election_config_new() {
    let node_id = NodeId::new();
    let config = ElectionConfig::new(node_id);
    assert_eq!(config.node_id, node_id);
    assert_eq!(config.election_timeout_ms, 1000);
}

#[test]
fn test_leader_election_new() {
    let e = election(NodeId::new());
    assert_eq!(e.leader(), None);
    assert!(!e.is_leader());
}

#[test]
fn leader_test_start_election() {
    let node_id = NodeId::new();
    let consensus_config = ConsensusConfig::new(node_id).with_quorum_size(1);
    let mut e = LeaderElection::new(ElectionConfig::new(node_id), Consensus::new(consensus_config), Membership::new(node_id));
    e.start_election().unwrap();
    assert_eq!(e.state(), ElectionState::InProgress);
}

#[test]
fn test_recognize_leader() {
    let mut e = election(NodeId::new());
    let leader_id = NodeId::new();
    e.recognize_leader(leader_id);
    assert_eq!(e.leader(), Some(leader_id));
    assert_eq!(e.state(), ElectionState::Follower(leader_id));
}

#[test]
fn test_step_down() {
    let mut e = election(NodeId::new());
    e.step_down();
    assert_eq!(e.leader(), None);
}

#[test]
fn test_check_timeout() {
    let node_id = NodeId::new();
    let mut config = ElectionConfig::new(node_id);
    config.election_timeout_ms = 1000;
    let e = LeaderElection::new(config, Consensus::new(ConsensusConfig::new(node_id)), Membership::new(node_id));
    assert!(e.check_timeout(0, 2000));
    assert!(!e.check_timeout(0, 1000));
}

#[test]
fn test_send_heartbeat_as_follower() {
    let e = election(NodeId::new());
    e.send_heartbeat().unwrap();
    assert!(e.heartbeat_targets().is_empty());
}

#[test]
fn test_election_state_equality() {
    assert_eq!(ElectionState::Idle, ElectionState::Idle);
    assert_ne!(ElectionState::Idle, ElectionState::Leader);
}

#[test]
fn test_election_receive_vote_wins() {
    let node_id = NodeId::new();
    let mut e = election(node_id);
    e.start_election().unwrap();
    assert!(e.receive_vote(NodeId::new(), 1).unwrap());
    assert!(e.is_leader());
    assert_eq!(e.leader(), Some(node_id));
}

#[test]
fn test_heartbeat_targets_as_leader() {
    let own = NodeId::from_u128(1);
    let other = NodeId::from_u128(2);
    let mut membership = Membership::new(own);
    membership.add_member(Member::new(own, "a".to_string())).unwrap();
    membership.add_member(Member::new(other, "b".to_string())).unwrap();
    let mut e = LeaderElection::new(ElectionConfig::new(own), Consensus::new(ConsensusConfig::new(own)), membership);
    e.set_state(ElectionState::Leader);
    let targets = e.heartbeat_targets();
    assert_eq!(targets, vec![(other, 0)]);
}

#[test]
fn test_election_error_text() {
    assert_eq!(ElectionError::NoQuorum.to_string(), "No quorum available");
    assert_eq!(ElectionError::TermChanged.to_string(), "Term changed during election");
}

// ---- membership ----

#[test]
fn test_membership_new() {
    let membership = Membership::new(NodeId::new());
    assert_eq!(membership.member_count(), 0);
}

#[test]
fn test_member_new() {
    let node_id = NodeId::new();
    let member = Member::new(node_id, "addr".to_string());
    assert_eq!(member.node_id, node_id);
    assert_eq!(member.state, MemberState::Joining);
    assert!(member.is_active() == false);
}

#[test]
fn test_member_with_state() {
    let member = Member::new(NodeId::new(), "addr".to_string()).with_state(MemberState::Active);
    assert!(member.is_active());
}

#[test]
fn test_member_with_heartbeat() {
    let member = Member::new(NodeId::new(), "addr".to_string()).with_heartbeat(12345);
    assert_eq!(member.last_heartbeat, 12345);
}

#[test]
fn test_add_member() {
    let mut membership = Membership::new(NodeId::new());
    let member = Member::new(NodeId::new(), "addr".to_string()).with_state(MemberState::Active);
    membership.add_member(member).unwrap();
    assert_eq!(membership.member_count(), 1);
    assert_eq!(membership.active_count(), 1);
}

#[test]
fn test_remove_member() {
    let mut membership = Membership::new(NodeId::new());
    let member = Member::new(NodeId::new(), "addr".to_string());
    let id = member.node_id;
    membership.add_member(member).unwrap();
    let removed = membership.remove_member(id).unwrap();
    assert!(removed);
    assert_eq!(membership.member_count(), 0);
}

#[test]
fn test_get_member() {
    let mut membership = Membership::new(NodeId::new());
    let member = Member::new(NodeId::new(), "addr".to_string());
    let id = member.node_id;
    membership.add_member(member.clone()).unwrap();
    let retrieved = membership.get_member(id);
    assert!(retrieved.is_some());
    assert_eq!(retrieved.unwrap().address, "addr");
}

#[test]
fn test_update_state() {
    let mut membership = Membership::new(NodeId::new());
    let member = Member::new(NodeId::new(), "addr".to_string());
    let id = member.node_id;
    membership.add_member(member).unwrap();
    assert!(membership.update_state(id, MemberState::Active).unwrap());
    assert!(membership.get_member(id).unwrap().is_active());
}

#[test]
fn test_update_heartbeat() {
    let mut membership = Membership::new(NodeId::new());
    let member = Member::new(NodeId::new(), "addr".to_string())
        .with_state(MemberState::Active)
        .with_heartbeat(1000);
    let id = member.node_id;
    membership.add_member(member).unwrap();
    assert!(membership.update_heartbeat(id, 2000).unwrap());
    assert_eq!(membership.get_member(id).unwrap().last_heartbeat, 2000);
}

#[test]
fn test_check_heartbeats() {
    let mut membership = Membership::new(NodeId::new());
    membership.set_heartbeat_timeout(1000);
    let member = Member::new(NodeId::new(), "addr".to_string())
        .with_state(MemberState::Active)
        .with_heartbeat(1000);
    membership.add_member(member).unwrap();
    let suspected = membership.check_heartbeats(2500).unwrap();
    assert_eq!(suspected.len(), 1);
    assert_eq!(membership.active_count(), 0);
}

#[test]
fn test_check_heartbeats_skips_own_and_recent() {
    let own = NodeId::from_u128(7);
    let mut membership = Membership::new(own);
    membership.set_heartbeat_timeout(1000);
    membership.add_member(Member::new(own, "me".to_string()).with_state(MemberState::Active)).unwrap();
    let recent = NodeId::from_u128(8);
    membership
        .add_member(Member::new(recent, "r".to_string()).with_state(MemberState::Active).with_heartbeat(2000))
        .unwrap();
    assert!(membership.check_heartbeats(2500).unwrap().is_empty());
    assert_eq!(membership.active_count(), 2);
}

#[test]
fn test_update_heartbeat_revives_suspected() {
    let mut membership = Membership::new(NodeId::new());
    let m = Member::new(NodeId::new(), "a".to_string()).with_state(MemberState::Suspected);
    let id = m.node_id;
    membership.add_member(m).unwrap();
    membership.update_heartbeat(id, 10).unwrap();
    assert!(membership.get_member(id).unwrap().is_active());
}

#[test]
fn test_has_quorum() {
    let mut membership = Membership::new(NodeId::new());
    for _ in 0..2 {
        let member = Member::new(NodeId::new(), "addr".to_string()).with_state(MemberState::Active);
        membership.add_member(member).unwrap();
    }
    assert!(membership.has_quorum(2));
    assert!(!membership.has_quorum(3));
}

#[test]
fn test_add_member_replaces_same_id() {
    let mut membership = Membership::new(NodeId::new());
    let id = NodeId::from_u128(5);
    membership.add_member(Member::new(id, "a".to_string())).unwrap();
    membership.add_member(Member::new(id, "b".to_string())).unwrap();
    assert_eq!(membership.member_count(), 1);
    assert_eq!(membership.get_member(id).unwrap().address, "b");
}

#[test]
fn test_member_state_equality() {
    assert_eq!(MemberState::Active, MemberState::Active);
    assert_ne!(MemberState::Active, MemberState::Suspected);
}

// ---- remote ----

#[test]
fn test_remote_request_new() {
    let source = NodeId::new();
    let request = RemoteRequest::new(source, EventId::new(), b"data".to_vec());
    assert_eq!(request.source, source);
    assert_eq!(request.payload, b"data");
}

#[test]
fn test_remote_response_success() {
    let response = RemoteResponse::success("req-1".to_string(), b"data".to_vec());
    assert!(response.success);
    assert!(response.error.is_none());
    assert_eq!(response.payload, b"data");
}

#[test]
fn test_remote_response_error() {
    let response = RemoteResponse::error("req-1".to_string(), "test error".to_string());
    assert!(!response.success);
    assert_eq!(response.error, Some("test error".to_string()));
}

#[test]
fn test_remote_client_new() {
    let target = NodeId::new();
    let client = RemoteClient::new(target, "127.0.0.1:8080".to_string());
    assert_eq!(client.target(), target);
    assert_eq!(client.address(), "127.0.0.1:8080");
}

#[test]
fn test_remote_client_send() {
    let client = RemoteClient::new(NodeId::new(), "127.0.0.1:8080".to_string());
    let request = RemoteRequest::new(NodeId::new(), EventId::new(), b"test".to_vec());
    let id = request.request_id.clone();
    let response = client.send(request).unwrap();
    assert!(response.success);
    assert_eq!(response.request_id, id);
    assert_eq!(response.payload, b"executed");
}

#[test]
fn test_remote_executor_new() {
    let executor = RemoteExecutor::new(NodeId::new());
    assert_eq!(executor.connection_count(), 0);
}

#[test]
fn test_remote_executor_add_client() {
    let mut executor = RemoteExecutor::new(NodeId::new());
    executor.add_client(RemoteClient::new(NodeId::new(), "addr".to_string())).unwrap();
    assert_eq!(executor.connection_count(), 1);
}

#[test]
fn test_remote_executor_get_client() {
    let mut executor = RemoteExecutor::new(NodeId::new());
    let target = NodeId::new();
    let client = RemoteClient::new(target, "addr".to_string());
    executor.add_client(client.clone()).unwrap();
    assert!(executor.get_client(target).is_some());
}

#[test]
fn test_remote_executor_remove_client() {
    let mut executor = RemoteExecutor::new(NodeId::new());
    let target = NodeId::new();
    executor.add_client(RemoteClient::new(target, "addr".to_string())).unwrap();
    assert!(executor.remove_client(target).unwrap());
    assert_eq!(executor.connection_count(), 0);
}

#[test]
fn test_remote_executor_execute_remote() {
    let mut executor = RemoteExecutor::new(NodeId::new());
    let target = NodeId::new();
    executor.add_client(RemoteClient::new(target, "addr".to_string())).unwrap();
    let request = RemoteRequest::new(NodeId::new(), EventId::new(), b"test".to_vec());
    let response = executor.execute_remote(target, request).unwrap();
    assert!(response.success);
}

#[test]
fn test_remote_executor_execute_remote_unknown() {
    let executor = RemoteExecutor::new(NodeId::new());
    let target = NodeId::from_u128(0);
    let request = RemoteRequest::new(NodeId::new(), EventId::new(), Vec::new());
    let r = executor.execute_remote(target, request);
    assert_eq!(
        r,
        Err(CoreError::NotFound {
            kind: "client".to_string(),
            id: "node_00000000-0000-0000-0000-000000000000".to_string()
        })
    );
}

#[test]
fn test_remote_broadcast() {
    let mut executor = RemoteExecutor::new(NodeId::new());
    executor.add_client(RemoteClient::new(NodeId::new(), "a".to_string())).unwrap();
    executor.add_client(RemoteClient::new(NodeId::new(), "b".to_string())).unwrap();
    let request = RemoteRequest::new(NodeId::new(), EventId::new(), Vec::new());
    assert_eq!(executor.broadcast(request).unwrap().len(), 2);
}

#[test]
fn test_transport_error_display() {
    let err = TransportError::ConnectionFailed("test".to_string());
    assert!(err.to_string().contains("Connection failed"));
    assert_eq!(TransportError::Timeout(10).to_string(), "Request timeout after 10ms");
}

#[test]
fn test_remote_client_with_timeout() {
    let client = RemoteClient::new(NodeId::new(), "addr".to_string()).with_timeout(1000);
    assert_eq!(client.timeout_ms(), 1000);
}

// ---- worker ----

fn worker_with(config: WorkerConfig) -> Worker {
    let membership = Membership::new(config.node_id);
    Worker::new(config, membership, Executor::default())
}

#[test]
fn test_worker_config_new() {
    let node_id = NodeId::new();
    let config = WorkerConfig::new(node_id, "127.0.0.1:8080".to_string());
    assert_eq!(config.node_id, node_id);
    assert_eq!(config.address, "127.0.0.1:8080");
    assert_eq!(config.max_concurrent, 10);
}

#[test]
fn test_worker_config_with_max_concurrent() {
    let config = WorkerConfig::new(NodeId::new(), "addr".to_string()).with_max_concurrent(5);
    assert_eq!(config.max_concurrent, 5);
}

#[test]
fn test_worker_config_with_capability() {
    let config = WorkerConfig::new(NodeId::new(), "addr".to_string()).with_capability("wasm".to_string());
    assert_eq!(config.capabilities, vec!["wasm"]);
}

#[test]
fn test_job_new() {
    let event_id = EventId::new();
    let request = RemoteRequest::new(NodeId::new(), event_id, b"data".to_vec());
    let job = Job::new(event_id, request);
    assert_eq!(job.status, JobStatus::Pending);
}

#[test]
fn test_job_id() {
    let event_id = EventId::new();
    let request = RemoteRequest::new(NodeId::new(), event_id, b"data".to_vec());
    let job = Job::new(event_id, request);
    assert!(!job.id().is_empty());
}

#[test]
fn test_worker_new() {
    let node_id = NodeId::new();
    let worker = worker_with(WorkerConfig::new(node_id, "addr".to_string()));
    assert_eq!(worker.node_id(), node_id);
    assert_eq!(worker.address(), "addr");
    assert_eq!(worker.active_job_count(), 0);
}

#[test]
fn test_worker_register() {
    let mut worker = worker_with(WorkerConfig::new(NodeId::new(), "addr".to_string()));
    worker.register().unwrap();
    assert!(worker.is_registered());
    assert_eq!(worker.membership().active_count(), 1);
}

#[test]
fn test_worker_unregister() {
    let mut worker = worker_with(WorkerConfig::new(NodeId::new(), "addr".to_string()));
    worker.register().unwrap();
    worker.unregister().unwrap();
    assert!(!worker.is_registered());
    assert_eq!(worker.membership().member_count(), 0);
}

#[test]
fn test_worker_heartbeat() {
    let mut worker = worker_with(WorkerConfig::new(NodeId::new(), "addr".to_string()));
    worker.register().unwrap();
    worker.heartbeat().unwrap();
}

#[test]
fn test_worker_accept_job() {
    let mut worker = worker_with(WorkerConfig::new(NodeId::new(), "addr".to_string()));
    let event_id = EventId::new();
    let request = RemoteRequest::new(NodeId::new(), event_id, b"data".to_vec());
    let job_id = worker.accept_job(event_id, request).unwrap();
    assert!(!job_id.is_empty());
    assert_eq!(worker.active_job_count(), 1);
}

#[test]
fn test_worker_accept_job_busy() {
    let mut worker = worker_with(WorkerConfig::new(NodeId::new(), "addr".to_string()).with_max_concurrent(1));
    let event_id = EventId::new();
    let request = RemoteRequest::new(NodeId::new(), event_id, b"data".to_vec());
    worker.accept_job(event_id, request.clone()).unwrap();
    let result = worker.accept_job(event_id, request);
    assert!(result.is_err());
    assert_eq!(
        result,
        Err(CoreError::Validation { field: "concurrent".to_string(), reason: "Worker busy: 1/1 jobs".to_string() })
    );
}

#[test]
fn test_worker_execute_job() {
    let mut worker = worker_with(WorkerConfig::new(NodeId::new(), "addr".to_string()));
    let event_id = EventId::new();
    let request = RemoteRequest::new(NodeId::new(), event_id, b"data".to_vec());
    let job_id = worker.accept_job(event_id, request.clone()).unwrap();
    let result = worker.execute_job(job_id.clone()).unwrap();
    assert_eq!(result, b"data");
    assert_eq!(worker.active_job_count(), 0);
    assert_eq!(worker.completed_job_count(), 1);
}

#[test]
fn test_worker_execute_unknown_job() {
    let mut worker = worker_with(WorkerConfig::new(NodeId::new(), "addr".to_string()));
    let r = worker.execute_job("missing".to_string());
    assert_eq!(r, Err(CoreError::NotFound { kind: "job".to_string(), id: "missing".to_string() }));
}

#[test]
fn test_worker_start_drain() {
    let mut worker = worker_with(WorkerConfig::new(NodeId::new(), "addr".to_string()));
    worker.start_drain();
    assert_eq!(worker.state(), WorkerState::Draining);
    assert!(!worker.can_accept_jobs());
    let event_id = EventId::new();
    let request = RemoteRequest::new(NodeId::new(), event_id, Vec::new());
    assert!(worker.accept_job(event_id, request).is_err());
}

#[test]
fn test_worker_shutdown() {
    let mut worker = worker_with(WorkerConfig::new(NodeId::new(), "addr".to_string()));
    worker.register().unwrap();
    worker.shutdown().unwrap();
    assert_eq!(worker.state(), WorkerState::Shutdown);
    assert!(!worker.is_registered());
}

#[test]
fn test_worker_stats() {
    let node_id = NodeId::new();
    let worker = worker_with(WorkerConfig::new(node_id, "addr".to_string()));
    let stats = worker.stats();
    assert_eq!(stats.node_id, node_id);
    assert_eq!(stats.active_jobs, 0);
    assert_eq!(stats.completed_jobs, 0);
    assert_eq!(stats.max_concurrent, 10);
}

#[test]
fn test_worker_can_accept_jobs_when_registered() {
    let mut worker = worker_with(WorkerConfig::new(NodeId::new(), "addr".to_string()));
    assert!(!worker.can_accept_jobs());
    worker.register().unwrap();
    assert!(worker.can_accept_jobs());
}

#[test]
fn test_worker_error_text() {
    assert_eq!(
        WorkerError::WorkerBusy { current: 2, max: 2 }.to_string(),
        "Worker busy: 2/2 concurrent executions"
    );
    assert_eq!(WorkerError::NotRegistered.to_string(), "Worker not registered with cluster");
}

#[test]
fn test_worker_state_equality() {
    assert_eq!(WorkerState::Idle, WorkerState::Idle);
    assert_ne!(WorkerState::Idle, WorkerState::Busy);
    assert_ne!(WorkerState::Draining, WorkerState::Shutdown);
}

#[test]
fn test_job_status_equality() {
    assert_eq!(JobStatus::Pending, JobStatus::Pending);
    assert_ne!(JobStatus::Pending, JobStatus::Running);
    assert_ne!(JobStatus::Completed, JobStatus::Failed);
}
