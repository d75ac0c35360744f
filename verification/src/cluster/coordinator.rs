//! The coordinator: it takes tasks while leading, hands them to workers and
//! records what they return.
use vstd::prelude::*;
use crate::cluster::consensus::{Consensus, ConsensusConfig, ConsensusView};
use crate::cluster::leader::{ElectionConfig, ElectionState, ElectionView, LeaderElection};
use crate::cluster::membership::{MemberState, MemberView, Membership, MembershipView, member_views};
use crate::cluster::remote::{RemoteClient, RemoteExecutor, RemoteRequest, executed_payload, has_client};
use crate::core_types::error::{CoreError, cat2};
use crate::core_types::hash;
use crate::core_types::hash::spec_blake3;
use crate::core_types::id::{EventId, NodeId, random_uuid, spec_uuid_text, uuid_text, spec_node_text};
use crate::core_types::text::{spec_u64_decimal, str_eq, u64_to_decimal};
use crate::core_types::time::system_time_millis;

verus! {

/// Settings of a coordinator.
#[derive(Debug, Clone, PartialEq, Eq)]
pub struct CoordinatorConfig {
    pub node_id: NodeId,
    pub max_concurrent: usize,
    pub execution_timeout_ms: u64,
    pub retry_limit: usize,
    pub snapshot_interval_ms: u64,
}

impl CoordinatorConfig {
    /// The default settings for `node_id`.
    pub fn new(node_id: NodeId) -> (c: Self)
        ensures
            c == (CoordinatorConfig {
                node_id,
                max_concurrent: 100,
                execution_timeout_ms: 30000,
                retry_limit: 3,
                snapshot_interval_ms: 60000,
            }),
    {
        CoordinatorConfig {
            node_id,
            max_concurrent: 100,
            execution_timeout_ms: 30000,
            retry_limit: 3,
            snapshot_interval_ms: 60000,
        }
    }

    /// The same settings with another concurrency limit.
    pub fn with_max_concurrent(self, max: usize) -> (c: Self)
        ensures
            c == (CoordinatorConfig { max_concurrent: max, ..self }),
    {
        CoordinatorConfig { max_concurrent: max, ..self }
    }

    /// The same settings with another execution timeout.
    pub fn with_execution_timeout(self, timeout_ms: u64) -> (c: Self)
        ensures
            c == (CoordinatorConfig { execution_timeout_ms: timeout_ms, ..self }),
    {
        CoordinatorConfig { execution_timeout_ms: timeout_ms, ..self }
    }

    /// The same settings with another retry limit.
    pub fn with_retry_limit(self, limit: usize) -> (c: Self)
        ensures
            c == (CoordinatorConfig { retry_limit: limit, ..self }),
    {
        CoordinatorConfig { retry_limit: limit, ..self }
    }
}

impl Default for CoordinatorConfig {
    /// The default settings for a fresh random node.
    fn default() -> (c: Self)
        ensures
            c.max_concurrent == 100,
            c.execution_timeout_ms == 30000,
            c.retry_limit == 3,
            c.snapshot_interval_ms == 60000,
    {
        CoordinatorConfig::new(NodeId::new())
    }
}

/// A coordinator error.
#[derive(Debug, Clone, PartialEq, Eq)]
pub enum CoordinatorError {
    NoWorkers,
    ExecutionFailed(String),
    QuorumLost,
    Timeout(u64),
    InvalidState(String),
}

/// The message of a coordinator error.
pub open spec fn spec_coordinator_error_text(e: CoordinatorError) -> Seq<char> {
    match e {
        CoordinatorError::NoWorkers => "No workers available"@,
        CoordinatorError::ExecutionFailed(m) => "Execution failed: "@ + m@,
        CoordinatorError::QuorumLost => "Quorum lost during execution"@,
        CoordinatorError::Timeout(ms) => "Execution timeout after "@ + spec_u64_decimal(ms) + "ms"@,
        CoordinatorError::InvalidState(m) => "Invalid state: "@ + m@,
    }
}

impl CoordinatorError {
    /// The error message.
    pub fn to_string(&self) -> (s: String)
        ensures
            s@ == spec_coordinator_error_text(*self),
    {
        match self {
            CoordinatorError::NoWorkers => "No workers available".to_owned(),
            CoordinatorError::ExecutionFailed(m) => cat2("Execution failed: ", m.as_str()),
            CoordinatorError::QuorumLost => "Quorum lost during execution".to_owned(),
            CoordinatorError::Timeout(ms) => {
                let d = u64_to_decimal(*ms);
                let s = cat2("Execution timeout after ", d.as_str());
                cat2(s.as_str(), "ms")
            },
            CoordinatorError::InvalidState(m) => cat2("Invalid state: ", m.as_str()),
        }
    }
}

/// The status of a task.
#[derive(Debug, Clone, Copy, PartialEq, Eq, Structural)]
pub enum TaskStatus {
    Pending,
    Assigned,
    Running,
    Completed,
    Failed,
}

/// The whole milliseconds of a duration.
///
/// Calls `Duration::as_millis`; `Duration` is opaque here, so nothing is
/// stated of the value.
#[verifier::external_body]
fn duration_millis(d: std::time::Duration) -> (m: u128) {
    d.as_millis()
}

/// A task: an event to run, the worker it went to, and how far it got.
#[derive(Debug, Clone, PartialEq, Eq)]
pub struct ExecutionTask {
    pub task_id: String,
    pub event_id: EventId,
    pub assigned_worker: Option<NodeId>,
    pub status: TaskStatus,
    pub retry_count: usize,
    pub created_at: u64,
}

impl ExecutionTask {
    /// A pending task for `event_id`, with a fresh random identifier (the
    /// text of a UUID) and the current time in milliseconds.
    pub fn new(event_id: EventId) -> (t: Self)
        ensures
            exists|v: u128| t.task_id@ == spec_uuid_text(v),
            t.event_id == event_id,
            t.assigned_worker is None,
            t.status == TaskStatus::Pending,
            t.retry_count == 0,
    {
        let v = random_uuid();
        ExecutionTask {
            task_id: uuid_text(v),
            event_id,
            assigned_worker: None,
            status: TaskStatus::Pending,
            retry_count: 0,
            created_at: system_time_millis(),
        }
    }

    /// The same task, assigned to `worker`.
    pub fn with_worker(self, worker: NodeId) -> (t: Self)
        ensures
            t == (ExecutionTask { assigned_worker: Some(worker), status: TaskStatus::Assigned, ..self }),
    {
        ExecutionTask { assigned_worker: Some(worker), status: TaskStatus::Assigned, ..self }
    }

    /// The same task with status `status`.
    pub fn with_status(self, status: TaskStatus) -> (t: Self)
        ensures
            t == (ExecutionTask { status, ..self }),
    {
        ExecutionTask { status, ..self }
    }

    /// The same task, retried once more.
    pub fn with_retry(self) -> (t: Self)
        requires
            self.retry_count < usize::MAX,
        ensures
            t == (ExecutionTask { retry_count: (self.retry_count + 1) as usize, ..self }),
    {
        let n = self.retry_count + 1;
        ExecutionTask { retry_count: n, ..self }
    }

    /// A copy of the task.
    pub fn duplicate(&self) -> (t: Self)
        ensures
            t == *self,
    {
        ExecutionTask {
            task_id: self.task_id.clone(),
            event_id: self.event_id,
            assigned_worker: self.assigned_worker,
            status: self.status,
            retry_count: self.retry_count,
            created_at: self.created_at,
        }
    }
}

/// What running a task gave.
#[derive(Debug, Clone, PartialEq, Eq)]
pub struct ExecutionResult {
    pub task_id: String,
    pub event_id: EventId,
    pub result_hash: hash::Hash,
    pub success: bool,
    pub error: Option<String>,
    pub execution_time_ms: u64,
}

impl ExecutionResult {
    /// A successful result.
    pub fn success(task_id: String, event_id: EventId, result_hash: hash::Hash, time_ms: u64) -> (r: Self)
        ensures
            r == (ExecutionResult {
                task_id,
                event_id,
                result_hash,
                success: true,
                error: None,
                execution_time_ms: time_ms,
            }),
    {
        ExecutionResult { task_id, event_id, result_hash, success: true, error: None, execution_time_ms: time_ms }
    }

    /// A failed result, with the hash of no data and no time.
    pub fn failure(task_id: String, event_id: EventId, error: String) -> (r: Self)
        ensures
            r.task_id == task_id,
            r.event_id == event_id,
            r.result_hash@ == spec_blake3(Seq::empty()),
            !r.success,
            r.error == Some(error),
            r.execution_time_ms == 0,
    {
        let empty: [u8; 0] = [];
        let h = hash::Hash::compute(&empty);
        proof {
            assert(empty@ =~= Seq::<u8>::empty());
        }
        ExecutionResult { task_id, event_id, result_hash: h, success: false, error: Some(error), execution_time_ms: 0 }
    }

    /// A copy of the result.
    pub fn duplicate(&self) -> (r: Self)
        ensures
            r == *self,
    {
        ExecutionResult {
            task_id: self.task_id.clone(),
            event_id: self.event_id,
            result_hash: self.result_hash,
            success: self.success,
            error: match &self.error {
                Some(e) => Some(e.clone()),
                None => None,
            },
            execution_time_ms: self.execution_time_ms,
        }
    }
}

/// Whether a task with identifier `id` is known.
pub open spec fn has_task(ts: Seq<ExecutionTask>, id: Seq<char>) -> bool {
    exists|i: int| 0 <= i < ts.len() && #[trigger] ts[i].task_id@ == id
}

/// The position of the task with identifier `id`.
pub open spec fn task_at(ts: Seq<ExecutionTask>, id: Seq<char>) -> int {
    choose|i: int| 0 <= i < ts.len() && #[trigger] ts[i].task_id@ == id
}

/// The tasks' identifiers.
pub open spec fn task_keys(ts: Seq<ExecutionTask>) -> Seq<Seq<char>> {
    ts.map_values(|t: ExecutionTask| t.task_id@)
}

/// The tasks after recording `t`: it replaces the task with its identifier,
/// or comes last.
pub open spec fn spec_put_task(ts: Seq<ExecutionTask>, t: ExecutionTask) -> Seq<ExecutionTask> {
    if has_task(ts, t.task_id@) {
        ts.update(task_at(ts, t.task_id@), t)
    } else {
        ts.push(t)
    }
}

/// Whether a result for the task `id` is known.
pub open spec fn has_result(rs: Seq<ExecutionResult>, id: Seq<char>) -> bool {
    exists|i: int| 0 <= i < rs.len() && #[trigger] rs[i].task_id@ == id
}

/// The position of the result for the task `id`.
pub open spec fn result_at(rs: Seq<ExecutionResult>, id: Seq<char>) -> int {
    choose|i: int| 0 <= i < rs.len() && #[trigger] rs[i].task_id@ == id
}

/// The results' task identifiers.
pub open spec fn result_keys(rs: Seq<ExecutionResult>) -> Seq<Seq<char>> {
    rs.map_values(|r: ExecutionResult| r.task_id@)
}

/// The results after recording `r`: it replaces the result of its task, or
/// comes last.
pub open spec fn spec_put_result(rs: Seq<ExecutionResult>, r: ExecutionResult) -> Seq<ExecutionResult> {
    if has_result(rs, r.task_id@) {
        rs.update(result_at(rs, r.task_id@), r)
    } else {
        rs.push(r)
    }
}

/// The results after recording each of `new` in turn.
pub open spec fn spec_put_results(rs: Seq<ExecutionResult>, new: Seq<ExecutionResult>) -> Seq<ExecutionResult>
    decreases new.len(),
{
    if new.len() == 0 {
        rs
    } else {
        spec_put_result(spec_put_results(rs, new.drop_last()), new.last())
    }
}

/// A task after a failed run: back to pending without a worker while retries
/// remain, failed otherwise.
pub open spec fn spec_fail(t: ExecutionTask, limit: usize) -> ExecutionTask {
    if t.retry_count < limit {
        ExecutionTask {
            status: TaskStatus::Pending,
            assigned_worker: None,
            retry_count: (t.retry_count + 1) as usize,
            ..t
        }
    } else {
        ExecutionTask { status: TaskStatus::Failed, ..t }
    }
}

/// Retries are bounded: a failed run of a task that has retried at most
/// `limit` times leaves it retried at most `limit` times; it goes back to
/// pending exactly when retries remain, and fails once they are used up.
pub proof fn lemma_retries_bounded(t: ExecutionTask, limit: usize)
    requires
        t.retry_count <= limit,
    ensures
        spec_fail(t, limit).retry_count <= limit,
        (spec_fail(t, limit).status == TaskStatus::Pending) <==> t.retry_count < limit,
        (spec_fail(t, limit).status == TaskStatus::Failed) <==> t.retry_count == limit,
        spec_fail(t, limit).task_id == t.task_id,
{
}

/// The first active member other than `own`: the worker tasks go to.
pub open spec fn spec_first_worker(ms: Seq<MemberView>, own: u128) -> Option<u128>
    decreases ms.len(),
{
    if ms.len() == 0 {
        None
    } else if ms[0].state == MemberState::Active && ms[0].node != own {
        Some(ms[0].node)
    } else {
        spec_first_worker(ms.drop_first(), own)
    }
}

/// A task after processing with worker `w`: a pending task is assigned to
/// `w` and then completes when `ok`, or fails; any other task is left.
pub open spec fn spec_settle(t: ExecutionTask, w: NodeId, ok: bool, limit: usize) -> ExecutionTask {
    if t.status != TaskStatus::Pending {
        t
    } else if ok {
        ExecutionTask { assigned_worker: Some(w), status: TaskStatus::Completed, ..t }
    } else {
        spec_fail(ExecutionTask { assigned_worker: Some(w), status: TaskStatus::Assigned, ..t }, limit)
    }
}

/// The identifiers of the pending tasks, in order.
pub open spec fn spec_pending_ids(ts: Seq<ExecutionTask>) -> Seq<Seq<char>>
    decreases ts.len(),
{
    if ts.len() == 0 {
        Seq::empty()
    } else {
        spec_pending_ids(ts.drop_last()) + (if ts.last().status == TaskStatus::Pending {
            seq![ts.last().task_id@]
        } else {
            Seq::empty()
        })
    }
}

/// Whether `r` is the result of a successful run of task `t`: same task and
/// event, success, no error, and the hash of the worker's reply.
pub open spec fn is_success_of(r: ExecutionResult, t: ExecutionTask) -> bool {
    &&& r.task_id@ == t.task_id@
    &&& r.event_id == t.event_id
    &&& r.success
    &&& r.error is None
    &&& r.result_hash@ == spec_blake3(executed_payload())
}

/// What a coordinator holds, as plain values.
pub struct CoordinatorView {
    pub config: CoordinatorConfig,
    pub consensus: ConsensusView,
    pub election: ElectionView,
    pub membership: MembershipView,
    pub clients: Seq<RemoteClient>,
    pub tasks: Seq<ExecutionTask>,
    pub completed: Seq<ExecutionResult>,
    pub snapshot: u64,
}

/// The coordinator of a cluster: the tasks it took, one per identifier, and
/// the results of those that completed, one per task.
pub struct Coordinator {
    config: CoordinatorConfig,
    consensus: Consensus,
    election: LeaderElection,
    membership: Membership,
    remote: RemoteExecutor,
    tasks: Vec<ExecutionTask>,
    completed: Vec<ExecutionResult>,
    snapshot_index: u64,
}

impl View for Coordinator {
    type V = CoordinatorView;

    closed spec fn view(&self) -> CoordinatorView {
        CoordinatorView {
            config: self.config,
            consensus: self.consensus@,
            election: self.election@,
            membership: self.membership@,
            clients: self.remote.clients_spec(),
            tasks: self.tasks@,
            completed: self.completed@,
            snapshot: self.snapshot_index,
        }
    }
}

/// Keys with no repeats.
pub(crate) proof fn lemma_put_keeps_unique<A>(ks: Seq<A>, k: int, a: A)
    requires
        ks.no_duplicates(),
        0 <= k <= ks.len(),
        k < ks.len() ==> ks[k] == a,
        k == ks.len() ==> !ks.contains(a),
    ensures
        (if k < ks.len() {
            ks.update(k, a)
        } else {
            ks.push(a)
        }).no_duplicates(),
{
    if k < ks.len() {
        assert(ks.update(k, a) =~= ks);
    } else {
        let s = ks.push(a);
        assert forall|i: int, j: int| 0 <= i < s.len() && 0 <= j < s.len() && i != j implies s[i] != s[j] by {
            if i < ks.len() && j < ks.len() {
                assert(s[i] == ks[i] && s[j] == ks[j]);
            } else if i < ks.len() {
                assert(s[i] == ks[i]);
            } else {
                assert(s[j] == ks[j]);
            }
        }
    }
}

impl Coordinator {
    #[verifier::type_invariant]
    closed spec fn wf(self) -> bool {
        &&& task_keys(self.tasks@).no_duplicates()
        &&& result_keys(self.completed@).no_duplicates()
    }

    /// A coordinator with no tasks, no results and snapshot index 0.
    pub fn new(
        config: CoordinatorConfig,
        consensus: Consensus,
        election: LeaderElection,
        membership: Membership,
        remote: RemoteExecutor,
    ) -> (c: Self)
        ensures
            c@ == (CoordinatorView {
                config,
                consensus: consensus@,
                election: election@,
                membership: membership@,
                clients: remote.clients_spec(),
                tasks: Seq::empty(),
                completed: Seq::empty(),
                snapshot: 0,
            }),
    {
        let c = Coordinator {
            config,
            consensus,
            election,
            membership,
            remote,
            tasks: Vec::new(),
            completed: Vec::new(),
            snapshot_index: 0,
        };
        assert(task_keys(c.tasks@) =~= Seq::<Seq<char>>::empty());
        assert(result_keys(c.completed@) =~= Seq::<Seq<char>>::empty());
        c
    }

    /// The position of the task `id`.
    fn find_task(&self, id: &str) -> (r: Option<usize>)
        ensures
            r is None <==> !has_task(self@.tasks, id@),
            r matches Some(k) ==> k < self@.tasks.len() && k == task_at(self@.tasks, id@),
    {
        proof {
            use_type_invariant(self);
        }
        let ghost ts = self.tasks@;
        let mut i: usize = 0;
        while i < self.tasks.len()
            invariant
                ts == self.tasks@,
                task_keys(ts).no_duplicates(),
                i <= ts.len(),
                forall|j: int| 0 <= j < i ==> ts[j].task_id@ != id@,
            decreases ts.len() - i,
        {
            if str_eq(self.tasks[i].task_id.as_str(), id) {
                proof {
                    let k = task_at(ts, id@);
                    assert(ts[i as int].task_id@ == id@);
                    if k != i {
                        assert(task_keys(ts)[k] == task_keys(ts)[i as int]);
                    }
                }
                return Some(i);
            }
            i = i + 1;
        }
        None
    }

    /// The position of the result of task `id`.
    fn find_result(&self, id: &str) -> (r: Option<usize>)
        ensures
            r is None <==> !has_result(self@.completed, id@),
            r matches Some(k) ==> k < self@.completed.len() && k == result_at(self@.completed, id@),
    {
        proof {
            use_type_invariant(self);
        }
        let ghost rs = self.completed@;
        let mut i: usize = 0;
        while i < self.completed.len()
            invariant
                rs == self.completed@,
                result_keys(rs).no_duplicates(),
                i <= rs.len(),
                forall|j: int| 0 <= j < i ==> rs[j].task_id@ != id@,
            decreases rs.len() - i,
        {
            if str_eq(self.completed[i].task_id.as_str(), id) {
                proof {
                    let k = result_at(rs, id@);
                    assert(rs[i as int].task_id@ == id@);
                    if k != i {
                        assert(result_keys(rs)[k] == result_keys(rs)[i as int]);
                    }
                }
                return Some(i);
            }
            i = i + 1;
        }
        None
    }

    /// Records `t`, replacing the task with its identifier.
    fn put_task(&mut self, t: ExecutionTask)
        ensures
            final(self)@ == (CoordinatorView { tasks: spec_put_task(old(self)@.tasks, t), ..old(self)@ }),
    {
        proof {
            use_type_invariant(&*self);
        }
        let ghost ts = self.tasks@;
        let found = self.find_task(t.task_id.as_str());
        let mut v: Vec<ExecutionTask> = Vec::new();
        std::mem::swap(&mut v, &mut self.tasks);
        let ghost tv = t;
        match found {
            Some(k) => {
                v.set(k, t);
                proof {
                    lemma_put_keeps_unique(task_keys(ts), k as int, tv.task_id@);
                    assert(task_keys(v@) =~= task_keys(ts).update(k as int, tv.task_id@));
                }
            },
            None => {
                v.push(t);
                proof {
                    assert(!task_keys(ts).contains(tv.task_id@)) by {
                        if task_keys(ts).contains(tv.task_id@) {
                            let j = choose|j: int| 0 <= j < ts.len() && task_keys(ts)[j] == tv.task_id@;
                            assert(ts[j].task_id@ == tv.task_id@);
                        }
                    }
                    lemma_put_keeps_unique(task_keys(ts), ts.len() as int, tv.task_id@);
                    assert(task_keys(v@) =~= task_keys(ts).push(tv.task_id@));
                }
            },
        }
        self.tasks = v;
    }

    /// Puts `t`, which keeps the identifier, at position `k`.
    fn set_task(&mut self, k: usize, t: ExecutionTask)
        requires
            k < old(self)@.tasks.len(),
            t.task_id@ == old(self)@.tasks[k as int].task_id@,
        ensures
            final(self)@ == (CoordinatorView { tasks: old(self)@.tasks.update(k as int, t), ..old(self)@ }),
    {
        proof {
            use_type_invariant(&*self);
        }
        let ghost ts = self.tasks@;
        let mut v: Vec<ExecutionTask> = Vec::new();
        std::mem::swap(&mut v, &mut self.tasks);
        let ghost tv = t;
        v.set(k, t);
        proof {
            assert(task_keys(v@) =~= task_keys(ts));
        }
        self.tasks = v;
    }

    /// Records `r`, replacing the result of its task.
    fn put_result(&mut self, r: ExecutionResult)
        ensures
            final(self)@ == (CoordinatorView { completed: spec_put_result(old(self)@.completed, r), ..old(self)@ }),
    {
        proof {
            use_type_invariant(&*self);
        }
        let ghost rs = self.completed@;
        let found = self.find_result(r.task_id.as_str());
        let mut v: Vec<ExecutionResult> = Vec::new();
        std::mem::swap(&mut v, &mut self.completed);
        let ghost rv = r;
        match found {
            Some(k) => {
                v.set(k, r);
                proof {
                    lemma_put_keeps_unique(result_keys(rs), k as int, rv.task_id@);
                    assert(result_keys(v@) =~= result_keys(rs).update(k as int, rv.task_id@));
                }
            },
            None => {
                v.push(r);
                proof {
                    assert(!result_keys(rs).contains(rv.task_id@)) by {
                        if result_keys(rs).contains(rv.task_id@) {
                            let j = choose|j: int| 0 <= j < rs.len() && result_keys(rs)[j] == rv.task_id@;
                            assert(rs[j].task_id@ == rv.task_id@);
                        }
                    }
                    lemma_put_keeps_unique(result_keys(rs), rs.len() as int, rv.task_id@);
                    assert(result_keys(v@) =~= result_keys(rs).push(rv.task_id@));
                }
            },
        }
        self.completed = v;
    }

    /// Takes a task for `event_id` while leading; the result is the new
    /// task's identifier.
    pub fn submit(&mut self, event_id: EventId) -> (r: Result<String, CoreError>)
        ensures
            old(self)@.election.state != ElectionState::Leader ==> {
                &&& r matches Err(CoreError::Validation { field, reason }) && field@ == "leader"@ && reason@
                    == "Not a leader"@
                &&& final(self)@ == old(self)@
            },
            old(self)@.election.state == ElectionState::Leader ==> (r matches Ok(id) && exists|t: ExecutionTask|
                {
                    &&& t.task_id@ == id@
                    &&& t.event_id == event_id
                    &&& t.assigned_worker is None
                    &&& t.status == TaskStatus::Pending
                    &&& t.retry_count == 0
                    &&& final(self)@ == (CoordinatorView {
                        tasks: spec_put_task(old(self)@.tasks, t),
                        ..old(self)@
                    })
                }),
    {
        if !self.election.is_leader() {
            return Err(CoreError::Validation { field: "leader".to_owned(), reason: "Not a leader".to_owned() });
        }
        let task = ExecutionTask::new(event_id);
        let id = task.task_id.clone();
        let ghost t = task;
        self.put_task(task);
        proof {
            assert(t.task_id@ == id@);
        }
        Ok(id)
    }

    /// Assigns task `task_id` to `worker_id`.
    pub fn assign_task(&mut self, task_id: String, worker_id: NodeId) -> (r: Result<(), CoreError>)
        ensures
            !has_task(old(self)@.tasks, task_id@) ==> {
                &&& r matches Err(CoreError::NotFound { kind, id }) && kind@ == "task"@ && id@ == task_id@
                &&& final(self)@ == old(self)@
            },
            has_task(old(self)@.tasks, task_id@) ==> {
                let k = task_at(old(self)@.tasks, task_id@);
                &&& r is Ok
                &&& final(self)@ == (CoordinatorView {
                    tasks: old(self)@.tasks.update(
                        k,
                        ExecutionTask {
                            assigned_worker: Some(worker_id),
                            status: TaskStatus::Assigned,
                            ..old(self)@.tasks[k]
                        },
                    ),
                    ..old(self)@
                })
            },
    {
        match self.find_task(task_id.as_str()) {
            Some(k) => {
                self.assign_at(k, worker_id);
                Ok(())
            },
            None => Err(CoreError::NotFound { kind: "task".to_owned(), id: task_id }),
        }
    }

    /// Assigns the task at position `k` to `worker_id`.
    fn assign_at(&mut self, k: usize, worker_id: NodeId)
        requires
            k < old(self)@.tasks.len(),
        ensures
            final(self)@ == (CoordinatorView {
                tasks: old(self)@.tasks.update(
                    k as int,
                    ExecutionTask {
                        assigned_worker: Some(worker_id),
                        status: TaskStatus::Assigned,
                        ..old(self)@.tasks[k as int]
                    },
                ),
                ..old(self)@
            }),
    {
        let mut t = self.tasks[k].duplicate();
        t.assigned_worker = Some(worker_id);
        t.status = TaskStatus::Assigned;
        self.set_task(k, t);
    }

    /// Copies of the pending tasks, in order.
    pub fn pending_tasks(&self) -> (v: Vec<ExecutionTask>)
        ensures
            v@ == self@.tasks.filter(|t: ExecutionTask| t.status == TaskStatus::Pending),
    {
        let ghost ts = self.tasks@;
        let mut v: Vec<ExecutionTask> = Vec::new();
        let mut i: usize = 0;
        while i < self.tasks.len()
            invariant
                ts == self.tasks@,
                i <= ts.len(),
                v@ == ts.take(i as int).filter(|t: ExecutionTask| t.status == TaskStatus::Pending),
            decreases ts.len() - i,
        {
            proof {
                reveal(Seq::filter);
                assert(ts.take(i + 1).drop_last() =~= ts.take(i as int));
            }
            if self.tasks[i].status == TaskStatus::Pending {
                v.push(self.tasks[i].duplicate());
            }
            i = i + 1;
        }
        assert(ts.take(i as int) =~= ts);
        v
    }

    /// The worker for the next task: the first active member other than
    /// this coordinator.
    pub fn select_worker(&self) -> (r: Result<NodeId, CoreError>)
        ensures
            spec_first_worker(self@.membership.members, self@.config.node_id.value) is None ==> (r matches Err(
                CoreError::Validation { field, reason },
            ) && field@ == "workers"@ && reason@ == "No workers available"@),
            spec_first_worker(self@.membership.members, self@.config.node_id.value) matches Some(w) ==> (r matches Ok(
                n,
            ) && n.value == w),
    {
        let members = self.membership.members();
        let own = self.config.node_id;
        let ghost ms = self@.membership.members;
        let mut i: usize = 0;
        assert(ms.subrange(0, ms.len() as int) =~= ms);
        while i < members.len()
            invariant
                member_views(members@) == ms,
                ms == self@.membership.members,
                own == self@.config.node_id,
                i <= ms.len(),
                spec_first_worker(ms, own.value) == spec_first_worker(ms.subrange(i as int, ms.len() as int), own.value),
            decreases ms.len() - i,
        {
            let ghost rest = ms.subrange(i as int, ms.len() as int);
            assert(rest[0] == members@[i as int]@);
            assert(rest.drop_first() =~= ms.subrange(i + 1, ms.len() as int));
            if members[i].state == MemberState::Active && members[i].node_id != own {
                assert(spec_first_worker(rest, own.value) == Some(rest[0].node));
                return Ok(members[i].node_id);
            }
            i = i + 1;
        }
        assert(ms.subrange(i as int, ms.len() as int) =~= Seq::<MemberView>::empty());
        Err(CoreError::Validation { field: "workers".to_owned(), reason: "No workers available".to_owned() })
    }

    /// Runs the task at position `k` on its worker.
    fn execute_at(&mut self, k: usize) -> (r: Result<ExecutionResult, CoreError>)
        requires
            k < old(self)@.tasks.len(),
            old(self)@.tasks[k as int].assigned_worker is Some,
        ensures
            ({
                let t = old(self)@.tasks[k as int];
                let w = t.assigned_worker->0;
                &&& has_client(old(self)@.clients, w.value) ==> (r matches Ok(res) && is_success_of(res, t)
                    && final(self)@ == (CoordinatorView {
                    tasks: old(self)@.tasks.update(k as int, ExecutionTask { status: TaskStatus::Completed, ..t }),
                    completed: spec_put_result(old(self)@.completed, res),
                    ..old(self)@
                }))
                &&& !has_client(old(self)@.clients, w.value) ==> (r matches Err(CoreError::NotFound { kind, id })
                    && kind@ == "client"@ && id@ == spec_node_text(w.value) && final(self)@ == (CoordinatorView {
                    tasks: old(self)@.tasks.update(k as int, spec_fail(t, old(self)@.config.retry_limit)),
                    ..old(self)@
                }))
            }),
    {
        let ghost t0 = self.tasks@[k as int];
        let worker = match self.tasks[k].assigned_worker {
            Some(w) => w,
            None => {
                return Err(CoreError::Internal { message: "unassigned".to_owned() });
            },
        };
        let event_id = self.tasks[k].event_id;
        let start = crate::runtime::monitor::instant_now();
        let mut t = self.tasks[k].duplicate();
        t.status = TaskStatus::Running;
        self.set_task(k, t);
        let request = RemoteRequest::new(self.config.node_id, event_id, Vec::new());
        match self.remote.execute_remote(worker, request) {
            Ok(response) => {
                let elapsed = duration_millis(crate::runtime::monitor::elapsed_since(&start));
                let task_id = self.tasks[k].task_id.clone();
                let result = ExecutionResult::success(
                    task_id,
                    event_id,
                    hash::Hash::compute(response.payload.as_slice()),
                    elapsed as u64,
                );
                let mut t = self.tasks[k].duplicate();
                t.status = TaskStatus::Completed;
                self.set_task(k, t);
                let stored = result.duplicate();
                self.put_result(stored);
                proof {
                    assert(self@.tasks =~= old(self)@.tasks.update(
                        k as int,
                        ExecutionTask { status: TaskStatus::Completed, ..t0 },
                    ));
                }
                Ok(result)
            },
            Err(e) => {
                let mut t = self.tasks[k].duplicate();
                t.status = TaskStatus::Failed;
                if t.retry_count < self.config.retry_limit {
                    t.status = TaskStatus::Pending;
                    t.assigned_worker = None;
                    t.retry_count = t.retry_count + 1;
                }
                self.set_task(k, t);
                proof {
                    assert(self@.tasks =~= old(self)@.tasks.update(k as int, spec_fail(t0, old(self)@.config.retry_limit)));
                }
                Err(e)
            },
        }
    }

    /// Runs task `task_id` on the worker it is assigned to. A worker without
    /// a client fails the run: the task goes back to pending without a
    /// worker while retries remain, and fails otherwise.
    pub fn execute_task(&mut self, task_id: String) -> (r: Result<ExecutionResult, CoreError>)
        ensures
            !has_task(old(self)@.tasks, task_id@) ==> {
                &&& r matches Err(CoreError::NotFound { kind, id }) && kind@ == "task"@ && id@ == task_id@
                &&& final(self)@ == old(self)@
            },
            has_task(old(self)@.tasks, task_id@) ==> ({
                let k = task_at(old(self)@.tasks, task_id@);
                let t = old(self)@.tasks[k];
                &&& t.assigned_worker is None ==> {
                    &&& r matches Err(CoreError::Validation { field, reason }) && field@ == "assigned_worker"@
                        && reason@ == "Task not assigned"@
                    &&& final(self)@ == old(self)@
                }
                &&& t.assigned_worker matches Some(w) ==> {
                    &&& has_client(old(self)@.clients, w.value) ==> (r matches Ok(res) && is_success_of(res, t)
                        && final(self)@ == (CoordinatorView {
                        tasks: old(self)@.tasks.update(k, ExecutionTask { status: TaskStatus::Completed, ..t }),
                        completed: spec_put_result(old(self)@.completed, res),
                        ..old(self)@
                    }))
                    &&& !has_client(old(self)@.clients, w.value) ==> (r matches Err(CoreError::NotFound { kind, id })
                        && kind@ == "client"@ && id@ == spec_node_text(w.value) && final(self)@ == (CoordinatorView {
                        tasks: old(self)@.tasks.update(k, spec_fail(t, old(self)@.config.retry_limit)),
                        ..old(self)@
                    }))
                }
            }),
    {
        match self.find_task(task_id.as_str()) {
            None => Err(CoreError::NotFound { kind: "task".to_owned(), id: task_id }),
            Some(k) => {
                if self.tasks[k].assigned_worker.is_none() {
                    return Err(
                        CoreError::Validation {
                            field: "assigned_worker".to_owned(),
                            reason: "Task not assigned".to_owned(),
                        },
                    );
                }
                self.execute_at(k)
            },
        }
    }

    /// A copy of task `task_id`.
    pub fn get_task(&self, task_id: String) -> (r: Option<ExecutionTask>)
        ensures
            r is None <==> !has_task(self@.tasks, task_id@),
            r matches Some(t) ==> t == self@.tasks[task_at(self@.tasks, task_id@)],
    {
        match self.find_task(task_id.as_str()) {
            Some(k) => Some(self.tasks[k].duplicate()),
            None => None,
        }
    }

    /// A copy of the result of task `task_id`.
    pub fn get_result(&self, task_id: String) -> (r: Option<ExecutionResult>)
        ensures
            r is None <==> !has_result(self@.completed, task_id@),
            r matches Some(res) ==> res == self@.completed[result_at(self@.completed, task_id@)],
    {
        match self.find_result(task_id.as_str()) {
            Some(k) => Some(self.completed[k].duplicate()),
            None => None,
        }
    }

    /// Takes the next snapshot; the result is its index.
    pub fn create_snapshot(&mut self) -> (r: Result<u64, CoreError>)
        requires
            old(self)@.snapshot < u64::MAX,
        ensures
            r == Ok::<u64, CoreError>((old(self)@.snapshot + 1) as u64),
            final(self)@ == (CoordinatorView { snapshot: (old(self)@.snapshot + 1) as u64, ..old(self)@ }),
    {
        proof {
            use_type_invariant(&*self);
        }
        self.snapshot_index = self.snapshot_index + 1;
        Ok(self.snapshot_index)
    }

    /// The index of the last snapshot.
    pub fn snapshot_index(&self) -> (n: u64)
        ensures
            n == self@.snapshot,
    {
        self.snapshot_index
    }

    /// The number of tasks assigned or running.
    pub fn active_task_count(&self) -> (n: usize)
        ensures
            n == self@.tasks.filter(
                |t: ExecutionTask| t.status == TaskStatus::Running || t.status == TaskStatus::Assigned,
            ).len(),
    {
        let ghost ts = self.tasks@;
        let mut n: usize = 0;
        let mut i: usize = 0;
        while i < self.tasks.len()
            invariant
                ts == self.tasks@,
                i <= ts.len(),
                n <= i,
                n == ts.take(i as int).filter(
                    |t: ExecutionTask| t.status == TaskStatus::Running || t.status == TaskStatus::Assigned,
                ).len(),
            decreases ts.len() - i,
        {
            proof {
                reveal(Seq::filter);
                assert(ts.take(i + 1).drop_last() =~= ts.take(i as int));
            }
            if self.tasks[i].status == TaskStatus::Running || self.tasks[i].status == TaskStatus::Assigned {
                n = n + 1;
            }
            i = i + 1;
        }
        assert(ts.take(i as int) =~= ts);
        n
    }

    /// The number of results.
    pub fn completed_task_count(&self) -> (n: usize)
        ensures
            n == self@.completed.len(),
    {
        self.completed.len()
    }

    /// Runs every pending task, in order, on the selected worker; a failed
    /// run is left out of the results. Without a worker, the first pending
    /// task stops the processing with that error.
    pub fn process_pending(&mut self) -> (r: Result<Vec<ExecutionResult>, CoreError>)
        ensures
            ({
                let w = spec_first_worker(old(self)@.membership.members, old(self)@.config.node_id.value);
                let pending = spec_pending_ids(old(self)@.tasks);
                &&& w is None && pending.len() > 0 ==> {
                    &&& r matches Err(CoreError::Validation { field, reason }) && field@ == "workers"@ && reason@
                        == "No workers available"@
                    &&& final(self)@ == old(self)@
                }
                &&& (w is Some || pending.len() == 0) ==> (r matches Ok(rs) && {
                    let wid = NodeId { value: w->0 };
                    let ok = w is Some && has_client(old(self)@.clients, w->0);
                    &&& final(self)@ == (CoordinatorView {
                        tasks: old(self)@.tasks.map_values(
                            |t: ExecutionTask| spec_settle(t, wid, ok, old(self)@.config.retry_limit),
                        ),
                        completed: spec_put_results(old(self)@.completed, rs@),
                        ..old(self)@
                    })
                    &&& rs@.map_values(|x: ExecutionResult| x.task_id@) == (if ok {
                        pending
                    } else {
                        Seq::empty()
                    })
                    &&& forall|i: int|
                        0 <= i < rs@.len() ==> (#[trigger] rs@[i]).success && rs@[i].result_hash@ == spec_blake3(
                            executed_payload(),
                        )
                })
            }),
    {
        let ghost old_v = self@;
        let ghost ts = self@.tasks;
        let ghost w = spec_first_worker(old_v.membership.members, old_v.config.node_id.value);
        let ghost wid = NodeId { value: w->0 };
        let ghost ok = w is Some && has_client(old_v.clients, w->0);
        let limit = self.config.retry_limit;
        let mut results: Vec<ExecutionResult> = Vec::new();
        let mut i: usize = 0;
        while i < self.tasks.len()
            invariant
                self@.tasks.len() == ts.len(),
                old_v == old(self)@,
                ts == old_v.tasks,
                limit == old_v.config.retry_limit,
                w == spec_first_worker(old_v.membership.members, old_v.config.node_id.value),
                wid == (NodeId { value: w->0 }),
                ok == (w is Some && has_client(old_v.clients, w->0)),
                i <= ts.len(),
                forall|j: int| 0 <= j < i ==> #[trigger] self@.tasks[j] == spec_settle(ts[j], wid, ok, limit),
                forall|j: int| i <= j < ts.len() ==> #[trigger] self@.tasks[j] == ts[j],
                self@ == (CoordinatorView { tasks: self@.tasks, completed: self@.completed, ..old_v }),
                self@.completed == spec_put_results(old_v.completed, results@),
                results@.map_values(|x: ExecutionResult| x.task_id@) == (if ok {
                    spec_pending_ids(ts.take(i as int))
                } else {
                    Seq::empty()
                }),
                forall|j: int|
                    0 <= j < results@.len() ==> (#[trigger] results@[j]).success && results@[j].result_hash@
                        == spec_blake3(executed_payload()),
                !ok ==> results@.len() == 0,
                (w is None && spec_pending_ids(ts.take(i as int)).len() == 0) ==> self@ == old_v,
                w is None ==> spec_pending_ids(ts.take(i as int)).len() == 0,
            decreases ts.len() - i,
        {
            proof {
                assert(ts.take(i + 1).drop_last() =~= ts.take(i as int));
                assert(self@.tasks[i as int] == ts[i as int]);
            }
            let ghost before = self@.tasks;
            let ghost rbefore = results@;
            if self.tasks[i].status == TaskStatus::Pending {
                let worker = match self.select_worker() {
                    Ok(n) => n,
                    Err(e) => {
                        proof {
                            assert(spec_pending_ids(ts.take(i + 1)).len() > 0);
                            lemma_pending_ids_prefix(ts, i as int + 1);
                            assert(self@ == old_v);
                        }
                        return Err(e);
                    },
                };
                self.assign_at(i, worker);
                let res = self.execute_at(i);
                proof {
                    assert(self@.tasks =~= before.update(i as int, spec_settle(ts[i as int], wid, ok, limit)));
                }
                match res {
                    Ok(r) => {
                        results.push(r);
                        proof {
                            assert(results@.drop_last() =~= rbefore);
                            assert(results@.map_values(|x: ExecutionResult| x.task_id@) =~= rbefore.map_values(
                                |x: ExecutionResult| x.task_id@,
                            ).push(ts[i as int].task_id@));
                        }
                    },
                    Err(_) => {},
                }
            } else {
                proof {
                    assert(spec_settle(ts[i as int], wid, ok, limit) == ts[i as int]);
                }
            }
            i = i + 1;
        }
        proof {
            assert(ts.take(i as int) =~= ts);
            assert(self@.tasks =~= ts.map_values(|t: ExecutionTask| spec_settle(t, wid, ok, limit)));
        }
        Ok(results)
    }

    /// Whether a leader is known and at least two members are active.
    pub fn is_healthy(&self) -> (b: bool)
        ensures
            b == (self@.election.leader is Some && crate::cluster::membership::spec_active(
                self@.membership.members,
            ).len() >= 2),
    {
        let has_leader = self.election.leader().is_some();
        let has_quorum = self.membership.active_count() >= 2;
        has_leader && has_quorum
    }
}

/// The pending identifiers of a prefix are a prefix of those of the whole.
proof fn lemma_pending_ids_prefix(ts: Seq<ExecutionTask>, n: int)
    requires
        0 <= n <= ts.len(),
    ensures
        spec_pending_ids(ts.take(n)).len() <= spec_pending_ids(ts).len(),
    decreases ts.len() - n,
{
    if n < ts.len() {
        lemma_pending_ids_prefix(ts, n + 1);
        assert(ts.take(n + 1).drop_last() =~= ts.take(n));
    } else {
        assert(ts.take(n) =~= ts);
    }
}

impl Default for Coordinator {
    /// A coordinator for a fresh random node, with default parts.
    fn default() -> (c: Self)
        ensures
            c@.tasks.len() == 0,
            c@.completed.len() == 0,
            c@.snapshot == 0,
    {
        let config = CoordinatorConfig::default();
        let consensus = Consensus::default();
        let election = LeaderElection::default();
        let membership = Membership::default();
        let remote = RemoteExecutor::default();
        Coordinator::new(config, consensus, election, membership, remote)
    }
}

} // verus!
