//! A worker: it joins the cluster, takes jobs up to its limit and runs them.
use vstd::prelude::*;
use crate::cluster::coordinator::lemma_put_keeps_unique;
use crate::core_types::time::system_time_millis;
use crate::cluster::membership::{Member, MemberState, MemberView, Membership, MembershipView, has_member, member_at, spec_heartbeat, spec_put_member};
use crate::cluster::remote::RemoteRequest;
use crate::core_types::error::{CoreError, cat2, cat4};
use crate::core_types::id::{EventId, NodeId, random_uuid, spec_uuid_text, uuid_text};
use crate::core_types::text::{clone_strings, spec_decimal, str_eq, strings_view, usize_to_decimal};
use crate::runtime::executor::Executor;

verus! {

/// Settings of a worker.
#[derive(Debug, PartialEq, Eq)]
pub struct WorkerConfig {
    pub node_id: NodeId,
    pub address: String,
    pub max_concurrent: usize,
    pub execution_timeout_ms: u64,
    pub heartbeat_interval_ms: u64,
    pub capabilities: Vec<String>,
}

impl WorkerConfig {
    /// The default settings for `node_id` at `address`.
    pub fn new(node_id: NodeId, address: String) -> (c: Self)
        ensures
            c.node_id == node_id,
            c.address == address,
            c.max_concurrent == 10,
            c.execution_timeout_ms == 30000,
            c.heartbeat_interval_ms == 5000,
            c.capabilities@.len() == 0,
    {
        WorkerConfig {
            node_id,
            address,
            max_concurrent: 10,
            execution_timeout_ms: 30000,
            heartbeat_interval_ms: 5000,
            capabilities: Vec::new(),
        }
    }

    /// The same settings with another concurrency limit.
    pub fn with_max_concurrent(self, max: usize) -> (c: Self)
        ensures
            c == (WorkerConfig { max_concurrent: max, ..self }),
    {
        WorkerConfig { max_concurrent: max, ..self }
    }

    /// The same settings with another execution timeout.
    pub fn with_execution_timeout(self, timeout_ms: u64) -> (c: Self)
        ensures
            c == (WorkerConfig { execution_timeout_ms: timeout_ms, ..self }),
    {
        WorkerConfig { execution_timeout_ms: timeout_ms, ..self }
    }

    /// The same settings with one more capability, last.
    pub fn with_capability(self, capability: String) -> (c: Self)
        ensures
            c.node_id == self.node_id,
            c.address == self.address,
            c.max_concurrent == self.max_concurrent,
            c.execution_timeout_ms == self.execution_timeout_ms,
            c.heartbeat_interval_ms == self.heartbeat_interval_ms,
            c.capabilities@ == self.capabilities@.push(capability),
    {
        let mut c = self;
        c.capabilities.push(capability);
        c
    }

    /// A copy of the settings.
    pub fn duplicate(&self) -> (c: Self)
        ensures
            c.node_id == self.node_id,
            c.address == self.address,
            c.max_concurrent == self.max_concurrent,
            c.execution_timeout_ms == self.execution_timeout_ms,
            c.heartbeat_interval_ms == self.heartbeat_interval_ms,
            strings_view(c.capabilities@) == strings_view(self.capabilities@),
    {
        let caps = clone_strings(&self.capabilities);
        proof {
            assert(strings_view(caps@) =~= strings_view(self.capabilities@)) by {
                assert(caps.deep_view().len() == self.capabilities.deep_view().len());
                assert forall|i: int| 0 <= i < caps@.len() implies caps@[i]@ == self.capabilities@[i]@ by {
                    assert(caps.deep_view()[i] == self.capabilities.deep_view()[i]);
                }
            }
        }
        WorkerConfig {
            node_id: self.node_id,
            address: self.address.clone(),
            max_concurrent: self.max_concurrent,
            execution_timeout_ms: self.execution_timeout_ms,
            heartbeat_interval_ms: self.heartbeat_interval_ms,
            capabilities: caps,
        }
    }
}

impl Clone for WorkerConfig {
    fn clone(&self) -> (c: Self) {
        self.duplicate()
    }
}

impl Default for WorkerConfig {
    /// The default settings for a fresh random node at `127.0.0.1:0`.
    fn default() -> (c: Self)
        ensures
            c.address@ == "127.0.0.1:0"@,
            c.max_concurrent == 10,
    {
        WorkerConfig::new(NodeId::new(), "127.0.0.1:0".to_owned())
    }
}

/// A worker error.
#[derive(Debug, Clone, PartialEq, Eq)]
pub enum WorkerError {
    ExecutionFailed(String),
    WorkerBusy { current: usize, max: usize },
    InvalidRequest(String),
    NotRegistered,
    ShuttingDown,
}

/// The message of a worker error.
pub open spec fn spec_worker_error_text(e: WorkerError) -> Seq<char> {
    match e {
        WorkerError::ExecutionFailed(m) => "Execution failed: "@ + m@,
        WorkerError::WorkerBusy { current, max } => "Worker busy: "@ + spec_decimal(current as nat) + "/"@
            + spec_decimal(max as nat) + " concurrent executions"@,
        WorkerError::InvalidRequest(m) => "Invalid request: "@ + m@,
        WorkerError::NotRegistered => "Worker not registered with cluster"@,
        WorkerError::ShuttingDown => "Worker shutting down"@,
    }
}

impl WorkerError {
    /// The error message.
    pub fn to_string(&self) -> (s: String)
        ensures
            s@ == spec_worker_error_text(*self),
    {
        match self {
            WorkerError::ExecutionFailed(m) => cat2("Execution failed: ", m.as_str()),
            WorkerError::WorkerBusy { current, max } => {
                let c = usize_to_decimal(*current);
                let m = usize_to_decimal(*max);
                let s = cat4("Worker busy: ", c.as_str(), "/", m.as_str());
                cat2(s.as_str(), " concurrent executions")
            },
            WorkerError::InvalidRequest(m) => cat2("Invalid request: ", m.as_str()),
            WorkerError::NotRegistered => "Worker not registered with cluster".to_owned(),
            WorkerError::ShuttingDown => "Worker shutting down".to_owned(),
        }
    }
}

/// The state of a worker.
#[derive(Debug, Clone, Copy, PartialEq, Eq, Structural)]
pub enum WorkerState {
    Idle,
    Busy,
    Draining,
    Shutdown,
}

/// The status of a job.
#[derive(Debug, Clone, Copy, PartialEq, Eq, Structural)]
pub enum JobStatus {
    Pending,
    Running,
    Completed,
    Failed,
}

/// A job: a request to run an event.
#[derive(Debug, PartialEq, Eq)]
pub struct Job {
    pub job_id: String,
    pub event_id: EventId,
    pub request: RemoteRequest,
    pub status: JobStatus,
    pub started_at: u64,
}

/// What a job holds, as plain values.
pub struct JobView {
    pub id: Seq<char>,
    pub event: EventId,
    pub request_id: Seq<char>,
    pub source: NodeId,
    pub target_event: EventId,
    pub payload: Seq<u8>,
    pub status: JobStatus,
    pub started: u64,
}

impl View for Job {
    type V = JobView;

    open spec fn view(&self) -> JobView {
        JobView {
            id: self.job_id@,
            event: self.event_id,
            request_id: self.request.request_id@,
            source: self.request.source,
            target_event: self.request.event_id,
            payload: self.request.payload@,
            status: self.status,
            started: self.started_at,
        }
    }
}

/// A copy of a request.
fn copy_request(r: &RemoteRequest) -> (c: RemoteRequest)
    ensures
        c.request_id@ == r.request_id@,
        c.source == r.source,
        c.event_id == r.event_id,
        c.payload@ == r.payload@,
{
    RemoteRequest {
        request_id: r.request_id.clone(),
        source: r.source,
        event_id: r.event_id,
        payload: r.payload.clone(),
    }
}

impl Job {
    /// A pending job with a fresh random identifier (the text of a UUID),
    /// started now.
    pub fn new(event_id: EventId, request: RemoteRequest) -> (j: Self)
        ensures
            exists|v: u128| j.job_id@ == spec_uuid_text(v),
            j.event_id == event_id,
            j.request == request,
            j.status == JobStatus::Pending,
    {
        let v = random_uuid();
        Job { job_id: uuid_text(v), event_id, request, status: JobStatus::Pending, started_at: system_time_millis() }
    }

    /// The job's identifier.
    pub fn id(&self) -> (s: &str)
        ensures
            s@ == self.job_id@,
    {
        self.job_id.as_str()
    }

    /// A copy of the job.
    pub fn duplicate(&self) -> (j: Self)
        ensures
            j@ == self@,
    {
        Job {
            job_id: self.job_id.clone(),
            event_id: self.event_id,
            request: copy_request(&self.request),
            status: self.status,
            started_at: self.started_at,
        }
    }
}

impl Clone for Job {
    fn clone(&self) -> (j: Self)
        ensures
            j@ == self@,
    {
        self.duplicate()
    }
}

/// The views of a list of jobs.
pub open spec fn job_views(v: Seq<Job>) -> Seq<JobView> {
    v.map_values(|j: Job| j@)
}

/// The jobs' identifiers.
pub open spec fn job_keys(js: Seq<JobView>) -> Seq<Seq<char>> {
    js.map_values(|j: JobView| j.id)
}

/// Whether a job with identifier `id` is known.
pub open spec fn has_job(js: Seq<JobView>, id: Seq<char>) -> bool {
    exists|i: int| 0 <= i < js.len() && #[trigger] js[i].id == id
}

/// The position of the job with identifier `id`.
pub open spec fn job_at(js: Seq<JobView>, id: Seq<char>) -> int {
    choose|i: int| 0 <= i < js.len() && #[trigger] js[i].id == id
}

/// The jobs after recording `j`: it replaces the job with its identifier, or
/// comes last.
pub open spec fn spec_put_job(js: Seq<JobView>, j: JobView) -> Seq<JobView> {
    if has_job(js, j.id) {
        js.update(job_at(js, j.id), j)
    } else {
        js.push(j)
    }
}

/// The job a worker records for `request`, started at `started`.
pub open spec fn new_job(id: Seq<char>, event: EventId, request: RemoteRequest, started: u64) -> JobView {
    JobView {
        id,
        event,
        request_id: request.request_id@,
        source: request.source,
        target_event: request.event_id,
        payload: request.payload@,
        status: JobStatus::Pending,
        started,
    }
}

/// Statistics of a worker.
#[derive(Debug, Clone, PartialEq, Eq)]
pub struct WorkerStats {
    pub node_id: NodeId,
    pub state: WorkerState,
    pub active_jobs: usize,
    pub completed_jobs: usize,
    pub max_concurrent: usize,
}

/// What a worker holds, as plain values.
pub struct WorkerView {
    pub node: NodeId,
    pub address: Seq<char>,
    pub max_concurrent: usize,
    pub state: WorkerState,
    pub membership: MembershipView,
    pub jobs: Seq<JobView>,
    pub completed: Seq<JobView>,
    pub registered: bool,
    /// The executor's tick limit and whether it stops nodes missing capabilities.
    pub executor: (u64, bool),
}

/// A worker of the cluster: its active jobs and its completed jobs, one per
/// identifier each.
pub struct Worker {
    config: WorkerConfig,
    state: WorkerState,
    membership: Membership,
    jobs: Vec<Job>,
    completed: Vec<Job>,
    executor: Executor,
    registered: bool,
}

impl View for Worker {
    type V = WorkerView;

    closed spec fn view(&self) -> WorkerView {
        WorkerView {
            node: self.config.node_id,
            address: self.config.address@,
            max_concurrent: self.config.max_concurrent,
            state: self.state,
            membership: self.membership@,
            jobs: job_views(self.jobs@),
            completed: job_views(self.completed@),
            registered: self.registered,
            executor: (self.executor.max_ticks, self.executor.strict_capabilities),
        }
    }
}

/// The member a worker registers as: active, with its address, heard from
/// at `now`.
pub open spec fn registered_member(w: WorkerView, now: u64) -> MemberView {
    MemberView {
        node: w.node.value,
        state: MemberState::Active,
        address: w.address,
        last_heartbeat: now,
        capabilities: Seq::empty(),
    }
}

impl Worker {
    #[verifier::type_invariant]
    closed spec fn wf(self) -> bool {
        &&& job_keys(job_views(self.jobs@)).no_duplicates()
        &&& job_keys(job_views(self.completed@)).no_duplicates()
    }

    /// An idle, unregistered worker without jobs.
    pub fn new(config: WorkerConfig, membership: Membership, executor: Executor) -> (w: Self)
        ensures
            w@ == (WorkerView {
                node: config.node_id,
                address: config.address@,
                max_concurrent: config.max_concurrent,
                state: WorkerState::Idle,
                membership: membership@,
                jobs: Seq::empty(),
                completed: Seq::empty(),
                registered: false,
                executor: (executor.max_ticks, executor.strict_capabilities),
            }),
    {
        let w = Worker {
            config,
            state: WorkerState::Idle,
            membership,
            jobs: Vec::new(),
            completed: Vec::new(),
            executor,
            registered: false,
        };
        assert(job_views(w.jobs@) =~= Seq::<JobView>::empty());
        assert(job_keys(job_views(w.jobs@)) =~= Seq::<Seq<char>>::empty());
        w
    }

    /// The worker's node.
    pub fn node_id(&self) -> (n: NodeId)
        ensures
            n == self@.node,
    {
        self.config.node_id
    }

    /// The worker's address.
    pub fn address(&self) -> (a: &str)
        ensures
            a@ == self@.address,
    {
        self.config.address.as_str()
    }

    /// The worker's state.
    pub fn state(&self) -> (s: WorkerState)
        ensures
            s == self@.state,
    {
        self.state
    }

    /// The membership the worker registers with.
    pub fn membership(&self) -> (m: &Membership)
        ensures
            m@ == self@.membership,
    {
        &self.membership
    }

    /// Joins the cluster as an active member heard from now.
    pub fn register(&mut self) -> (r: Result<(), CoreError>)
        ensures
            r is Ok,
            exists|now: u64|
                final(self)@ == (WorkerView {
                    membership: MembershipView {
                        members: spec_put_member(old(self)@.membership.members, #[trigger] registered_member(old(self)@, now)),
                        ..old(self)@.membership
                    },
                    registered: true,
                    ..old(self)@
                }),
    {
        proof {
            use_type_invariant(&*self);
        }
        let now = system_time_millis();
        let member = Member::new(self.config.node_id, self.config.address.clone()).with_state(
            MemberState::Active,
        ).with_heartbeat(now);
        let ghost mv = member@;
        proof {
            assert(mv.capabilities =~= Seq::<Seq<char>>::empty());
            assert(mv == registered_member(old(self)@, now));
        }
        let mut ms = Membership::new(self.config.node_id);
        std::mem::swap(&mut ms, &mut self.membership);
        let r = ms.add_member(member);
        self.membership = ms;
        match r {
            Ok(()) => {},
            Err(e) => {
                return Err(e);
            },
        }
        self.registered = true;
        proof {
            assert(self@ == (WorkerView {
                membership: MembershipView {
                    members: spec_put_member(old(self)@.membership.members, registered_member(old(self)@, now)),
                    ..old(self)@.membership
                },
                registered: true,
                ..old(self)@
            }));
        }
        Ok(())
    }

    /// Leaves the cluster.
    pub fn unregister(&mut self) -> (r: Result<(), CoreError>)
        ensures
            r is Ok,
            final(self)@ == (WorkerView {
                membership: MembershipView {
                    members: if has_member(old(self)@.membership.members, old(self)@.node.value) {
                        old(self)@.membership.members.remove(
                            member_at(old(self)@.membership.members, old(self)@.node.value),
                        )
                    } else {
                        old(self)@.membership.members
                    },
                    ..old(self)@.membership
                },
                registered: false,
                ..old(self)@
            }),
    {
        proof {
            use_type_invariant(&*self);
        }
        let mut ms = Membership::new(self.config.node_id);
        std::mem::swap(&mut ms, &mut self.membership);
        let r = ms.remove_member(self.config.node_id);
        self.membership = ms;
        match r {
            Ok(_) => {},
            Err(e) => {
                return Err(e);
            },
        }
        self.registered = false;
        Ok(())
    }

    /// Whether the worker is registered.
    pub fn is_registered(&self) -> (b: bool)
        ensures
            b == self@.registered,
    {
        self.registered
    }

    /// Records a heartbeat of this worker, now.
    pub fn heartbeat(&mut self) -> (r: Result<(), CoreError>)
        ensures
            r is Ok,
            exists|now: u64|
                final(self)@ == (WorkerView {
                    membership: MembershipView {
                        members: #[trigger] spec_heartbeat(old(self)@.membership.members, old(self)@.node.value, now),
                        ..old(self)@.membership
                    },
                    ..old(self)@
                }),
    {
        proof {
            use_type_invariant(&*self);
        }
        let now = system_time_millis();
        let mut ms = Membership::new(self.config.node_id);
        std::mem::swap(&mut ms, &mut self.membership);
        let r = ms.update_heartbeat(self.config.node_id, now);
        self.membership = ms;
        proof {
            assert(self@ == (WorkerView {
                membership: MembershipView {
                    members: spec_heartbeat(old(self)@.membership.members, old(self)@.node.value, now),
                    ..old(self)@.membership
                },
                ..old(self)@
            }));
        }
        match r {
            Ok(_) => Ok(()),
            Err(e) => Err(e),
        }
    }

    /// The position of the active job `id`.
    fn find_job(&self, id: &str) -> (r: Option<usize>)
        ensures
            r is None <==> !has_job(self@.jobs, id@),
            r matches Some(k) ==> k < self@.jobs.len() && k == job_at(self@.jobs, id@),
    {
        proof {
            use_type_invariant(self);
        }
        let ghost js = self@.jobs;
        let mut i: usize = 0;
        while i < self.jobs.len()
            invariant
                js == job_views(self.jobs@),
                job_keys(js).no_duplicates(),
                i <= js.len(),
                forall|j: int| 0 <= j < i ==> js[j].id != id@,
            decreases js.len() - i,
        {
            if str_eq(self.jobs[i].job_id.as_str(), id) {
                proof {
                    let k = job_at(js, id@);
                    assert(js[i as int].id == id@);
                    if k != i {
                        assert(job_keys(js)[k] == job_keys(js)[i as int]);
                    }
                }
                return Some(i);
            }
            i = i + 1;
        }
        None
    }

    /// The position of the completed job `id`.
    fn find_completed(&self, id: &str) -> (r: Option<usize>)
        ensures
            r is None <==> !has_job(self@.completed, id@),
            r matches Some(k) ==> k < self@.completed.len() && k == job_at(self@.completed, id@),
    {
        proof {
            use_type_invariant(self);
        }
        let ghost js = self@.completed;
        let mut i: usize = 0;
        while i < self.completed.len()
            invariant
                js == job_views(self.completed@),
                job_keys(js).no_duplicates(),
                i <= js.len(),
                forall|j: int| 0 <= j < i ==> js[j].id != id@,
            decreases js.len() - i,
        {
            if str_eq(self.completed[i].job_id.as_str(), id) {
                proof {
                    let k = job_at(js, id@);
                    assert(js[i as int].id == id@);
                    if k != i {
                        assert(job_keys(js)[k] == job_keys(js)[i as int]);
                    }
                }
                return Some(i);
            }
            i = i + 1;
        }
        None
    }

    /// Takes a job for `event_id`, unless the worker is draining or shut
    /// down, or already runs as many jobs as it may.
    pub fn accept_job(&mut self, event_id: EventId, request: RemoteRequest) -> (r: Result<String, CoreError>)
        ensures
            (old(self)@.state == WorkerState::Shutdown || old(self)@.state == WorkerState::Draining) ==> {
                &&& r matches Err(CoreError::Validation { field, reason }) && field@ == "state"@ && reason@
                    == "Worker not accepting jobs"@
                &&& final(self)@ == old(self)@
            },
            !(old(self)@.state == WorkerState::Shutdown || old(self)@.state == WorkerState::Draining)
                && old(self)@.jobs.len() >= old(self)@.max_concurrent ==> {
                &&& r matches Err(CoreError::Validation { field, reason }) && field@ == "concurrent"@ && reason@
                    == "Worker busy: "@ + spec_decimal(old(self)@.jobs.len()) + "/"@ + spec_decimal(
                    old(self)@.max_concurrent as nat,
                ) + " jobs"@
                &&& final(self)@ == old(self)@
            },
            !(old(self)@.state == WorkerState::Shutdown || old(self)@.state == WorkerState::Draining)
                && old(self)@.jobs.len() < old(self)@.max_concurrent ==> r is Ok,
            r matches Ok(id) ==> ({
                let started = final(self)@.jobs[job_at(final(self)@.jobs, id@)].started;
                final(self)@ == (WorkerView {
                    jobs: spec_put_job(old(self)@.jobs, new_job(id@, event_id, request, started)),
                    ..old(self)@
                })
            }),
    {
        proof {
            use_type_invariant(&*self);
        }
        if self.state == WorkerState::Shutdown || self.state == WorkerState::Draining {
            return Err(
                CoreError::Validation { field: "state".to_owned(), reason: "Worker not accepting jobs".to_owned() },
            );
        }
        let job_count = self.jobs.len();
        if job_count >= self.config.max_concurrent {
            let c = usize_to_decimal(job_count);
            let m = usize_to_decimal(self.config.max_concurrent);
            let s = cat4("Worker busy: ", c.as_str(), "/", m.as_str());
            return Err(CoreError::Validation { field: "concurrent".to_owned(), reason: cat2(s.as_str(), " jobs") });
        }
        let job = Job::new(event_id, request);
        let job_id = job.job_id.clone();
        let ghost jv = job@;
        proof {
            assert(jv == new_job(job_id@, event_id, request, job.started_at));
        }
                let found = self.find_job(job_id.as_str());
        let ghost js = self@.jobs;
        let mut v: Vec<Job> = Vec::new();
        std::mem::swap(&mut v, &mut self.jobs);
        match found {
            Some(k) => {
                v.set(k, job);
                proof {
                    lemma_put_keeps_unique(job_keys(js), k as int, jv.id);
                    assert(job_views(v@) =~= js.update(k as int, jv));
                    assert(job_keys(job_views(v@)) =~= job_keys(js).update(k as int, jv.id));
                }
            },
            None => {
                v.push(job);
                proof {
                    assert(!job_keys(js).contains(jv.id)) by {
                        if job_keys(js).contains(jv.id) {
                            let j = choose|j: int| 0 <= j < js.len() && job_keys(js)[j] == jv.id;
                            assert(js[j].id == jv.id);
                        }
                    }
                    lemma_put_keeps_unique(job_keys(js), js.len() as int, jv.id);
                    assert(job_views(v@) =~= js.push(jv));
                    assert(job_keys(job_views(v@)) =~= job_keys(js).push(jv.id));
                }
            },
        }
        self.jobs = v;
        proof {
            assert(self@ == (WorkerView { jobs: spec_put_job(old(self)@.jobs, jv), ..old(self)@ }));
            assert(new_job(job_id@, event_id, request, jv.started) == jv);
            let fj = self@.jobs;
            let k = job_at(fj, jv.id);
            assert(fj[k].id == jv.id);
            assert(job_keys(fj).no_duplicates());
            if has_job(js, jv.id) {
                assert(fj[job_at(js, jv.id)] == jv);
                assert(job_keys(fj)[k] == job_keys(fj)[job_at(js, jv.id)]);
            } else {
                assert(fj[js.len() as int] == jv);
                assert(job_keys(fj)[k] == job_keys(fj)[js.len() as int]);
            }
            assert(fj[k].started == jv.started);
        }
        Ok(job_id)
    }

    /// Runs the active job `job_id`: it moves, completed, to the completed
    /// jobs, and the result is its request's payload.
    pub fn execute_job(&mut self, job_id: String) -> (r: Result<Vec<u8>, CoreError>)
        ensures
            !has_job(old(self)@.jobs, job_id@) ==> {
                &&& r matches Err(CoreError::NotFound { kind, id }) && kind@ == "job"@ && id@ == job_id@
                &&& final(self)@ == old(self)@
            },
            has_job(old(self)@.jobs, job_id@) ==> ({
                let k = job_at(old(self)@.jobs, job_id@);
                let j = old(self)@.jobs[k];
                &&& r matches Ok(p) && p@ == j.payload
                &&& final(self)@ == (WorkerView {
                    jobs: old(self)@.jobs.remove(k),
                    completed: spec_put_job(old(self)@.completed, JobView { status: JobStatus::Completed, ..j }),
                    ..old(self)@
                })
            }),
    {
        proof {
            use_type_invariant(&*self);
        }
        let k = match self.find_job(job_id.as_str()) {
            Some(k) => k,
            None => {
                return Err(CoreError::NotFound { kind: "job".to_owned(), id: job_id });
            },
        };
        let ghost js = self@.jobs;
        let mut v: Vec<Job> = Vec::new();
        std::mem::swap(&mut v, &mut self.jobs);
        let mut job = v.remove(k);
        proof {
            assert(job_views(v@) =~= js.remove(k as int));
            let s = job_keys(job_views(v@));
            assert(s =~= job_keys(js).remove(k as int));
            assert forall|a: int, b: int| 0 <= a < s.len() && 0 <= b < s.len() && a != b implies s[a] != s[b] by {
                let a2 = if a < k { a } else { a + 1 };
                let b2 = if b < k { b } else { b + 1 };
                assert(s[a] == job_keys(js)[a2] && s[b] == job_keys(js)[b2]);
            }
        }
        self.jobs = v;
        let payload = job.request.payload.clone();
        job.status = JobStatus::Completed;
        let ghost jv = job@;
        let found = self.find_completed(job.job_id.as_str());
        let ghost cs = self@.completed;
        let mut c: Vec<Job> = Vec::new();
        std::mem::swap(&mut c, &mut self.completed);
        match found {
            Some(i) => {
                c.set(i, job);
                proof {
                    lemma_put_keeps_unique(job_keys(cs), i as int, jv.id);
                    assert(job_views(c@) =~= cs.update(i as int, jv));
                    assert(job_keys(job_views(c@)) =~= job_keys(cs).update(i as int, jv.id));
                }
            },
            None => {
                c.push(job);
                proof {
                    assert(!job_keys(cs).contains(jv.id)) by {
                        if job_keys(cs).contains(jv.id) {
                            let j = choose|j: int| 0 <= j < cs.len() && job_keys(cs)[j] == jv.id;
                            assert(cs[j].id == jv.id);
                        }
                    }
                    lemma_put_keeps_unique(job_keys(cs), cs.len() as int, jv.id);
                    assert(job_views(c@) =~= cs.push(jv));
                    assert(job_keys(job_views(c@)) =~= job_keys(cs).push(jv.id));
                }
            },
        }
        self.completed = c;
        Ok(payload)
    }

    /// A copy of the active job `job_id`.
    pub fn get_job(&self, job_id: String) -> (r: Option<Job>)
        ensures
            r is None <==> !has_job(self@.jobs, job_id@),
            r matches Some(j) ==> j@ == self@.jobs[job_at(self@.jobs, job_id@)],
    {
        match self.find_job(job_id.as_str()) {
            Some(k) => Some(self.jobs[k].duplicate()),
            None => None,
        }
    }

    /// The number of active jobs.
    pub fn active_job_count(&self) -> (n: usize)
        ensures
            n == self@.jobs.len(),
    {
        self.jobs.len()
    }

    /// The number of completed jobs.
    pub fn completed_job_count(&self) -> (n: usize)
        ensures
            n == self@.completed.len(),
    {
        self.completed.len()
    }

    /// Stops taking new jobs.
    pub fn start_drain(&mut self)
        ensures
            final(self)@ == (WorkerView { state: WorkerState::Draining, ..old(self)@ }),
    {
        proof {
            use_type_invariant(&*self);
        }
        self.state = WorkerState::Draining;
    }

    /// Enters the shut-down state, in which no job is taken; the active jobs
    /// still finish.
    pub fn begin_shutdown(&mut self)
        ensures
            final(self)@ == (WorkerView { state: WorkerState::Shutdown, ..old(self)@ }),
    {
        proof {
            use_type_invariant(&*self);
        }
        self.state = WorkerState::Shutdown;
    }

    /// Shuts down once no job is active: the shut-down state, and the worker
    /// leaves the cluster.
    pub fn shutdown(&mut self) -> (r: Result<(), CoreError>)
        requires
            old(self)@.jobs.len() == 0,
        ensures
            r is Ok,
            final(self)@ == (WorkerView {
                state: WorkerState::Shutdown,
                membership: MembershipView {
                    members: if has_member(old(self)@.membership.members, old(self)@.node.value) {
                        old(self)@.membership.members.remove(
                            member_at(old(self)@.membership.members, old(self)@.node.value),
                        )
                    } else {
                        old(self)@.membership.members
                    },
                    ..old(self)@.membership
                },
                registered: false,
                ..old(self)@
            }),
    {
        self.begin_shutdown();
        self.unregister()
    }

    /// The worker's statistics.
    pub fn stats(&self) -> (s: WorkerStats)
        ensures
            s == (WorkerStats {
                node_id: self@.node,
                state: self@.state,
                active_jobs: self@.jobs.len() as usize,
                completed_jobs: self@.completed.len() as usize,
                max_concurrent: self@.max_concurrent,
            }),
    {
        WorkerStats {
            node_id: self.config.node_id,
            state: self.state,
            active_jobs: self.active_job_count(),
            completed_jobs: self.completed_job_count(),
            max_concurrent: self.config.max_concurrent,
        }
    }

    /// Whether the worker takes jobs: idle, registered and below its limit.
    pub fn can_accept_jobs(&self) -> (b: bool)
        ensures
            b == (self@.state == WorkerState::Idle && self@.registered && self@.jobs.len() < self@.max_concurrent),
    {
        self.state == WorkerState::Idle && self.registered && self.jobs.len() < self.config.max_concurrent
    }
}

impl Default for Worker {
    /// An idle worker with the default settings, its own membership and the
    /// default executor.
    fn default() -> (w: Self)
        ensures
            w@.state == WorkerState::Idle,
            w@.jobs.len() == 0,
            !w@.registered,
    {
        let config = WorkerConfig::default();
        let membership = Membership::new(config.node_id);
        let executor = Executor::default();
        Worker::new(config, membership, executor)
    }
}

/// A worker never runs more jobs than it may: taking a job keeps the number
/// of active jobs within the limit when it was within before.
pub proof fn lemma_accept_within_limit(js: Seq<JobView>, j: JobView, max: usize)
    requires
        js.len() < max,
    ensures
        spec_put_job(js, j).len() <= max,
{
}

} // verus!
