//! The cluster orchestrator: host registry, job dispatch and the per-job
//! lifecycle task.
//!
//! Each scheduled job runs as a cooperative task: it requests a managed
//! allocation on every assigned host, awaiting each confirmation; starts one
//! computation per process and awaits their completions; releases every
//! allocation, awaiting each confirmation; and reports the finished job to
//! the scheduler.

use vstd::prelude::*;

use crate::event::{
    CompAllocationRequest, CoresDependency, Event, EventData, JobFinished,
    ManagedAllocationRequest, ManagedDeallocationRequest, Allocation,
};
use crate::shared_state::{AwaitKey, AwaitResult};
use crate::state::{emitted, SimulationState};
use crate::task::TaskStep;
use crate::{Id, TaskId};

verus! {

/// A scheduling decision that could not be carried out.
#[derive(Clone, Debug)]
pub struct ScheduleError {
    /// Id of the execution the decision was about.
    pub task_id: u64,
    /// What went wrong.
    pub error_message: String,
}

/// What a job needs on every assigned host.
#[derive(Clone, Copy, PartialEq, Eq, Structural, Debug)]
pub struct JobSpec {
    /// Cores per process.
    pub cpu_per_node: u32,
    /// Memory per process.
    pub memory_per_node: u64,
    /// Work per process.
    pub flops: u64,
}

/// Lifecycle phase of one job task.
pub enum JobPhase {
    /// Requesting the allocation on host `next`, awaiting its confirmation
    /// under the given id.
    Allocating {
        /// Index of the host being allocated.
        next: usize,
        /// Id of the awaited allocation.
        pending: u64,
    },
    /// All processes started; their computation ids are outstanding.
    Running,
    /// Releasing the allocation of host `next`, awaiting its confirmation
    /// under the given id.
    Deallocating {
        /// Index of the host being released.
        next: usize,
        /// Id of the awaited deallocation request.
        pending: u64,
    },
    /// The job finished and was reported.
    Done,
}

/// The state of one job lifecycle task.
pub struct JobTask {
    /// The kernel task driving the job.
    pub task: TaskId,
    /// Id of the execution.
    pub job_id: u64,
    /// The assigned hosts.
    pub host_ids: Vec<Id>,
    /// The managed allocations obtained so far, one per allocated host.
    pub allocation_ids: Vec<u64>,
    /// Computation ids not yet finished, with the host each runs on.
    pub outstanding: Vec<(Id, u64)>,
    /// The requirements of the job.
    pub spec: JobSpec,
    /// The current phase.
    pub phase: JobPhase,
}

/// The cluster orchestrator.
pub struct Cluster {
    id: Id,
    scheduler_id: Id,
    hosts: Vec<Id>,
    requests: Vec<(u64, JobSpec)>,
    jobs: Vec<JobTask>,
}

impl Cluster {
    /// The cluster's component id.
    pub closed spec fn spec_id(self) -> Id {
        self.id
    }

    /// The registered host component ids.
    pub closed spec fn spec_hosts(self) -> Seq<Id> {
        self.hosts@
    }

    /// The submitted job requirements, keyed by execution id.
    pub closed spec fn spec_requests(self) -> Seq<(u64, JobSpec)> {
        self.requests@
    }

    /// The scheduler that finished jobs are reported to.
    pub closed spec fn spec_scheduler_id(self) -> Id {
        self.scheduler_id
    }

    /// The lifecycle tasks of the scheduled jobs.
    pub closed spec fn spec_jobs(self) -> Seq<JobTask> {
        self.jobs@
    }

    /// How many processes a job starts: one per allocated host, bounded by
    /// the per-dispatch emission budget.
    pub open spec fn proc_count(hosts: Seq<Id>, aids: Seq<u64>) -> int {
        let n = if aids.len() < hosts.len() {
            aids.len() as int
        } else {
            hosts.len() as int
        };
        if n < 0xff {
            n
        } else {
            0xff
        }
    }

    /// The winding-down step of a job: while an allocation remains, its
    /// release is requested from its host and the confirmation awaited;
    /// after the last one, the finished job is reported to the scheduler and
    /// the task ends. Emissions are counted from `n0` ids after `pre_st`.
    pub open spec fn wind_down_post(
        cid: Id,
        sid: Id,
        hosts: Seq<Id>,
        aids: Seq<u64>,
        job_id: u64,
        post_j: JobTask,
        pre_st: SimulationState,
        post_st: SimulationState,
        next: int,
        n0: int,
        r: TaskStep,
    ) -> bool {
        let bound = if aids.len() < hosts.len() {
            aids.len() as int
        } else {
            hosts.len() as int
        };
        let eid = (pre_st.spec_event_count() + n0) as u64;
        if next < bound {
            &&& emitted(
                pre_st,
                post_st,
                n0,
                cid,
                hosts[next],
                EventData::ManagedDeallocationRequest(
                    ManagedDeallocationRequest { allocation_id: aids[next], requester: cid },
                ),
            )
            &&& r == (TaskStep::WaitEvent {
                key: AwaitKey { from: hosts[next], to: cid, msg_type: 13, details: Some(eid) },
            })
            &&& post_j.phase == (JobPhase::Deallocating { next: (next + 1) as usize, pending: eid })
            &&& post_st.spec_event_count() == pre_st.spec_event_count() + n0 + 1
        } else {
            &&& exists|ev: Event|
                #[trigger] post_st.queue().heap_seq().contains(ev) && ev.id == eid && ev.time
                    == pre_st.spec_time() && ev.src == cid && ev.dst == sid && (
                ev.data matches EventData::JobFinished(jf) && jf.job_id == job_id && jf.hosts@
                    == hosts)
            &&& r is Finish
            &&& post_j.phase is Done
            &&& post_st.spec_event_count() == pre_st.spec_event_count() + n0 + 1
        }
    }

    /// One resume step of a job's lifecycle, by phase.
    pub open spec fn job_resume_post(
        cid: Id,
        sid: Id,
        pre_j: JobTask,
        post_j: JobTask,
        pre_st: SimulationState,
        post_st: SimulationState,
        r: TaskStep,
    ) -> bool {
        let hosts = pre_j.host_ids@;
        match pre_j.phase {
            JobPhase::Allocating { next, pending } => {
                let aids = if next > 0 {
                    pre_j.allocation_ids@.push(pending)
                } else {
                    pre_j.allocation_ids@
                };
                if next < hosts.len() {
                    // request the next allocation and await its confirmation
                    &&& emitted(
                        pre_st,
                        post_st,
                        0,
                        cid,
                        hosts[next as int],
                        EventData::ManagedAllocationRequest(
                            ManagedAllocationRequest {
                                allocation: Allocation {
                                    cores: pre_j.spec.cpu_per_node,
                                    memory: pre_j.spec.memory_per_node,
                                },
                                requester: cid,
                            },
                        ),
                    )
                    &&& r == (TaskStep::WaitEvent {
                        key: AwaitKey {
                            from: hosts[next as int],
                            to: cid,
                            msg_type: 10,
                            details: Some(pre_st.spec_event_count()),
                        },
                    })
                    &&& post_j.phase == (JobPhase::Allocating {
                        next: (next + 1) as usize,
                        pending: pre_st.spec_event_count(),
                    })
                    &&& post_j.allocation_ids@ == aids
                    &&& post_st.spec_event_count() == pre_st.spec_event_count() + 1
                } else {
                    // every host is allocated: start one computation per
                    // process and await the first completion
                    let limit = Cluster::proc_count(hosts, aids);
                    let batch = Seq::new(
                        limit as nat,
                        |i: int| (hosts[i], (pre_st.spec_event_count() + i) as u64),
                    );
                    let out2 = pre_j.outstanding@ + batch;
                    &&& (forall|i: int|
                        0 <= i < limit ==> emitted(
                            pre_st,
                            post_st,
                            i,
                            cid,
                            hosts[i],
                            EventData::CompAllocationRequest(
                                CompAllocationRequest {
                                    flops: pre_j.spec.flops,
                                    allocation_id: aids[i],
                                    cores_dependency: CoresDependency::Linear,
                                    requester: cid,
                                },
                            ),
                        ))
                    &&& post_j.allocation_ids@ == aids
                    &&& if out2.len() > 0 {
                        &&& post_j.phase is Running
                        &&& post_j.outstanding@ == out2
                        &&& r == (TaskStep::WaitEvent {
                            key: AwaitKey {
                                from: out2[0].0,
                                to: cid,
                                msg_type: 4,
                                details: Some(out2[0].1),
                            },
                        })
                        &&& post_st.spec_event_count() == pre_st.spec_event_count() + limit
                    } else {
                        Cluster::wind_down_post(
                            cid,
                            sid,
                            hosts,
                            aids,
                            pre_j.job_id,
                            post_j,
                            pre_st,
                            post_st,
                            0,
                            limit,
                            r,
                        )
                    }
                }
            },
            JobPhase::Running => {
                let rem = if pre_j.outstanding@.len() > 0 {
                    pre_j.outstanding@.remove(0)
                } else {
                    pre_j.outstanding@
                };
                &&& post_j.outstanding@ == rem
                &&& if rem.len() > 0 {
                    // await the next outstanding completion
                    &&& r == (TaskStep::WaitEvent {
                        key: AwaitKey {
                            from: rem[0].0,
                            to: cid,
                            msg_type: 4,
                            details: Some(rem[0].1),
                        },
                    })
                    &&& post_st == pre_st
                    &&& post_j.phase is Running
                } else {
                    Cluster::wind_down_post(
                        cid,
                        sid,
                        hosts,
                        pre_j.allocation_ids@,
                        pre_j.job_id,
                        post_j,
                        pre_st,
                        post_st,
                        0,
                        0,
                        r,
                    )
                }
            },
            JobPhase::Deallocating { next, pending } => Cluster::wind_down_post(
                cid,
                sid,
                hosts,
                pre_j.allocation_ids@,
                pre_j.job_id,
                post_j,
                pre_st,
                post_st,
                next as int,
                0,
                r,
            ),
            JobPhase::Done => r is Finish && post_j == pre_j && post_st == pre_st,
        }
    }

    /// Creates a cluster reporting to the given scheduler.
    pub fn new(id: Id, scheduler_id: Id) -> (r: Self)
        ensures
            r.spec_id() == id,
            r.spec_hosts().len() == 0,
            r.spec_requests().len() == 0,
    {
        Cluster { id, scheduler_id, hosts: Vec::new(), requests: Vec::new(), jobs: Vec::new() }
    }

    /// The cluster's component id.
    pub fn get_id(&self) -> (r: Id)
        ensures
            r == self.spec_id(),
    {
        self.id
    }

    /// Changes the scheduler that finished jobs are reported to.
    pub fn set_scheduler(&mut self, scheduler_id: Id)
        ensures
            final(self).spec_id() == old(self).spec_id(),
            final(self).spec_hosts() == old(self).spec_hosts(),
            final(self).spec_requests() == old(self).spec_requests(),
    {
        self.scheduler_id = scheduler_id;
    }

    /// Registers a host.
    pub fn add_host(&mut self, host_id: Id)
        ensures
            final(self).spec_hosts() == old(self).spec_hosts().push(host_id),
            final(self).spec_id() == old(self).spec_id(),
            final(self).spec_requests() == old(self).spec_requests(),
    {
        self.hosts.push(host_id);
    }

    /// Returns the registered host ids.
    pub fn get_hosts(&self) -> (r: Vec<Id>)
        ensures
            r@ == self.spec_hosts(),
    {
        let mut out: Vec<Id> = Vec::new();
        let mut i: usize = 0;
        while i < self.hosts.len()
            invariant
                i <= self.hosts@.len(),
                out@ == self.hosts@.subrange(0, i as int),
            decreases self.hosts@.len() - i,
        {
            out.push(self.hosts[i]);
            proof {
                assert(out@ =~= self.hosts@.subrange(0, i + 1));
            }
            i = i + 1;
        }
        proof {
            assert(out@ =~= self.hosts@);
        }
        out
    }

    /// Records what an execution needs; the schedule command only names the
    /// execution and its hosts.
    pub fn submit_job(&mut self, job_id: u64, spec: JobSpec)
        ensures
            final(self).spec_requests() == old(self).spec_requests().push((job_id, spec)),
            final(self).spec_id() == old(self).spec_id(),
            final(self).spec_hosts() == old(self).spec_hosts(),
    {
        self.requests.push((job_id, spec));
    }

    /// Looks up the requirements of an execution.
    fn find_request(&self, job_id: u64) -> (r: Option<JobSpec>)
        ensures
            match r {
                Some(s) => exists|i: int|
                    0 <= i < self.spec_requests().len() && #[trigger] self.spec_requests()[i] == (
                    job_id,
                    s,
                ) && (forall|m: int| 0 <= m < i ==> (#[trigger] self.spec_requests()[m]).0 != job_id),
                None => forall|i: int|
                    0 <= i < self.spec_requests().len() ==> (#[trigger] self.spec_requests()[i]).0
                        != job_id,
            },
    {
        let mut i: usize = 0;
        while i < self.requests.len()
            invariant
                i <= self.requests@.len(),
                forall|j: int| 0 <= j < i ==> (#[trigger] self.requests@[j]).0 != job_id,
            decreases self.requests@.len() - i,
        {
            if self.requests[i].0 == job_id {
                let s = self.requests[i].1;
                proof {
                    assert(self.spec_requests()[i as int] == (job_id, s));
                }
                return Some(s);
            }
            i = i + 1;
        }
        None
    }

    /// Returns the position of the job driven by the given task.
    fn find_job_by_task(&self, tid: TaskId) -> (r: Option<usize>)
        ensures
            match r {
                Some(i) => i < self.jobs@.len() && self.jobs@[i as int].task == tid && (forall|
                    m: int,
                |
                    0 <= m < i ==> (#[trigger] self.jobs@[m]).task != tid),
                None => forall|m: int| 0 <= m < self.jobs@.len() ==> (#[trigger] self.jobs@[m]).task != tid,
            },
    {
        let mut i: usize = 0;
        while i < self.jobs.len()
            invariant
                i <= self.jobs@.len(),
                forall|m: int| 0 <= m < i ==> (#[trigger] self.jobs@[m]).task != tid,
            decreases self.jobs@.len() - i,
        {
            if self.jobs[i].task == tid {
                return Some(i);
            }
            i = i + 1;
        }
        None
    }

    /// Handles an event delivered to the cluster: a schedule command spawns
    /// the job's lifecycle task; a computation completion that no task is
    /// awaiting is checked off the owning job's outstanding set.
    pub fn on(&mut self, event: Event, state: &mut SimulationState)
        requires
            old(state).wf(),
            old(state).has_budget(),
        ensures
            final(state).wf(),
            final(state).spec_time() == old(state).spec_time(),
            final(state).spec_event_count() >= old(state).spec_event_count(),
            final(state).spec_event_count() <= old(state).spec_event_count() + 2,
            final(state).spec_timer_count() == old(state).spec_timer_count(),
            final(state).spec_tasks().len() >= old(state).spec_tasks().len(),
            final(state).spec_tasks().len() <= old(state).spec_tasks().len() + 1,
            final(self).spec_id() == old(self).spec_id(),
            final(self).spec_scheduler_id() == old(self).spec_scheduler_id(),
            final(self).spec_requests() == old(self).spec_requests(),
            final(self).spec_hosts().len() >= old(self).spec_hosts().len(),
            forall|i: int|
                0 <= i < old(self).spec_hosts().len() ==> final(self).spec_hosts()[i] == old(self).spec_hosts()[i],
            // a schedule command for a submitted execution spawns its
            // lifecycle task; a host notification registers the host; a
            // computation completion that no task awaited is checked off;
            // anything else changes nothing
            match event.data {
                EventData::Schedule(cmd) => {
                    let known = exists|k: int|
                        0 <= k < old(self).spec_requests().len() && (#[trigger] old(self).spec_requests()[k]).0 == cmd.job_id;
                    &&& !known ==> *final(self) == *old(self) && *final(state) == *old(state)
                    &&& known ==> {
                        let fresh = final(self).spec_jobs().last();
                        &&& final(self).spec_jobs().len() == old(self).spec_jobs().len() + 1
                        &&& (forall|m: int|
                            0 <= m < old(self).spec_jobs().len() ==> final(self).spec_jobs()[m]
                                == old(self).spec_jobs()[m])
                        &&& fresh.task == old(state).spec_tasks().len()
                        &&& fresh.job_id == cmd.job_id
                        &&& fresh.host_ids@ == cmd.host_ids@
                        &&& fresh.allocation_ids@.len() == 0
                        &&& fresh.outstanding@.len() == 0
                        &&& fresh.phase == (JobPhase::Allocating { next: 0, pending: 0 })
                        &&& (exists|k: int|
                            0 <= k < old(self).spec_requests().len() && (#[trigger] old(self).spec_requests()[k]).0 == cmd.job_id && fresh.spec == old(self).spec_requests()[k].1)
                        &&& final(state).spec_tasks().len() == old(state).spec_tasks().len() + 1
                        &&& final(state).spec_ready() == old(state).spec_ready().push(fresh.task)
                        &&& final(state).spec_event_count() == old(state).spec_event_count()
                    }
                },
                EventData::HostAdded(h) => final(self).spec_hosts() == old(self).spec_hosts().push(h.host_id) && final(self).spec_jobs() == old(self).spec_jobs() && *final(state) == *old(state),
                EventData::CompFinished(done) => *final(state) == *old(state) && final(self).spec_hosts() == old(self).spec_hosts() && final(self).spec_jobs().len() == old(self).spec_jobs().len(),
                _ => *final(self) == *old(self) && *final(state) == *old(state),
            },
    {
        match event.data {
            EventData::Schedule(cmd) => {
                let found = self.find_request(cmd.job_id);
                match found {
                    None => {
                        // an unknown execution cannot run; the command is dropped
                    },
                    Some(spec) => {
                        let tid = state.spawn(self.id);
                        let ghost pre_jobs = self.jobs@;
                        self.jobs.push(
                            JobTask {
                                task: tid,
                                job_id: cmd.job_id,
                                host_ids: cmd.host_ids,
                                allocation_ids: Vec::new(),
                                outstanding: Vec::new(),
                                spec,
                                phase: JobPhase::Allocating { next: 0, pending: 0 },
                            },
                        );
                        proof {
                            assert(self.spec_jobs().last().host_ids@ == cmd.host_ids@);
                            assert(forall|m: int|
                                0 <= m < pre_jobs.len() ==> #[trigger] self.spec_jobs()[m]
                                    == pre_jobs[m]);
                        }
                    },
                }
            },
            EventData::CompFinished(done) => {
                self.check_off(done.id);
            },
            EventData::Cancel(_) => {
                // execution cancellation is left undone, matching the
                // orchestration this models
            },
            EventData::HostAdded(h) => {
                self.hosts.push(h.host_id);
            },
            _ => {},
        }
    }

    /// Removes a finished computation from the outstanding set of the job
    /// that started it.
    fn check_off(&mut self, comp_id: u64)
        ensures
            final(self).spec_id() == old(self).spec_id(),
            final(self).spec_scheduler_id() == old(self).spec_scheduler_id(),
            final(self).spec_hosts() == old(self).spec_hosts(),
            final(self).spec_requests() == old(self).spec_requests(),
            final(self).spec_jobs().len() == old(self).spec_jobs().len(),
    {
        let mut j: usize = 0;
        while j < self.jobs.len()
            invariant
                j <= self.jobs@.len(),
                self.id == old(self).id,
                self.scheduler_id == old(self).scheduler_id,
                self.hosts@ == old(self).hosts@,
                self.requests@ == old(self).requests@,
                self.jobs@.len() == old(self).jobs@.len(),
            decreases self.jobs@.len() - j,
        {
            let mut k: usize = 0;
            let n = self.jobs[j].outstanding.len();
            let mut hit: Option<usize> = None;
            while k < n
                invariant
                    j < self.jobs@.len(),
                    n == self.jobs@[j as int].outstanding@.len(),
                    k <= n,
                    hit matches Some(i) ==> i < n,
                decreases n - k,
            {
                if self.jobs[j].outstanding[k].1 == comp_id {
                    hit = Some(k);
                }
                k = k + 1;
            }
            match hit {
                Some(i) => {
                    let mut job = self.jobs.remove(j);
                    let _ = job.outstanding.remove(i);
                    self.jobs.insert(j, job);
                    return;
                },
                None => {},
            }
            j = j + 1;
        }
    }

    /// Resumes a job lifecycle task and decides its next await.
    pub fn resume(&mut self, tid: TaskId, wake: AwaitResult, state: &mut SimulationState) -> (r: TaskStep)
        requires
            old(state).wf(),
            old(state).has_budget(),
        ensures
            final(state).wf(),
            final(state).spec_time() == old(state).spec_time(),
            final(state).spec_event_count() >= old(state).spec_event_count(),
            final(state).spec_event_count() <= old(state).spec_event_count() + 0x200,
            final(state).spec_timer_count() == old(state).spec_timer_count(),
            final(state).spec_tasks() == old(state).spec_tasks(),
            final(state).spec_ready() == old(state).spec_ready(),
            final(self).spec_id() == old(self).spec_id(),
            final(self).spec_scheduler_id() == old(self).spec_scheduler_id(),
            final(self).spec_hosts() == old(self).spec_hosts(),
            final(self).spec_requests() == old(self).spec_requests(),
            // a task driving no job ends; the job of a found task takes one
            // lifecycle step, and every other job is untouched
            (forall|m: int|
                0 <= m < old(self).spec_jobs().len() ==> (#[trigger] old(self).spec_jobs()[m]).task
                    != tid) ==> r is Finish && *final(self) == *old(self) && *final(state) == *old(state),
            (exists|m: int|
                0 <= m < old(self).spec_jobs().len() && (#[trigger] old(self).spec_jobs()[m]).task
                    == tid) ==> exists|j: int|
                0 <= j < old(self).spec_jobs().len() && (#[trigger] old(self).spec_jobs()[j]).task
                    == tid && (forall|m: int|
                    0 <= m < j ==> (#[trigger] old(self).spec_jobs()[m]).task != tid)
                    && final(self).spec_jobs().len() == old(self).spec_jobs().len() && (forall|
                    m: int,
                |
                    0 <= m < old(self).spec_jobs().len() && m != j ==> final(self).spec_jobs()[m]
                        == old(self).spec_jobs()[m]) && Cluster::job_resume_post(
                    old(self).spec_id(),
                    old(self).spec_scheduler_id(),
                    old(self).spec_jobs()[j],
                    final(self).spec_jobs()[j],
                    *old(state),
                    *final(state),
                    r,
                ),
    {
        let found = self.find_job_by_task(tid);
        let j = match found {
            None => {
                return TaskStep::Finish;
            },
            Some(j) => j,
        };
        let ghost pre_jobs = self.jobs@;
        let mut job = self.jobs.remove(j);
        let step = self.advance_job(&mut job, wake, state);
        self.jobs.insert(j, job);
        proof {
            assert(self.jobs@.len() == pre_jobs.len());
            assert forall|m: int|
                0 <= m < pre_jobs.len() && m != j implies #[trigger] self.jobs@[m]
                == pre_jobs[m] by {
                if m < j {
                } else {
                    assert(self.jobs@[m] == pre_jobs.remove(j as int)[m - 1]);
                }
            }
            assert(self.spec_jobs()[j as int] == self.jobs@[j as int]);
        }
        step
    }

    /// Advances one job through its phases.
    fn advance_job(&self, job: &mut JobTask, wake: AwaitResult, state: &mut SimulationState) -> (r: TaskStep)
        requires
            old(state).wf(),
            old(state).has_budget(),
        ensures
            final(state).wf(),
            final(state).spec_time() == old(state).spec_time(),
            final(state).spec_event_count() >= old(state).spec_event_count(),
            final(state).spec_event_count() <= old(state).spec_event_count() + 0x180,
            final(state).spec_timer_count() == old(state).spec_timer_count(),
            final(state).spec_tasks() == old(state).spec_tasks(),
            final(state).spec_ready() == old(state).spec_ready(),
            Cluster::job_resume_post(
                self.spec_id(),
                self.spec_scheduler_id(),
                *old(job),
                *final(job),
                *old(state),
                *final(state),
                r,
            ),
    {
        match job.phase {
            JobPhase::Allocating { next, pending } => {
                if next > 0 {
                    // the pending allocation was confirmed
                    job.allocation_ids.push(pending);
                }
                if next < job.host_ids.len() {
                    let host = job.host_ids[next];
                    let aid = state.add_event(
                        EventData::ManagedAllocationRequest(
                            ManagedAllocationRequest {
                                allocation: Allocation {
                                    cores: job.spec.cpu_per_node,
                                    memory: job.spec.memory_per_node,
                                },
                                requester: self.id,
                            },
                        ),
                        self.id,
                        host,
                        0,
                    );
                    job.phase = JobPhase::Allocating { next: next + 1, pending: aid };
                    // AllocationSuccess carries the allocation id as its key
                    return TaskStep::WaitEvent {
                        key: AwaitKey { from: host, to: self.id, msg_type: 10, details: Some(aid) },
                    };
                }
                // all hosts allocated: start one computation per process
                self.start_processes(job, state);
                job.phase = JobPhase::Running;
                self.await_running(job, state)
            },
            JobPhase::Running => {
                // the awaited computation finished
                if job.outstanding.len() > 0 {
                    let _ = job.outstanding.remove(0);
                }
                self.await_running(job, state)
            },
            JobPhase::Deallocating { next, pending } => {
                self.advance_dealloc(job, next, state)
            },
            JobPhase::Done => TaskStep::Finish,
        }
    }

    /// Starts one computation per allocated process.
    fn start_processes(&self, job: &mut JobTask, state: &mut SimulationState)
        requires
            old(state).wf(),
            old(state).spec_event_count() + 0x200 <= u64::MAX,
        ensures
            final(state).wf(),
            final(state).spec_time() == old(state).spec_time(),
            final(state).spec_event_count() >= old(state).spec_event_count(),
            final(state).spec_event_count() <= old(state).spec_event_count() + 0xff,
            final(state).spec_timer_count() == old(state).spec_timer_count(),
            final(state).spec_tasks() == old(state).spec_tasks(),
            final(state).spec_ready() == old(state).spec_ready(),
            final(job).task == old(job).task,
            final(job).job_id == old(job).job_id,
            final(job).host_ids@ == old(job).host_ids@,
            final(job).allocation_ids@ == old(job).allocation_ids@,
            final(job).spec == old(job).spec,
            final(job).phase == old(job).phase,
            ({
                let hosts = old(job).host_ids@;
                let aids = old(job).allocation_ids@;
                let limit = Cluster::proc_count(hosts, aids);
                &&& final(job).outstanding@ == old(job).outstanding@ + Seq::new(
                    limit as nat,
                    |i: int| (hosts[i], (old(state).spec_event_count() + i) as u64),
                )
                &&& (forall|i: int|
                    0 <= i < limit ==> emitted(
                        *old(state),
                        *final(state),
                        i,
                        self.spec_id(),
                        hosts[i],
                        EventData::CompAllocationRequest(
                            CompAllocationRequest {
                                flops: old(job).spec.flops,
                                allocation_id: aids[i],
                                cores_dependency: CoresDependency::Linear,
                                requester: self.spec_id(),
                            },
                        ),
                    ))
                &&& final(state).spec_event_count() == old(state).spec_event_count() + limit
            }),
    {
        let mut i: usize = 0;
        let n = if job.allocation_ids.len() < job.host_ids.len() {
            job.allocation_ids.len()
        } else {
            job.host_ids.len()
        };
        let limit: usize = if n < 0xff {
            n
        } else {
            0xff
        };
        proof {
            assert(limit as int == Cluster::proc_count(job.host_ids@, job.allocation_ids@));
            assert(job.outstanding@ =~= old(job).outstanding@ + Seq::new(
                0nat,
                |k: int| (old(job).host_ids@[k], (old(state).spec_event_count() + k) as u64),
            ));
        }
        while i < limit
            invariant
                old(state).wf(),
                state.wf(),
                limit <= 0xff,
                i <= limit,
                limit <= job.allocation_ids@.len(),
                limit <= job.host_ids@.len(),
                state.spec_time() == old(state).spec_time(),
                state.spec_event_count() == old(state).spec_event_count() + i,
                state.spec_timer_count() == old(state).spec_timer_count(),
                state.spec_tasks() == old(state).spec_tasks(),
                state.spec_ready() == old(state).spec_ready(),
                old(state).spec_event_count() + 0x200 <= u64::MAX,
                job.task == old(job).task,
                job.job_id == old(job).job_id,
                job.host_ids@ == old(job).host_ids@,
                job.allocation_ids@ == old(job).allocation_ids@,
                job.spec == old(job).spec,
                job.phase == old(job).phase,
                job.outstanding@ == old(job).outstanding@ + Seq::new(
                    i as nat,
                    |k: int| (old(job).host_ids@[k], (old(state).spec_event_count() + k) as u64),
                ),
                forall|k: int|
                    0 <= k < i ==> emitted(
                        *old(state),
                        *state,
                        k,
                        self.spec_id(),
                        old(job).host_ids@[k],
                        EventData::CompAllocationRequest(
                            CompAllocationRequest {
                                flops: old(job).spec.flops,
                                allocation_id: old(job).allocation_ids@[k],
                                cores_dependency: CoresDependency::Linear,
                                requester: self.spec_id(),
                            },
                        ),
                    ),
            decreases limit - i,
        {
            let host = job.host_ids[i];
            let aid = job.allocation_ids[i];
            let cid = state.add_event(
                EventData::CompAllocationRequest(
                    CompAllocationRequest {
                        flops: job.spec.flops,
                        allocation_id: aid,
                        cores_dependency: CoresDependency::Linear,
                        requester: self.id,
                    },
                ),
                self.id,
                host,
                0,
            );
            job.outstanding.push((host, cid));
            proof {
                assert(job.outstanding@ =~= old(job).outstanding@ + Seq::new(
                    (i + 1) as nat,
                    |k: int| (old(job).host_ids@[k], (old(state).spec_event_count() + k) as u64),
                ));
            }
            i = i + 1;
        }
    }

    /// Awaits the next outstanding computation, or moves to deallocation
    /// when none is left.
    fn await_running(&self, job: &mut JobTask, state: &mut SimulationState) -> (r: TaskStep)
        requires
            old(state).wf(),
            old(state).spec_event_count() + 0x200 <= u64::MAX,
        ensures
            final(state).wf(),
            final(state).spec_time() == old(state).spec_time(),
            final(state).spec_event_count() >= old(state).spec_event_count(),
            final(state).spec_event_count() <= old(state).spec_event_count() + 2,
            final(state).spec_timer_count() == old(state).spec_timer_count(),
            final(state).spec_tasks() == old(state).spec_tasks(),
            final(state).spec_ready() == old(state).spec_ready(),
            old(job).outstanding@.len() > 0 ==> r == (TaskStep::WaitEvent {
                key: AwaitKey {
                    from: old(job).outstanding@[0].0,
                    to: self.spec_id(),
                    msg_type: 4,
                    details: Some(old(job).outstanding@[0].1),
                },
            }) && *final(job) == *old(job) && *final(state) == *old(state),
            old(job).outstanding@.len() == 0 ==> Cluster::wind_down_post(
                self.spec_id(),
                self.spec_scheduler_id(),
                old(job).host_ids@,
                old(job).allocation_ids@,
                old(job).job_id,
                *final(job),
                *old(state),
                *final(state),
                0,
                0,
                r,
            ) && final(job).outstanding@ == old(job).outstanding@,
            final(job).task == old(job).task,
            final(job).job_id == old(job).job_id,
            final(job).host_ids@ == old(job).host_ids@,
            final(job).allocation_ids@ == old(job).allocation_ids@,
            final(job).spec == old(job).spec,
    {
        if job.outstanding.len() > 0 {
            let (host, cid) = (job.outstanding[0].0, job.outstanding[0].1);
            // CompFinished carries the computation id as its key
            TaskStep::WaitEvent {
                key: AwaitKey { from: host, to: self.id, msg_type: 4, details: Some(cid) },
            }
        } else {
            self.advance_dealloc(job, 0, state)
        }
    }

    /// Releases the allocation at position `next`, or reports the job
    /// finished when every allocation is released.
    fn advance_dealloc(&self, job: &mut JobTask, next: usize, state: &mut SimulationState) -> (r: TaskStep)
        requires
            old(state).wf(),
            old(state).spec_event_count() + 0x200 <= u64::MAX,
        ensures
            final(state).wf(),
            final(state).spec_time() == old(state).spec_time(),
            final(state).spec_event_count() >= old(state).spec_event_count(),
            final(state).spec_event_count() <= old(state).spec_event_count() + 2,
            final(state).spec_timer_count() == old(state).spec_timer_count(),
            final(state).spec_tasks() == old(state).spec_tasks(),
            final(state).spec_ready() == old(state).spec_ready(),
            Cluster::wind_down_post(
                self.spec_id(),
                self.spec_scheduler_id(),
                old(job).host_ids@,
                old(job).allocation_ids@,
                old(job).job_id,
                *final(job),
                *old(state),
                *final(state),
                next as int,
                0,
                r,
            ),
            final(job).task == old(job).task,
            final(job).job_id == old(job).job_id,
            final(job).host_ids@ == old(job).host_ids@,
            final(job).allocation_ids@ == old(job).allocation_ids@,
            final(job).outstanding@ == old(job).outstanding@,
            final(job).spec == old(job).spec,
    {
        if next < job.allocation_ids.len() && next < job.host_ids.len() {
            let host = job.host_ids[next];
            let aid = job.allocation_ids[next];
            let did = state.add_event(
                EventData::ManagedDeallocationRequest(
                    ManagedDeallocationRequest { allocation_id: aid, requester: self.id },
                ),
                self.id,
                host,
                0,
            );
            job.phase = JobPhase::Deallocating { next: next + 1, pending: did };
            // DeallocationSuccess carries the request id as its key
            TaskStep::WaitEvent {
                key: AwaitKey { from: host, to: self.id, msg_type: 13, details: Some(did) },
            }
        } else {
            let mut hosts: Vec<Id> = Vec::new();
            let mut i: usize = 0;
            while i < job.host_ids.len()
                invariant
                    i <= job.host_ids@.len(),
                    job.host_ids@ == old(job).host_ids@,
                    hosts@ == job.host_ids@.subrange(0, i as int),
                decreases job.host_ids@.len() - i,
            {
                hosts.push(job.host_ids[i]);
                proof {
                    assert(hosts@ =~= job.host_ids@.subrange(0, i + 1));
                }
                i = i + 1;
            }
            proof {
                assert(hosts@ =~= old(job).host_ids@);
            }
            let ghost hv = hosts;
            let _ = state.add_event(
                EventData::JobFinished(JobFinished { job_id: job.job_id, hosts }),
                self.id,
                self.scheduler_id,
                0,
            );
            job.phase = JobPhase::Done;
            proof {
                let ev = Event {
                    id: old(state).spec_event_count(),
                    time: old(state).spec_time(),
                    src: self.spec_id(),
                    dst: self.spec_scheduler_id(),
                    data: EventData::JobFinished(
                        JobFinished { job_id: old(job).job_id, hosts: hv },
                    ),
                };
                assert(state.queue().heap_seq().contains(ev));
            }
            TaskStep::Finish
        }
    }
}

} // verus!
