//! Generation of host and task arrival events.

use vstd::prelude::*;

use crate::event::{Event, EventData, ExecutionRequestEvent, HostAddedEvent};
use crate::machine::Machine;
use crate::simulation::Simulation;
use crate::state::SimulationState;
use crate::Id;

verus! {

/// What an execution requests per node.
#[derive(Clone, Copy, PartialEq, Eq, Structural, Debug)]
pub struct ResourceRequirements {
    /// Number of nodes.
    pub nodes_count: u32,
    /// Cores per node.
    pub cpu_per_node: u32,
    /// Memory per node.
    pub memory_per_node: u64,
}

/// Static description of a task arrival.
#[derive(Clone, Copy, PartialEq, Eq, Structural, Debug)]
pub struct TaskInfo {
    /// Id of the task.
    pub id: u64,
    /// Cores the task asks for.
    pub cpu_cores: u32,
    /// Memory the task asks for.
    pub memory: u64,
}

/// A host left the cluster.
#[derive(Clone, Copy, PartialEq, Eq, Structural, Debug)]
pub struct HostRemoved {
    /// Component id of the removed host.
    pub id: Id,
}

/// Generates a small random cluster and a random task arrival sequence.
pub struct RandomEventGenerator {
    id: Id,
    tasks_count: u32,
}

impl RandomEventGenerator {
    /// The number of tasks the generator emits.
    pub closed spec fn spec_tasks_count(self) -> u32 {
        self.tasks_count
    }

    /// Creates a generator emitting the given number of tasks.
    pub fn new(id: Id, tasks_count: u32) -> (r: RandomEventGenerator)
        ensures
            r.spec_tasks_count() == tasks_count,
    {
        RandomEventGenerator { id, tasks_count }
    }

    /// Emits host arrivals for a few machines with random sizes, drawn from
    /// the simulation-wide seeded generator, and returns their descriptions.
    pub fn schedule_events(&mut self, proxy_id: Id, state: &mut SimulationState) -> (r: Vec<Machine>)
        requires
            old(state).wf(),
            old(state).has_budget(),
        ensures
            final(state).wf(),
            r@.len() == 3,
            final(state).spec_time() == old(state).spec_time(),
            final(state).spec_event_count() >= old(state).spec_event_count(),
            final(state).spec_event_count() <= old(state).spec_event_count() + 3,
    {
        let mut machines: Vec<Machine> = Vec::new();
        let mut id: u32 = 0;
        while id < 3
            invariant
                state.wf(),
                id <= 3,
                machines@.len() == id,
                state.spec_time() == old(state).spec_time(),
                state.spec_event_count() >= old(state).spec_event_count(),
                state.spec_event_count() <= old(state).spec_event_count() + id,
                old(state).has_budget(),
            decreases 3 - id,
        {
            let machine = if id % 2 == 0 {
                Machine {
                    id,
                    cpu_cores: state.gen_range(8, 20) as u32,
                    memory: state.gen_range(50000, 128000),
                }
            } else {
                Machine {
                    id,
                    cpu_cores: state.gen_range(40, 60) as u32,
                    memory: state.gen_range(10000, 30000),
                }
            };
            let _ = state.add_event(
                EventData::HostAdded(
                    HostAddedEvent {
                        host_id: machine.id,
                        cpus: machine.cpu_cores,
                        memory: machine.memory,
                    },
                ),
                self.id,
                proxy_id,
                0,
            );
            machines.push(machine);
            id = id + 1;
        }
        machines
    }
}


/// Whether an earlier entry of the workload carries the same execution id.
pub open spec fn is_duplicate(jobs: Seq<(u64, u64)>, i: int) -> bool {
    exists|m: int| 0 <= m < i && (#[trigger] jobs[m]).0 == jobs[i].0
}

/// How many entries of the workload carry a fresh execution id.
pub open spec fn fresh_count(jobs: Seq<(u64, u64)>) -> int
    decreases jobs.len(),
{
    if jobs.len() == 0 {
        0
    } else {
        fresh_count(jobs.drop_last()) + if is_duplicate(jobs, jobs.len() - 1) {
            0int
        } else {
            1int
        }
    }
}

/// The request of a workload entry is pending: an event from `source` to
/// `proxy` at the entry's submit time carrying its execution id, where the
/// delivery time is read off the `base` state the workload was emitted from.
pub open spec fn workload_request_pending(
    st: crate::simulation::Simulation,
    base: crate::simulation::Simulation,
    source: Id,
    proxy: Id,
    job: (u64, u64),
) -> bool {
    exists|ev: Event|
        #[trigger] st.state().queue().heap_seq().contains(ev) && ev.src == source && ev.dst
            == proxy && ev.time == base.state().delivery_time(job.1) && ev.data
            == EventData::ExecutionRequest(ExecutionRequestEvent { execution_id: job.0 })
}

/// A pending workload request stays pending while events are only added.
proof fn lemma_workload_request_kept(
    pre: crate::simulation::Simulation,
    post: crate::simulation::Simulation,
    base: crate::simulation::Simulation,
    source: Id,
    proxy: Id,
    job: (u64, u64),
)
    requires
        workload_request_pending(pre, base, source, proxy, job),
        forall|x: Event|
            pre.state().queue().heap_seq().contains(x) ==> post.state().queue().heap_seq().contains(x),
    ensures
        workload_request_pending(post, base, source, proxy, job),
{
    let ev = choose|ev: Event|
        #[trigger] pre.state().queue().heap_seq().contains(ev) && ev.src == source && ev.dst
            == proxy && ev.time == base.state().delivery_time(job.1) && ev.data
            == EventData::ExecutionRequest(ExecutionRequestEvent { execution_id: job.0 });
    assert(post.state().queue().heap_seq().contains(ev));
}

/// Emits the workload to the proxy: each `(execution id, submit delay)`
/// entry becomes an execution request delivered after its submit delay; an
/// entry repeating an earlier id is rejected. Returns how many were emitted.
pub fn emit_workload(sim: &mut Simulation, source: Id, proxy: Id, jobs: &Vec<(u64, u64)>) -> (r:
    usize)
    requires
        old(sim).wf(),
        old(sim).state().spec_event_count() + jobs@.len() <= u64::MAX,
    ensures
        final(sim).wf(),
        final(sim).names_seq() == old(sim).names_seq(),
        final(sim).state().spec_time() == old(sim).state().spec_time(),
        r == fresh_count(jobs@),
        final(sim).state().spec_event_count() == old(sim).state().spec_event_count()
            + fresh_count(jobs@),
        forall|i: int|
            0 <= i < jobs@.len() && !is_duplicate(jobs@, i) ==> workload_request_pending(
                *final(sim),
                *old(sim),
                source,
                proxy,
                #[trigger] jobs@[i],
            ),
{
    let mut emitted_total: usize = 0;
    let mut i: usize = 0;
    while i < jobs.len()
        invariant
            sim.wf(),
            i <= jobs@.len(),
            emitted_total as int == fresh_count(jobs@.subrange(0, i as int)),
            emitted_total <= i,
            sim.names_seq() == old(sim).names_seq(),
            sim.state().spec_time() == old(sim).state().spec_time(),
            sim.state().spec_event_count() == old(sim).state().spec_event_count()
                + emitted_total,
            old(sim).state().spec_event_count() + jobs@.len() <= u64::MAX,
            forall|m: int|
                0 <= m < i && !is_duplicate(jobs@, m) ==> workload_request_pending(
                    *sim,
                    *old(sim),
                    source,
                    proxy,
                    #[trigger] jobs@[m],
                ),
        decreases jobs@.len() - i,
    {
        let (job_id, submit) = jobs[i];
        // scan the prefix for the same id: duplicates are rejected
        let mut dup = false;
        let mut m: usize = 0;
        while m < i
            invariant
                m <= i <= jobs@.len(),
                dup == exists|k: int| 0 <= k < m && (#[trigger] jobs@[k]).0 == jobs@[i as int].0,
                job_id == jobs@[i as int].0,
            decreases i - m,
        {
            if jobs[m].0 == job_id {
                dup = true;
                proof {
                    assert(jobs@[m as int].0 == jobs@[i as int].0);
                }
            }
            m = m + 1;
        }
        let ghost pre = *sim;
        if !dup {
            let _ = sim.emit(
                EventData::ExecutionRequest(ExecutionRequestEvent { execution_id: job_id }),
                source,
                proxy,
                submit,
            );
            emitted_total = emitted_total + 1;
            proof {
                let ev = Event {
                    id: pre.state().spec_event_count(),
                    time: pre.state().delivery_time(submit),
                    src: source,
                    dst: proxy,
                    data: EventData::ExecutionRequest(
                        ExecutionRequestEvent { execution_id: job_id },
                    ),
                };
                assert(sim.state().queue().heap_seq().contains(ev));
                assert(pre.state().delivery_time(submit) == old(sim).state().delivery_time(
                    submit,
                ));
                assert(workload_request_pending(*sim, *old(sim), source, proxy, jobs@[i as int]));
                assert forall|m: int|
                    0 <= m < i && !is_duplicate(jobs@, m) implies workload_request_pending(
                    *sim,
                    *old(sim),
                    source,
                    proxy,
                    #[trigger] jobs@[m],
                ) by {
                    lemma_workload_request_kept(pre, *sim, *old(sim), source, proxy, jobs@[m]);
                }
            }
        }
        proof {
            assert(dup == is_duplicate(jobs@, i as int));
            let p1 = jobs@.subrange(0, i + 1);
            assert(p1.drop_last() =~= jobs@.subrange(0, i as int));
            assert(p1.last() == jobs@[i as int]);
            assert(is_duplicate(p1, p1.len() - 1) == is_duplicate(jobs@, i as int)) by {
                if is_duplicate(p1, p1.len() - 1) {
                    let k = choose|k: int| 0 <= k < p1.len() - 1 && (#[trigger] p1[k]).0 == p1[
                        p1.len() - 1].0;
                    assert(jobs@[k].0 == jobs@[i as int].0);
                }
                if is_duplicate(jobs@, i as int) {
                    let k = choose|k: int|
                        0 <= k < i && (#[trigger] jobs@[k]).0 == jobs@[i as int].0;
                    assert(p1[k].0 == p1[p1.len() - 1].0);
                }
            }
        }
        i = i + 1;
    }
    proof {
        assert(jobs@.subrange(0, jobs@.len() as int) =~= jobs@);
    }
    emitted_total
}

} // verus!
