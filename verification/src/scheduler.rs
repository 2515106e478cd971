//! The scheduler contract and its command channel to the cluster.

use vstd::prelude::*;

use crate::event::{Cancel, EventData, Schedule};
use crate::machine::Machine;
use crate::state::SimulationState;
use crate::{EventId, Id};

verus! {

/// A pluggable scheduler, as the kernel sees it: a name and an id.
pub trait CustomScheduler {
    /// The component name of the scheduler.
    fn name(&self) -> String;

    /// The component id of the scheduler.
    fn id(&self) -> Id;
}

/// The callbacks of a user scheduling policy. The adapter invokes them from
/// kernel events; the policy answers through the context's commands.
pub trait Scheduler {
    /// A host joined the cluster.
    fn on_host_added(&mut self, host: Machine);

    /// A new execution request arrived.
    fn on_execution_request(&mut self, ctx: &SchedulerContext, execution_id: u64, state: &mut SimulationState);

    /// An execution finished on the given hosts.
    fn on_execution_finished(&mut self, ctx: &SchedulerContext, execution_id: u64, hosts: Vec<Id>, state: &mut SimulationState);
}

/// The scheduler's command channel: schedule and cancel executions on the
/// cluster.
pub struct SchedulerContext {
    /// The scheduler's own component id.
    pub id: Id,
    /// The cluster the commands go to.
    pub cluster_id: Id,
}

impl SchedulerContext {
    /// Creates a command channel from the scheduler to the cluster.
    pub fn new(id: Id, cluster_id: Id) -> (r: Self)
        ensures
            r.id == id,
            r.cluster_id == cluster_id,
    {
        SchedulerContext { id, cluster_id }
    }

    /// Commands the cluster to run the execution on the given hosts.
    pub fn schedule(&self, host_ids: Vec<Id>, execution_id: u64, state: &mut SimulationState) -> (r: EventId)
        requires
            old(state).wf(),
            old(state).spec_event_count() < u64::MAX,
        ensures
            final(state).wf(),
            r == old(state).spec_event_count(),
            final(state).spec_event_count() == old(state).spec_event_count() + 1,
            final(state).spec_time() == old(state).spec_time(),
            final(state).timer_queue() == old(state).timer_queue(),
            final(state).spec_timer_count() == old(state).spec_timer_count(),
            final(state).spec_tasks() == old(state).spec_tasks(),
            final(state).spec_ready() == old(state).spec_ready(),
            final(state).spec_awaiters() == old(state).spec_awaiters(),
            final(state).spec_poisoned() == old(state).spec_poisoned(),
            exists|e: crate::event::Event|
                #[trigger] final(state).queue().heap_seq().contains(e) && e.id == r && e.src
                    == self.id && e.dst == self.cluster_id && e.time == old(state).spec_time() && (e.data matches EventData::Schedule(s) && s.job_id == execution_id
                    && s.host_ids@ == host_ids@),
    {
        let ghost hv = host_ids;
        let data = EventData::Schedule(Schedule { job_id: execution_id, host_ids });
        let r = state.add_event(data, self.id, self.cluster_id, 0);
        proof {
            let e = crate::event::Event {
                id: r,
                time: old(state).spec_time(),
                src: self.id,
                dst: self.cluster_id,
                data: EventData::Schedule(Schedule { job_id: execution_id, host_ids: hv }),
            };
            assert(old(state).delivery_time(0) == old(state).spec_time());
            assert(state.queue().heap_seq().contains(e));
        }
        r
    }

    /// Commands the cluster to run the execution on one host.
    pub fn schedule_one_host(&self, host_id: Id, execution_id: u64, state: &mut SimulationState) -> (r: EventId)
        requires
            old(state).wf(),
            old(state).spec_event_count() < u64::MAX,
        ensures
            final(state).wf(),
            r == old(state).spec_event_count(),
            final(state).spec_event_count() == old(state).spec_event_count() + 1,
            final(state).spec_time() == old(state).spec_time(),
            final(state).timer_queue() == old(state).timer_queue(),
            final(state).spec_timer_count() == old(state).spec_timer_count(),
            final(state).spec_tasks() == old(state).spec_tasks(),
            final(state).spec_ready() == old(state).spec_ready(),
            final(state).spec_awaiters() == old(state).spec_awaiters(),
            final(state).spec_poisoned() == old(state).spec_poisoned(),
            exists|e: crate::event::Event|
                #[trigger] final(state).queue().heap_seq().contains(e) && e.id == r && e.src
                    == self.id && e.dst == self.cluster_id && e.time == old(state).spec_time() && (
                e.data matches EventData::Schedule(s) && s.job_id == execution_id && s.host_ids@
                    =~= seq![host_id]),
    {
        let mut host_ids: Vec<Id> = Vec::new();
        host_ids.push(host_id);
        let ghost hv = host_ids;
        let data = EventData::Schedule(Schedule { job_id: execution_id, host_ids });
        let r = state.add_event(data, self.id, self.cluster_id, 0);
        proof {
            let e = crate::event::Event {
                id: r,
                time: old(state).spec_time(),
                src: self.id,
                dst: self.cluster_id,
                data: EventData::Schedule(Schedule { job_id: execution_id, host_ids: hv }),
            };
            assert(state.queue().heap_seq().contains(e));
            assert(hv@ =~= seq![host_id]);
        }
        r
    }

    /// Commands the cluster to cancel the execution.
    pub fn cancel(&self, execution_id: u64, state: &mut SimulationState) -> (r: EventId)
        requires
            old(state).wf(),
            old(state).spec_event_count() < u64::MAX,
        ensures
            final(state).wf(),
            r == old(state).spec_event_count(),
            final(state).spec_event_count() == old(state).spec_event_count() + 1,
            final(state).spec_time() == old(state).spec_time(),
            final(state).timer_queue() == old(state).timer_queue(),
            final(state).spec_timer_count() == old(state).spec_timer_count(),
            final(state).spec_tasks() == old(state).spec_tasks(),
            final(state).spec_ready() == old(state).spec_ready(),
            final(state).spec_awaiters() == old(state).spec_awaiters(),
            final(state).spec_poisoned() == old(state).spec_poisoned(),
            final(state).queue().heap_seq().contains(
                crate::event::Event {
                    id: r,
                    time: old(state).spec_time(),
                    src: self.id,
                    dst: self.cluster_id,
                    data: EventData::Cancel(Cancel { task_id: execution_id }),
                },
            ),
    {
        state.add_event(
            EventData::Cancel(Cancel { task_id: execution_id }),
            self.id,
            self.cluster_id,
            0,
        )
    }
}

} // verus!
