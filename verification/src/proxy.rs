//! The submission proxy: stamps incoming execution requests with their
//! arrival time and forwards them to the scheduler; host notifications are
//! re-broadcast to both the scheduler and the cluster.

use vstd::prelude::*;

use crate::event::{Event, EventData, ExecutionRequestEvent, HostAddedEvent};
use crate::state::SimulationState;
use crate::Id;

verus! {

/// The submission proxy between workload sources and the scheduler.
pub struct Proxy {
    id: Id,
    scheduler_id: Id,
    cluster_id: Id,
    jobs_scheduled_time: Vec<(u64, u64)>,
}

impl Proxy {
    /// The proxy's component id.
    pub closed spec fn spec_id(self) -> Id {
        self.id
    }

    /// The recorded `(execution, arrival time)` pairs, in arrival order.
    pub closed spec fn scheduled_times(self) -> Seq<(u64, u64)> {
        self.jobs_scheduled_time@
    }

    /// The scheduler requests are forwarded to.
    pub closed spec fn spec_scheduler_id(self) -> Id {
        self.scheduler_id
    }

    /// The cluster host notifications are re-broadcast to.
    pub closed spec fn spec_cluster_id(self) -> Id {
        self.cluster_id
    }

    /// Creates a proxy forwarding to the given scheduler and cluster.
    pub fn new(id: Id, scheduler_id: Id, cluster_id: Id) -> (r: Proxy)
        ensures
            r.spec_id() == id,
            r.spec_scheduler_id() == scheduler_id,
            r.spec_cluster_id() == cluster_id,
            r.scheduled_times().len() == 0,
    {
        Proxy { id, scheduler_id, cluster_id, jobs_scheduled_time: Vec::new() }
    }

    /// The proxy's component id.
    pub fn get_id(&self) -> (r: Id)
        ensures
            r == self.spec_id(),
    {
        self.id
    }

    /// Changes the scheduler that requests are forwarded to.
    pub fn set_scheduler(&mut self, scheduler_id: Id)
        ensures
            final(self).spec_id() == old(self).spec_id(),
            final(self).spec_scheduler_id() == scheduler_id,
            final(self).spec_cluster_id() == old(self).spec_cluster_id(),
            final(self).scheduled_times() == old(self).scheduled_times(),
    {
        self.scheduler_id = scheduler_id;
    }

    /// Handles an event: an execution request is stamped with the current
    /// time and forwarded to the scheduler; a host notification goes to both
    /// the scheduler and the cluster.
    pub fn on(&mut self, event: Event, state: &mut SimulationState)
        requires
            old(state).wf(),
            old(state).has_budget(),
        ensures
            final(state).wf(),
            final(state).spec_time() == old(state).spec_time(),
            final(state).spec_event_count() >= old(state).spec_event_count(),
            final(state).spec_event_count() <= old(state).spec_event_count() + 2,
            final(state).spec_timer_count() == old(state).spec_timer_count(),
            final(state).spec_tasks() == old(state).spec_tasks(),
            final(state).spec_ready() == old(state).spec_ready(),
            final(self).spec_id() == old(self).spec_id(),
            final(self).spec_scheduler_id() == old(self).spec_scheduler_id(),
            final(self).spec_cluster_id() == old(self).spec_cluster_id(),
            // an execution request is stamped with its arrival time and
            // forwarded to the scheduler; a host notification goes to both
            // the scheduler and the cluster; nothing else does anything
            match event.data {
                EventData::ExecutionRequest(req) => final(self).scheduled_times() == old(self).scheduled_times().push((req.execution_id, old(state).spec_time()))
                    && final(state).queue().heap_seq().contains(
                    Event {
                        id: old(state).spec_event_count(),
                        time: old(state).spec_time(),
                        src: old(self).spec_id(),
                        dst: old(self).spec_scheduler_id(),
                        data: EventData::ExecutionRequest(
                            ExecutionRequestEvent { execution_id: req.execution_id },
                        ),
                    },
                ) && final(state).spec_event_count() == old(state).spec_event_count() + 1,
                EventData::HostAdded(h) => final(self).scheduled_times() == old(self).scheduled_times() && final(state).queue().heap_seq().contains(
                    Event {
                        id: old(state).spec_event_count(),
                        time: old(state).spec_time(),
                        src: old(self).spec_id(),
                        dst: old(self).spec_scheduler_id(),
                        data: EventData::HostAdded(
                            HostAddedEvent { host_id: h.host_id, cpus: h.cpus, memory: h.memory },
                        ),
                    },
                ) && final(state).queue().heap_seq().contains(
                    Event {
                        id: (old(state).spec_event_count() + 1) as u64,
                        time: old(state).spec_time(),
                        src: old(self).spec_id(),
                        dst: old(self).spec_cluster_id(),
                        data: EventData::HostAdded(
                            HostAddedEvent { host_id: h.host_id, cpus: h.cpus, memory: h.memory },
                        ),
                    },
                ) && final(state).spec_event_count() == old(state).spec_event_count() + 2,
                _ => final(self).scheduled_times() == old(self).scheduled_times() && *final(state) == *old(state) && *final(self) == *old(self),
            },
    {
        match event.data {
            EventData::ExecutionRequest(req) => {
                let now = state.time();
                self.jobs_scheduled_time.push((req.execution_id, now));
                let _ = state.add_event(
                    EventData::ExecutionRequest(
                        ExecutionRequestEvent { execution_id: req.execution_id },
                    ),
                    self.id,
                    self.scheduler_id,
                    0,
                );
            },
            EventData::HostAdded(h) => {
                let _ = state.add_event(
                    EventData::HostAdded(
                        HostAddedEvent { host_id: h.host_id, cpus: h.cpus, memory: h.memory },
                    ),
                    self.id,
                    self.scheduler_id,
                    0,
                );
                let _ = state.add_event(
                    EventData::HostAdded(
                        HostAddedEvent { host_id: h.host_id, cpus: h.cpus, memory: h.memory },
                    ),
                    self.id,
                    self.cluster_id,
                    0,
                );
            },
            _ => {},
        }
    }
}

} // verus!
