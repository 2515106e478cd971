//! Events: timestamped messages exchanged between simulation components.
//!
//! An event carries a payload out of a fixed family of message variants.
//! Events are ordered by `(time, id)`, both ascending.

use vstd::prelude::*;

use crate::{EventId, Id};

verus! {

/// Resource allocation: a number of cores and an amount of memory.
#[derive(Clone, Copy, PartialEq, Eq, Structural, Debug)]
pub struct Allocation {
    /// Number of cores.
    pub cores: u32,
    /// Amount of memory.
    pub memory: u64,
}

impl Allocation {
    /// Creates a new allocation.
    pub fn new(cores: u32, memory: u64) -> (r: Self)
        ensures
            r.cores == cores,
            r.memory == memory,
    {
        Self { cores, memory }
    }
}

/// Reason for a computation, allocation or deallocation failure.
#[derive(Clone, Copy, PartialEq, Eq, Structural, Debug)]
pub enum FailReason {
    /// The resource does not have enough memory or available cores.
    NotEnoughResources {
        /// Currently available number of cores.
        available_cores: u32,
        /// Currently available amount of memory.
        available_memory: u64,
        /// Requested number of cores.
        requested_cores: u32,
        /// Requested amount of memory.
        requested_memory: u64,
    },
    /// The referenced managed allocation does not exist.
    AllocationNotFound {
        /// Id of the allocation that was not found.
        allocation_id: u64,
    },
}

/// Dependency of the parallel speedup on the number of cores used,
/// expressed with exact rational coefficients.
#[derive(Clone, Copy, PartialEq, Eq, Structural, Debug)]
pub enum CoresDependency {
    /// `speedup(cores) = cores`.
    Linear,
    /// Amdahl's law with a fixed sequential fraction `fixed_num / fixed_den`:
    /// `speedup(cores) = fixed_den * cores / (fixed_num * cores + fixed_den - fixed_num)`.
    LinearWithFixed {
        /// Numerator of the sequential fraction.
        fixed_num: u32,
        /// Denominator of the sequential fraction; must be positive and
        /// at least `fixed_num`.
        fixed_den: u32,
    },
    /// A custom constant speedup `num / den`.
    Custom {
        /// Numerator of the speedup.
        num: u32,
        /// Denominator of the speedup; must be positive.
        den: u32,
    },
}

impl CoresDependency {
    /// Whether the coefficients describe a well-formed dependency.
    pub open spec fn well_formed(self) -> bool {
        match self {
            CoresDependency::Linear => true,
            CoresDependency::LinearWithFixed { fixed_num, fixed_den } => {
                0 < fixed_den && fixed_num <= fixed_den
            },
            CoresDependency::Custom { num, den } => 0 < num && 0 < den,
        }
    }

    /// Decides whether the coefficients describe a well-formed dependency.
    pub fn is_well_formed(&self) -> (r: bool)
        ensures
            r == self.well_formed(),
    {
        match self {
            CoresDependency::Linear => true,
            CoresDependency::LinearWithFixed { fixed_num, fixed_den } => 0 < *fixed_den
                && *fixed_num <= *fixed_den,
            CoresDependency::Custom { num, den } => 0 < *num && 0 < *den,
        }
    }

    /// The speedup achieved on `cores` cores, as an exact rational
    /// `(numerator, denominator)` pair.
    pub fn speedup(&self, cores: u32) -> (r: (u64, u64))
        requires
            self.well_formed(),
            0 < cores,
        ensures
            r == self.spec_speedup(cores),
            0 < r.0,
            0 < r.1,
    {
        match self {
            CoresDependency::Linear => (cores as u64, 1u64),
            CoresDependency::LinearWithFixed { fixed_num, fixed_den } => {
                let fd: u64 = *fixed_den as u64;
                let fq: u64 = *fixed_num as u64;
                let cs: u64 = cores as u64;
                proof {
                    assert(fd * cs <= 0xffffffffu64 * 0xffffffffu64 && fq * cs
                        <= 0xffffffffu64 * 0xffffffffu64 && fq * 1 <= fq * cs && 1 <= fd * cs)
                        by (nonlinear_arith)
                        requires
                            1 <= fd <= 0xffffffffu64,
                            fq <= 0xffffffffu64,
                            1 <= cs <= 0xffffffffu64,
                    ;
                }
                let num: u64 = fd * cs;
                let den: u64 = fq * cs + fd - fq;
                (num, den)
            },
            CoresDependency::Custom { num, den } => (*num as u64, *den as u64),
        }
    }

    /// The speedup rational, at the specification level.
    pub open spec fn spec_speedup(self, cores: u32) -> (u64, u64) {
        match self {
            CoresDependency::Linear => (cores as u64, 1u64),
            CoresDependency::LinearWithFixed { fixed_num, fixed_den } => (
                (fixed_den * cores) as u64,
                (fixed_num * cores + fixed_den - fixed_num) as u64,
            ),
            CoresDependency::Custom { num, den } => (num as u64, den as u64),
        }
    }
}

/// Request to start a one-shot computation on a host.
#[derive(Clone, Copy, PartialEq, Eq, Structural, Debug)]
pub struct CompRequest {
    /// Total computation size in work units.
    pub flops: u64,
    /// Total memory needed for the computation.
    pub memory: u64,
    /// Minimum number of used cores.
    pub min_cores: u32,
    /// Maximum number of used cores.
    pub max_cores: u32,
    /// Dependency of the parallel speedup on the number of used cores.
    pub cores_dependency: CoresDependency,
    /// Id of the component to inform about the computation progress.
    pub requester: Id,
}

/// Request to start a computation inside a managed allocation.
#[derive(Clone, Copy, PartialEq, Eq, Structural, Debug)]
pub struct CompAllocationRequest {
    /// Total computation size in work units.
    pub flops: u64,
    /// Id of the managed allocation.
    pub allocation_id: u64,
    /// Dependency of the parallel speedup on the number of used cores.
    pub cores_dependency: CoresDependency,
    /// Id of the component to inform about the computation progress.
    pub requester: Id,
}

/// A computation was started successfully.
#[derive(Clone, Copy, PartialEq, Eq, Structural, Debug)]
pub struct CompStarted {
    /// Id of the computation.
    pub id: u64,
    /// Number of cores allocated to the computation.
    pub cores: u32,
}

/// A computation finished successfully.
#[derive(Clone, Copy, PartialEq, Eq, Structural, Debug)]
pub struct CompFinished {
    /// Id of the computation.
    pub id: u64,
}

/// A computation failed.
#[derive(Clone, Copy, PartialEq, Eq, Structural, Debug)]
pub struct CompFailed {
    /// Id of the computation.
    pub id: u64,
    /// Reason for the failure.
    pub reason: FailReason,
}

/// Request to allocate resources.
#[derive(Clone, Copy, PartialEq, Eq, Structural, Debug)]
pub struct AllocationRequest {
    /// The requested resources.
    pub allocation: Allocation,
    /// Id of the component to inform about the allocation result.
    pub requester: Id,
}

/// Request to create a managed allocation that time-shares its cores.
#[derive(Clone, Copy, PartialEq, Eq, Structural, Debug)]
pub struct ManagedAllocationRequest {
    /// The requested resources.
    pub allocation: Allocation,
    /// Id of the component to inform about the allocation result.
    pub requester: Id,
}

/// Request to release a managed allocation.
#[derive(Clone, Copy, PartialEq, Eq, Structural, Debug)]
pub struct ManagedDeallocationRequest {
    /// Id of the managed allocation to release.
    pub allocation_id: u64,
    /// Id of the component to inform about the deallocation result.
    pub requester: Id,
}

/// An allocation succeeded.
#[derive(Clone, Copy, PartialEq, Eq, Structural, Debug)]
pub struct AllocationSuccess {
    /// Id of the allocation.
    pub id: u64,
}

/// An allocation failed.
#[derive(Clone, Copy, PartialEq, Eq, Structural, Debug)]
pub struct AllocationFailed {
    /// Id of the allocation.
    pub id: u64,
    /// Reason for the failure.
    pub reason: FailReason,
}

/// Request to release previously allocated resources.
#[derive(Clone, Copy, PartialEq, Eq, Structural, Debug)]
pub struct DeallocationRequest {
    /// The resources to release.
    pub allocation: Allocation,
    /// Id of the component to inform about the deallocation result.
    pub requester: Id,
}

/// A deallocation succeeded.
#[derive(Clone, Copy, PartialEq, Eq, Structural, Debug)]
pub struct DeallocationSuccess {
    /// Id of the deallocation.
    pub id: u64,
}

/// A deallocation failed.
#[derive(Clone, Copy, PartialEq, Eq, Structural, Debug)]
pub struct DeallocationFailed {
    /// Id of the deallocation.
    pub id: u64,
    /// Reason for the failure.
    pub reason: FailReason,
}

/// A running computation inside a managed allocation.
#[derive(Clone, Copy, PartialEq, Eq, Structural, Debug)]
pub struct RunningComputation {
    /// Id of the computation.
    pub id: u64,
    /// Number of cores used by the computation.
    pub cores: u32,
    /// Amount of memory used by the computation.
    pub memory: u64,
    /// Id of the component to inform about the computation progress.
    pub requester: Id,
}

impl RunningComputation {
    /// Creates a new running computation record.
    pub fn new(id: u64, cores: u32, memory: u64, requester: Id) -> (r: Self)
        ensures
            r == (RunningComputation { id, cores, memory, requester }),
    {
        RunningComputation { id, cores, memory, requester }
    }
}

/// Internal self-event of a host: the earliest computation of a managed
/// allocation is projected to finish now.
#[derive(Clone, Copy, PartialEq, Eq, Structural, Debug)]
pub struct InternalCompFinished {
    /// The computation projected to finish.
    pub computation: RunningComputation,
    /// Id of the managed allocation it runs in.
    pub allocation_id: u64,
}

/// Command to the cluster: run an execution on the given hosts.
#[derive(Debug)]
pub struct Schedule {
    /// Id of the execution to run.
    pub job_id: u64,
    /// Hosts to run the execution on.
    pub host_ids: Vec<Id>,
}

/// Command to the cluster: cancel an execution.
#[derive(Clone, Copy, PartialEq, Eq, Structural, Debug)]
pub struct Cancel {
    /// Id of the execution to cancel.
    pub task_id: u64,
}

/// Notification to the scheduler: an execution finished.
#[derive(Debug)]
pub struct JobFinished {
    /// Id of the finished execution.
    pub job_id: u64,
    /// Hosts that the execution ran on.
    pub hosts: Vec<Id>,
}

/// Notification that a host joined the cluster.
#[derive(Clone, Copy, PartialEq, Eq, Structural, Debug)]
pub struct HostAddedEvent {
    /// Id of the host component.
    pub host_id: Id,
    /// Number of cores of the host.
    pub cpus: u32,
    /// Amount of memory of the host.
    pub memory: u64,
}

/// Notification to the proxy: a new execution request arrived.
#[derive(Clone, Copy, PartialEq, Eq, Structural, Debug)]
pub struct ExecutionRequestEvent {
    /// Id of the execution.
    pub execution_id: u64,
}

/// Internal notification of a blocking queue: data is available for the
/// receiver holding the given ticket.
#[derive(Clone, Copy, PartialEq, Eq, Structural, Debug)]
pub struct Notify {
    /// Ticket of the receiver to wake.
    pub ticket_id: u64,
}

/// Payload of an event: one variant per message family.
#[derive(Debug)]
pub enum EventData {
    /// An empty payload.
    Empty,
    /// Request to start a one-shot computation.
    CompRequest(CompRequest),
    /// Request to start a computation inside a managed allocation.
    CompAllocationRequest(CompAllocationRequest),
    /// A computation was started.
    CompStarted(CompStarted),
    /// A computation finished.
    CompFinished(CompFinished),
    /// A computation failed.
    CompFailed(CompFailed),
    /// Internal projected-completion self-event of a host.
    InternalCompFinished(InternalCompFinished),
    /// Request to allocate resources.
    AllocationRequest(AllocationRequest),
    /// Request to create a managed allocation.
    ManagedAllocationRequest(ManagedAllocationRequest),
    /// Request to release a managed allocation.
    ManagedDeallocationRequest(ManagedDeallocationRequest),
    /// An allocation succeeded.
    AllocationSuccess(AllocationSuccess),
    /// An allocation failed.
    AllocationFailed(AllocationFailed),
    /// Request to release resources.
    DeallocationRequest(DeallocationRequest),
    /// A deallocation succeeded.
    DeallocationSuccess(DeallocationSuccess),
    /// A deallocation failed.
    DeallocationFailed(DeallocationFailed),
    /// Command to run an execution on hosts.
    Schedule(Schedule),
    /// Command to cancel an execution.
    Cancel(Cancel),
    /// An execution finished.
    JobFinished(JobFinished),
    /// A host joined the cluster.
    HostAdded(HostAddedEvent),
    /// A new execution request arrived.
    ExecutionRequest(ExecutionRequestEvent),
    /// Wake-up of a blocking-queue receiver.
    Notify(Notify),
}

impl EventData {
    /// A distinct tag per payload variant, used in await keys.
    pub open spec fn spec_type_tag(self) -> u64 {
        match self {
            EventData::Empty => 0,
            EventData::CompRequest(_) => 1,
            EventData::CompAllocationRequest(_) => 2,
            EventData::CompStarted(_) => 3,
            EventData::CompFinished(_) => 4,
            EventData::CompFailed(_) => 5,
            EventData::InternalCompFinished(_) => 6,
            EventData::AllocationRequest(_) => 7,
            EventData::ManagedAllocationRequest(_) => 8,
            EventData::ManagedDeallocationRequest(_) => 9,
            EventData::AllocationSuccess(_) => 10,
            EventData::AllocationFailed(_) => 11,
            EventData::DeallocationRequest(_) => 12,
            EventData::DeallocationSuccess(_) => 13,
            EventData::DeallocationFailed(_) => 14,
            EventData::Schedule(_) => 15,
            EventData::Cancel(_) => 16,
            EventData::JobFinished(_) => 17,
            EventData::HostAdded(_) => 18,
            EventData::ExecutionRequest(_) => 19,
            EventData::Notify(_) => 20,
        }
    }

    /// Returns the tag of the payload variant.
    pub fn type_tag(&self) -> (r: u64)
        ensures
            r == self.spec_type_tag(),
    {
        match self {
            EventData::Empty => 0,
            EventData::CompRequest(_) => 1,
            EventData::CompAllocationRequest(_) => 2,
            EventData::CompStarted(_) => 3,
            EventData::CompFinished(_) => 4,
            EventData::CompFailed(_) => 5,
            EventData::InternalCompFinished(_) => 6,
            EventData::AllocationRequest(_) => 7,
            EventData::ManagedAllocationRequest(_) => 8,
            EventData::ManagedDeallocationRequest(_) => 9,
            EventData::AllocationSuccess(_) => 10,
            EventData::AllocationFailed(_) => 11,
            EventData::DeallocationRequest(_) => 12,
            EventData::DeallocationSuccess(_) => 13,
            EventData::DeallocationFailed(_) => 14,
            EventData::Schedule(_) => 15,
            EventData::Cancel(_) => 16,
            EventData::JobFinished(_) => 17,
            EventData::HostAdded(_) => 18,
            EventData::ExecutionRequest(_) => 19,
            EventData::Notify(_) => 20,
        }
    }

    /// The discriminator derived from the payload, if its variant has one.
    /// It refines the await key so that a wait can target one particular
    /// request (for example, one computation id).
    pub open spec fn spec_details(self) -> Option<u64> {
        match self {
            EventData::CompStarted(d) => Some(d.id),
            EventData::CompFinished(d) => Some(d.id),
            EventData::CompFailed(d) => Some(d.id),
            EventData::AllocationSuccess(d) => Some(d.id),
            EventData::AllocationFailed(d) => Some(d.id),
            EventData::DeallocationSuccess(d) => Some(d.id),
            EventData::DeallocationFailed(d) => Some(d.id),
            EventData::Notify(d) => Some(d.ticket_id),
            _ => None,
        }
    }

    /// Returns the discriminator of the payload, if any.
    pub fn details(&self) -> (r: Option<u64>)
        ensures
            r == self.spec_details(),
    {
        match self {
            EventData::CompStarted(d) => Some(d.id),
            EventData::CompFinished(d) => Some(d.id),
            EventData::CompFailed(d) => Some(d.id),
            EventData::AllocationSuccess(d) => Some(d.id),
            EventData::AllocationFailed(d) => Some(d.id),
            EventData::DeallocationSuccess(d) => Some(d.id),
            EventData::DeallocationFailed(d) => Some(d.id),
            EventData::Notify(d) => Some(d.ticket_id),
            _ => None,
        }
    }
}

/// A timestamped message from one component to another.
#[derive(Debug)]
pub struct Event {
    /// Identifier, assigned as a monotonically increasing counter at emission.
    pub id: EventId,
    /// Absolute virtual time at which the event is delivered.
    pub time: u64,
    /// Id of the component that emitted the event.
    pub src: Id,
    /// Id of the component the event is destined for.
    pub dst: Id,
    /// The payload.
    pub data: EventData,
}

/// Equality of payloads up to the view of their host lists: a clone of a
/// payload is equal to the original in this sense.
pub open spec fn data_eq(a: EventData, b: EventData) -> bool {
    match (a, b) {
        (EventData::Schedule(x), EventData::Schedule(y)) => x.job_id == y.job_id && x.host_ids@
            == y.host_ids@,
        (EventData::JobFinished(x), EventData::JobFinished(y)) => x.job_id == y.job_id && x.hosts@
            == y.hosts@,
        _ => a == b,
    }
}

/// Equality of events up to the view of the host lists in their payloads.
pub open spec fn event_eq(a: Event, b: Event) -> bool {
    a.id == b.id && a.time == b.time && a.src == b.src && a.dst == b.dst && data_eq(a.data, b.data)
}

impl Clone for Schedule {
    /// Clones the command, keeping the fields (the host list up to its view).
    fn clone(&self) -> (r: Self)
        ensures
            r.job_id == self.job_id,
            r.host_ids@ == self.host_ids@,
    {
        let host_ids = self.host_ids.clone();
        proof {
            assert(host_ids@ =~= self.host_ids@);
        }
        Schedule { job_id: self.job_id, host_ids }
    }
}

impl Clone for JobFinished {
    /// Clones the notification, keeping the fields (the host list up to its
    /// view).
    fn clone(&self) -> (r: Self)
        ensures
            r.job_id == self.job_id,
            r.hosts@ == self.hosts@,
    {
        let hosts = self.hosts.clone();
        proof {
            assert(hosts@ =~= self.hosts@);
        }
        JobFinished { job_id: self.job_id, hosts }
    }
}

impl Clone for EventData {
    /// Clones the payload, keeping the value up to `data_eq`.
    fn clone(&self) -> (r: Self)
        ensures
            data_eq(r, *self),
    {
        match self {
            EventData::Empty => EventData::Empty,
            EventData::CompRequest(d) => EventData::CompRequest(*d),
            EventData::CompAllocationRequest(d) => EventData::CompAllocationRequest(*d),
            EventData::CompStarted(d) => EventData::CompStarted(*d),
            EventData::CompFinished(d) => EventData::CompFinished(*d),
            EventData::CompFailed(d) => EventData::CompFailed(*d),
            EventData::InternalCompFinished(d) => EventData::InternalCompFinished(*d),
            EventData::AllocationRequest(d) => EventData::AllocationRequest(*d),
            EventData::ManagedAllocationRequest(d) => EventData::ManagedAllocationRequest(*d),
            EventData::ManagedDeallocationRequest(d) => EventData::ManagedDeallocationRequest(*d),
            EventData::AllocationSuccess(d) => EventData::AllocationSuccess(*d),
            EventData::AllocationFailed(d) => EventData::AllocationFailed(*d),
            EventData::DeallocationRequest(d) => EventData::DeallocationRequest(*d),
            EventData::DeallocationSuccess(d) => EventData::DeallocationSuccess(*d),
            EventData::DeallocationFailed(d) => EventData::DeallocationFailed(*d),
            EventData::Schedule(d) => EventData::Schedule(d.clone()),
            EventData::Cancel(d) => EventData::Cancel(*d),
            EventData::JobFinished(d) => EventData::JobFinished(d.clone()),
            EventData::HostAdded(d) => EventData::HostAdded(*d),
            EventData::ExecutionRequest(d) => EventData::ExecutionRequest(*d),
            EventData::Notify(d) => EventData::Notify(*d),
        }
    }
}

impl Clone for Event {
    /// Clones the event, keeping the value up to `event_eq`.
    fn clone(&self) -> (r: Self)
        ensures
            event_eq(r, *self),
    {
        Event {
            id: self.id,
            time: self.time,
            src: self.src,
            dst: self.dst,
            data: self.data.clone(),
        }
    }
}

/// Strict `(time, id)` lexicographic order on events.
pub open spec fn event_before(a: Event, b: Event) -> bool {
    a.time < b.time || (a.time == b.time && a.id < b.id)
}

/// Non-strict `(time, id)` lexicographic order on events.
pub open spec fn event_le(a: Event, b: Event) -> bool {
    a.time < b.time || (a.time == b.time && a.id <= b.id)
}

/// Decides the strict `(time, id)` order between two events.
pub fn event_before_exec(a: &Event, b: &Event) -> (r: bool)
    ensures
        r == event_before(*a, *b),
{
    a.time < b.time || (a.time == b.time && a.id < b.id)
}

} // verus!
