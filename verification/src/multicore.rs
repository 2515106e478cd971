//! Model of a computing resource with multiple cores.
//!
//! The host accounts for cores and memory across three kinds of claims:
//! one-shot computations, plain allocations summed per requester, and
//! managed allocations that time-share their cores across a changing set of
//! computations through the fair sharing model. Conservation holds at all
//! times: available plus claimed resources equal the host's totals.

use vstd::prelude::*;

use crate::event::{
    Allocation, AllocationFailed, AllocationRequest, AllocationSuccess, CompAllocationRequest,
    CompFailed, CompFinished, CompRequest, CompStarted, CoresDependency, DeallocationFailed,
    DeallocationRequest, DeallocationSuccess, Event, EventData, FailReason,
    InternalCompFinished, ManagedAllocationRequest, ManagedDeallocationRequest,
    RunningComputation,
};
use crate::sharing::FairThroughputSharingModel;
use crate::state::SimulationState;
use crate::{EventId, Id};

verus! {

/// A managed allocation: reserved cores and memory, the sharing state of its
/// in-flight computations, and the id of the currently scheduled completion
/// self-event, so that it can be cancelled when the set changes.
pub struct ManagedAllocation {
    /// Reserved cores.
    pub cores: u32,
    /// Reserved memory.
    pub memory: u64,
    /// Fair sharing state of the in-flight computations.
    pub throughput_model: FairThroughputSharingModel,
    /// Id of the pending completion self-event.
    pub next_event: EventId,
}

/// Sum of the cores of a sequence of `(cores, memory)` claims.
pub open spec fn sum_cores(s: Seq<(u32, u64)>) -> int
    decreases s.len(),
{
    if s.len() == 0 {
        0
    } else {
        sum_cores(s.drop_last()) + s.last().0
    }
}

/// Sum of the memory of a sequence of `(cores, memory)` claims.
pub open spec fn sum_memory(s: Seq<(u32, u64)>) -> int
    decreases s.len(),
{
    if s.len() == 0 {
        0
    } else {
        sum_memory(s.drop_last()) + s.last().1
    }
}

/// Both sums are non-negative.
pub proof fn lemma_sums_nonneg(s: Seq<(u32, u64)>)
    ensures
        sum_cores(s) >= 0,
        sum_memory(s) >= 0,
    decreases s.len(),
{
    if s.len() > 0 {
        lemma_sums_nonneg(s.drop_last());
    }
}

/// Appending a claim adds it to both sums.
pub proof fn lemma_sums_push(s: Seq<(u32, u64)>, x: (u32, u64))
    ensures
        sum_cores(s.push(x)) == sum_cores(s) + x.0,
        sum_memory(s.push(x)) == sum_memory(s) + x.1,
{
    assert(s.push(x).drop_last() =~= s);
    assert(s.push(x).last() == x);
}

/// Removing a claim subtracts it from both sums.
pub proof fn lemma_sums_remove(s: Seq<(u32, u64)>, i: int)
    requires
        0 <= i < s.len(),
    ensures
        sum_cores(s.remove(i)) == sum_cores(s) - s[i].0,
        sum_memory(s.remove(i)) == sum_memory(s) - s[i].1,
    decreases s.len(),
{
    if i == s.len() - 1 {
        assert(s.remove(i) =~= s.drop_last());
    } else {
        lemma_sums_remove(s.drop_last(), i);
        assert(s.remove(i).drop_last() =~= s.drop_last().remove(i));
        assert(s.remove(i).last() == s.last());
    }
}

/// Every claim is bounded by the sums.
pub proof fn lemma_sums_member(s: Seq<(u32, u64)>, i: int)
    requires
        0 <= i < s.len(),
    ensures
        s[i].0 <= sum_cores(s),
        s[i].1 <= sum_memory(s),
    decreases s.len(),
{
    lemma_sums_nonneg(s.drop_last());
    if i == s.len() - 1 {
    } else {
        lemma_sums_member(s.drop_last(), i);
    }
}

/// Updating a claim in place shifts the sums by the difference.
pub proof fn lemma_sums_update(s: Seq<(u32, u64)>, i: int, x: (u32, u64))
    requires
        0 <= i < s.len(),
    ensures
        sum_cores(s.update(i, x)) == sum_cores(s) - s[i].0 + x.0,
        sum_memory(s.update(i, x)) == sum_memory(s) - s[i].1 + x.1,
    decreases s.len(),
{
    if i == s.len() - 1 {
        assert(s.update(i, x).drop_last() =~= s.drop_last());
        assert(s.update(i, x).last() == x);
    } else {
        lemma_sums_update(s.drop_last(), i, x);
        assert(s.update(i, x).drop_last() =~= s.drop_last().update(i, x));
        assert(s.update(i, x).last() == s.last());
    }
}

/// The exact duration of a computation: `flops / (speed * speedup)`, with
/// the speedup as the rational `sn / sd`, rounded down and saturating at the
/// end of time.
pub open spec fn compute_duration(flops: u64, speed: u64, sn: u64, sd: u64) -> u64 {
    let d = (flops * sd) / (speed * sn);
    if d <= u64::MAX {
        d as u64
    } else {
        u64::MAX
    }
}

/// The work of a computation inside a managed allocation:
/// `flops / speedup = flops * sd / sn`, rounded down and saturating.
pub open spec fn managed_work(flops: u64, sn: u64, sd: u64) -> u64 {
    let w = (flops * sd) / (sn as int);
    if w <= u64::MAX {
        w as u64
    } else {
        u64::MAX
    }
}

/// Computes the duration `flops * sd / (speed * sn)`.
pub fn compute_duration_exec(flops: u64, speed: u64, sn: u64, sd: u64) -> (r: u64)
    requires
        speed > 0,
        sn > 0,
    ensures
        r == compute_duration(flops, speed, sn, sd),
{
    proof {
        assert((flops as u128) * (sd as u128) <= 0xffff_ffff_ffff_ffffu128
            * 0xffff_ffff_ffff_ffffu128 && (speed as u128) * (sn as u128)
            <= 0xffff_ffff_ffff_ffffu128 * 0xffff_ffff_ffff_ffffu128 && (speed as u128) * (
        sn as u128) > 0 && (flops as u128) * (sd as u128) == flops * sd && (speed as u128) * (
        sn as u128) == speed * sn) by (nonlinear_arith)
            requires
                speed > 0,
                sn > 0,
                flops <= 0xffff_ffff_ffff_ffffu64,
                sd <= 0xffff_ffff_ffff_ffffu64,
                speed <= 0xffff_ffff_ffff_ffffu64,
                sn <= 0xffff_ffff_ffff_ffffu64,
        ;
    }
    let num = (flops as u128) * (sd as u128);
    let den = (speed as u128) * (sn as u128);
    let d = num / den;
    if d <= u64::MAX as u128 {
        d as u64
    } else {
        u64::MAX
    }
}

/// Computes the managed work `flops * sd / sn`.
pub fn managed_work_exec(flops: u64, sn: u64, sd: u64) -> (r: u64)
    requires
        sn > 0,
    ensures
        r == managed_work(flops, sn, sd),
{
    proof {
        assert((flops as u128) * (sd as u128) == flops * sd && (flops as u128) * (sd as u128)
            <= 0xffff_ffff_ffff_ffffu128 * 0xffff_ffff_ffff_ffffu128) by (nonlinear_arith)
            requires
                flops <= 0xffff_ffff_ffff_ffffu64,
                sd <= 0xffff_ffff_ffff_ffffu64,
        ;
    }
    let num = (flops as u128) * (sd as u128);
    let w = num / (sn as u128);
    if w <= u64::MAX as u128 {
        w as u64
    } else {
        u64::MAX
    }
}

/// Models a computing resource with multiple cores that runs parallel
/// computations, plain allocations and managed, time-shared allocations.
pub struct Compute {
    id: Id,
    speed: u64,
    cores_total: u32,
    cores_available: u32,
    memory_total: u64,
    memory_available: u64,
    computations: Vec<(u64, RunningComputation)>,
    allocations: Vec<(Id, Allocation)>,
    managed_allocations: Vec<(u64, ManagedAllocation)>,
}

impl Compute {
    /// The one-shot computations, keyed by computation id.
    pub closed spec fn comps(self) -> Seq<(u64, RunningComputation)> {
        self.computations@
    }

    /// The plain allocations, keyed and summed by requester.
    pub closed spec fn allocs(self) -> Seq<(Id, Allocation)> {
        self.allocations@
    }

    /// The managed allocations, keyed by allocation id.
    pub closed spec fn managed(self) -> Seq<(u64, ManagedAllocation)> {
        self.managed_allocations@
    }

    /// The claims of the one-shot computations, as `(cores, memory)` pairs.
    pub open spec fn comp_claims(self) -> Seq<(u32, u64)> {
        self.comps().map_values(|p: (u64, RunningComputation)| (p.1.cores, p.1.memory))
    }

    /// The claims of the plain allocations.
    pub open spec fn alloc_claims(self) -> Seq<(u32, u64)> {
        self.allocs().map_values(|p: (Id, Allocation)| (p.1.cores, p.1.memory))
    }

    /// The claims of the managed allocations.
    pub open spec fn managed_claims(self) -> Seq<(u32, u64)> {
        self.managed().map_values(|p: (u64, ManagedAllocation)| (p.1.cores, p.1.memory))
    }

    /// The host's own component id.
    pub closed spec fn spec_id(self) -> Id {
        self.id
    }

    /// The core speed, in work units per time unit.
    pub closed spec fn spec_speed(self) -> u64 {
        self.speed
    }

    /// Total number of cores.
    pub closed spec fn spec_cores_total(self) -> u32 {
        self.cores_total
    }

    /// Currently available cores.
    pub closed spec fn spec_cores_available(self) -> u32 {
        self.cores_available
    }

    /// Total amount of memory.
    pub closed spec fn spec_memory_total(self) -> u64 {
        self.memory_total
    }

    /// Currently available memory.
    pub closed spec fn spec_memory_available(self) -> u64 {
        self.memory_available
    }

    /// Resource conservation: available plus claimed cores equal the total,
    /// and the same for memory; keys are unique; sharing states are well
    /// formed.
    pub open spec fn wf(self) -> bool {
        &&& self.spec_speed() > 0
        &&& self.spec_cores_available() + sum_cores(self.comp_claims()) + sum_cores(
            self.alloc_claims(),
        ) + sum_cores(self.managed_claims()) == self.spec_cores_total()
        &&& self.spec_memory_available() + sum_memory(self.comp_claims()) + sum_memory(
            self.alloc_claims(),
        ) + sum_memory(self.managed_claims()) == self.spec_memory_total()
        &&& (forall|i: int, j: int|
            0 <= i < j < self.comps().len() ==> (#[trigger] self.comps()[i]).0 != (
            #[trigger] self.comps()[j]).0)
        &&& (forall|i: int, j: int|
            0 <= i < j < self.allocs().len() ==> (#[trigger] self.allocs()[i]).0 != (
            #[trigger] self.allocs()[j]).0)
        &&& (forall|i: int, j: int|
            0 <= i < j < self.managed().len() ==> (#[trigger] self.managed()[i]).0 != (
            #[trigger] self.managed()[j]).0)
        &&& (forall|i: int|
            0 <= i < self.managed().len() ==> (
            #[trigger] self.managed()[i]).1.throughput_model.wf())
    }

    /// Creates a new computing resource.
    pub fn new(speed: u64, cores: u32, memory: u64, id: Id) -> (r: Self)
        requires
            speed > 0,
        ensures
            r.wf(),
            r.spec_id() == id,
            r.spec_speed() == speed,
            r.spec_cores_total() == cores,
            r.spec_cores_available() == cores,
            r.spec_memory_total() == memory,
            r.spec_memory_available() == memory,
            r.comps().len() == 0,
            r.allocs().len() == 0,
            r.managed().len() == 0,
    {
        let r = Compute {
            id,
            speed,
            cores_total: cores,
            cores_available: cores,
            memory_total: memory,
            memory_available: memory,
            computations: Vec::new(),
            allocations: Vec::new(),
            managed_allocations: Vec::new(),
        };
        proof {
            assert(r.comp_claims() =~= Seq::<(u32, u64)>::empty());
            assert(r.alloc_claims() =~= Seq::<(u32, u64)>::empty());
            assert(r.managed_claims() =~= Seq::<(u32, u64)>::empty());
        }
        r
    }

    /// Returns the id of the corresponding simulation component.
    pub fn id(&self) -> (r: Id)
        ensures
            r == self.spec_id(),
    {
        self.id
    }

    /// Returns the core speed.
    pub fn speed(&self) -> (r: u64)
        ensures
            r == self.spec_speed(),
    {
        self.speed
    }

    /// Returns the total number of cores.
    pub fn cores_total(&self) -> (r: u32)
        ensures
            r == self.spec_cores_total(),
    {
        self.cores_total
    }

    /// Returns the number of available cores.
    pub fn cores_available(&self) -> (r: u32)
        ensures
            r == self.spec_cores_available(),
    {
        self.cores_available
    }

    /// Returns the total amount of memory.
    pub fn memory_total(&self) -> (r: u64)
        ensures
            r == self.spec_memory_total(),
    {
        self.memory_total
    }

    /// Returns the amount of available memory.
    pub fn memory_available(&self) -> (r: u64)
        ensures
            r == self.spec_memory_available(),
    {
        self.memory_available
    }

    /// Requests a one-shot computation; returns the computation id.
    pub fn run(
        &mut self,
        flops: u64,
        memory: u64,
        min_cores: u32,
        max_cores: u32,
        cores_dependency: CoresDependency,
        requester: Id,
        state: &mut SimulationState,
    ) -> (r: u64)
        requires
            old(state).wf(),
            old(state).spec_event_count() < u64::MAX,
        ensures
            final(state).wf(),
            *final(self) == *old(self),
            r == old(state).spec_event_count(),
            final(state).spec_event_count() == old(state).spec_event_count() + 1,
            final(state).queue().heap_seq().contains(
                Event {
                    id: r,
                    time: old(state).spec_time(),
                    src: old(self).spec_id(),
                    dst: old(self).spec_id(),
                    data: EventData::CompRequest(
                        CompRequest { flops, memory, min_cores, max_cores, cores_dependency, requester },
                    ),
                },
            ),
    {
        state.add_event(
            EventData::CompRequest(
                CompRequest { flops, memory, min_cores, max_cores, cores_dependency, requester },
            ),
            self.id,
            self.id,
            0,
        )
    }

    /// Requests a computation inside a managed allocation; returns its id.
    pub fn run_on_allocation(
        &mut self,
        flops: u64,
        allocation_id: u64,
        cores_dependency: CoresDependency,
        requester: Id,
        state: &mut SimulationState,
    ) -> (r: u64)
        requires
            old(state).wf(),
            old(state).spec_event_count() < u64::MAX,
        ensures
            final(state).wf(),
            *final(self) == *old(self),
            r == old(state).spec_event_count(),
            final(state).spec_event_count() == old(state).spec_event_count() + 1,
    {
        state.add_event(
            EventData::CompAllocationRequest(
                CompAllocationRequest { flops, allocation_id, cores_dependency, requester },
            ),
            self.id,
            self.id,
            0,
        )
    }

    /// Requests a plain allocation; returns the allocation id.
    pub fn allocate(&mut self, cores: u32, memory: u64, requester: Id, state: &mut SimulationState) -> (r: u64)
        requires
            old(state).wf(),
            old(state).spec_event_count() < u64::MAX,
        ensures
            final(state).wf(),
            *final(self) == *old(self),
            r == old(state).spec_event_count(),
            final(state).spec_event_count() == old(state).spec_event_count() + 1,
    {
        state.add_event(
            EventData::AllocationRequest(
                AllocationRequest { allocation: Allocation::new(cores, memory), requester },
            ),
            self.id,
            self.id,
            0,
        )
    }

    /// Requests a plain deallocation; returns the deallocation id.
    pub fn deallocate(&mut self, cores: u32, memory: u64, requester: Id, state: &mut SimulationState) -> (r: u64)
        requires
            old(state).wf(),
            old(state).spec_event_count() < u64::MAX,
        ensures
            final(state).wf(),
            *final(self) == *old(self),
            r == old(state).spec_event_count(),
            final(state).spec_event_count() == old(state).spec_event_count() + 1,
    {
        state.add_event(
            EventData::DeallocationRequest(
                DeallocationRequest { allocation: Allocation::new(cores, memory), requester },
            ),
            self.id,
            self.id,
            0,
        )
    }

    /// Requests a managed allocation; returns the allocation id.
    pub fn allocate_managed(&mut self, cores: u32, memory: u64, requester: Id, state: &mut SimulationState) -> (r: u64)
        requires
            old(state).wf(),
            old(state).spec_event_count() < u64::MAX,
        ensures
            final(state).wf(),
            *final(self) == *old(self),
            r == old(state).spec_event_count(),
            final(state).spec_event_count() == old(state).spec_event_count() + 1,
    {
        state.add_event(
            EventData::ManagedAllocationRequest(
                ManagedAllocationRequest { allocation: Allocation::new(cores, memory), requester },
            ),
            self.id,
            self.id,
            0,
        )
    }

    /// Requests release of a managed allocation; returns the request id.
    pub fn deallocate_managed(&mut self, allocation_id: u64, requester: Id, state: &mut SimulationState) -> (r: u64)
        requires
            old(state).wf(),
            old(state).spec_event_count() < u64::MAX,
        ensures
            final(state).wf(),
            *final(self) == *old(self),
            r == old(state).spec_event_count(),
            final(state).spec_event_count() == old(state).spec_event_count() + 1,
    {
        state.add_event(
            EventData::ManagedDeallocationRequest(
                ManagedDeallocationRequest { allocation_id, requester },
            ),
            self.id,
            self.id,
            0,
        )
    }

    /// Every sharing state was last recomputed no later than `now`.
    pub open spec fn clock_ok(self, now: u64) -> bool {
        forall|i: int|
            0 <= i < self.managed().len() ==> (
            #[trigger] self.managed()[i]).1.throughput_model.last_time() <= now
    }

    /// `clock_ok` is monotone in the clock.
    pub proof fn lemma_clock_ok_monotone(self, t1: u64, t2: u64)
        requires
            self.clock_ok(t1),
            t1 <= t2,
        ensures
            self.clock_ok(t2),
    {
    }

    /// The event emitted `n` ids after the pre state's counter, delivered at
    /// the pre state's clock, is pending in the post state.
    pub open spec fn emitted_now(
        pre_st: SimulationState,
        post_st: SimulationState,
        n: int,
        src: Id,
        dst: Id,
        data: EventData,
    ) -> bool {
        crate::state::emitted(pre_st, post_st, n, src, dst, data)
    }

    /// Like `emitted_now`, at an arbitrary delivery time.
    pub open spec fn emitted_at(
        pre_st: SimulationState,
        post_st: SimulationState,
        n: int,
        time: u64,
        src: Id,
        dst: Id,
        data: EventData,
    ) -> bool {
        post_st.queue().heap_seq().contains(
            Event { id: (pre_st.spec_event_count() + n) as u64, time, src, dst, data },
        )
    }

    /// Whether a one-shot request does not fit the available resources.
    pub open spec fn comp_request_rejected(pre: Compute, req: CompRequest) -> bool {
        pre.spec_memory_available() < req.memory || pre.spec_cores_available() < req.min_cores
    }

    /// The cores granted to a fitting one-shot request.
    pub open spec fn granted_cores(pre: Compute, req: CompRequest) -> u32 {
        if pre.spec_cores_available() < req.max_cores {
            pre.spec_cores_available()
        } else {
            req.max_cores
        }
    }

    /// The failure report carrying the current availability.
    pub open spec fn not_enough(pre: Compute, cores: u32, memory: u64) -> FailReason {
        FailReason::NotEnoughResources {
            available_cores: pre.spec_cores_available(),
            available_memory: pre.spec_memory_available(),
            requested_cores: cores,
            requested_memory: memory,
        }
    }

    /// What handling a one-shot computation request does, by case: rejected
    /// or degenerate requests change nothing and fail to the requester with
    /// the current availability; a colliding id changes nothing at all; a
    /// granted request claims its resources, announces the start now and
    /// schedules its own completion after the exact duration.
    pub open spec fn comp_request_post(
        pre: Compute,
        post: Compute,
        pre_st: SimulationState,
        post_st: SimulationState,
        req: CompRequest,
        eid: u64,
    ) -> bool {
        let rejected = Compute::comp_request_rejected(pre, req);
        let cores = Compute::granted_cores(pre, req);
        let degenerate = !rejected && (cores == 0 || !req.cores_dependency.well_formed());
        let dup = exists|k: int| 0 <= k < pre.comps().len() && (#[trigger] pre.comps()[k]).0 == eid;
        let failure = EventData::CompFailed(
            CompFailed { id: eid, reason: Compute::not_enough(pre, req.min_cores, req.memory) },
        );
        let sp = req.cores_dependency.spec_speedup(cores);
        &&& rejected ==> post == pre && Compute::emitted_now(
            pre_st,
            post_st,
            0,
            pre.spec_id(),
            req.requester,
            failure,
        )
        &&& degenerate ==> post == pre && Compute::emitted_now(
            pre_st,
            post_st,
            0,
            pre.spec_id(),
            req.requester,
            failure,
        )
        &&& (!rejected && !degenerate && dup) ==> post == pre && post_st == pre_st
        &&& (!rejected && !degenerate && !dup) ==> {
            &&& post.spec_cores_available() == pre.spec_cores_available() - cores
            &&& post.spec_memory_available() == pre.spec_memory_available() - req.memory
            &&& post.comps() == pre.comps().push(
                (
                    eid,
                    RunningComputation { id: eid, cores, memory: req.memory, requester: req.requester },
                ),
            )
            &&& Compute::emitted_now(
                pre_st,
                post_st,
                0,
                pre.spec_id(),
                req.requester,
                EventData::CompStarted(CompStarted { id: eid, cores }),
            )
            &&& Compute::emitted_at(
                pre_st,
                post_st,
                1,
                pre_st.delivery_time(compute_duration(req.flops, pre.spec_speed(), sp.0, sp.1)),
                pre.spec_id(),
                pre.spec_id(),
                EventData::CompFinished(CompFinished { id: eid }),
            )
        }
    }

    /// What handling a self-delivered completion does: an unknown id is a
    /// broken invariant and fatally stops the run; a known one gives its
    /// claim back and forwards the completion to the original requester.
    pub open spec fn comp_finished_post(
        pre: Compute,
        post: Compute,
        pre_st: SimulationState,
        post_st: SimulationState,
        id: u64,
    ) -> bool {
        let known = exists|k: int| 0 <= k < pre.comps().len() && (#[trigger] pre.comps()[k]).0 == id;
        &&& !known ==> post == pre && post_st.spec_poisoned() && post_st.queue() == pre_st.queue()
            && post_st.spec_event_count() == pre_st.spec_event_count()
        &&& known ==> exists|k: int|
            0 <= k < pre.comps().len() && (#[trigger] pre.comps()[k]).0 == id && post.comps()
                == pre.comps().remove(k) && post.spec_cores_available()
                == pre.spec_cores_available() + pre.comps()[k].1.cores
                && post.spec_memory_available() == pre.spec_memory_available()
                + pre.comps()[k].1.memory && Compute::emitted_now(
                pre_st,
                post_st,
                0,
                pre.spec_id(),
                pre.comps()[k].1.requester,
                EventData::CompFinished(CompFinished { id }),
            )
    }

    /// What handling a plain allocation request does: on fit the claim is
    /// deducted and confirmed under the request's id, else nothing changes
    /// and the requester learns the current availability.
    pub open spec fn allocation_request_post(
        pre: Compute,
        post: Compute,
        pre_st: SimulationState,
        post_st: SimulationState,
        allocation: Allocation,
        requester: Id,
        eid: u64,
    ) -> bool {
        let fits = pre.spec_memory_available() >= allocation.memory && pre.spec_cores_available()
            >= allocation.cores;
        &&& !fits ==> post == pre && Compute::emitted_now(
            pre_st,
            post_st,
            0,
            pre.spec_id(),
            requester,
            EventData::AllocationFailed(
                AllocationFailed {
                    id: eid,
                    reason: Compute::not_enough(pre, allocation.cores, allocation.memory),
                },
            ),
        )
        &&& fits ==> post.spec_cores_available() == pre.spec_cores_available() - allocation.cores
            && post.spec_memory_available() == pre.spec_memory_available() - allocation.memory
            && Compute::emitted_now(
            pre_st,
            post_st,
            0,
            pre.spec_id(),
            requester,
            EventData::AllocationSuccess(AllocationSuccess { id: eid }),
        )
    }

    /// Whether the requester holds a plain allocation, and what it holds.
    pub open spec fn has_allocation(pre: Compute, requester: Id) -> bool {
        exists|k: int| 0 <= k < pre.allocs().len() && (#[trigger] pre.allocs()[k]).0 == requester
    }

    /// The requester's current plain holdings; nothing when it holds none.
    pub open spec fn holdings(pre: Compute, requester: Id) -> Allocation {
        if Compute::has_allocation(pre, requester) {
            pre.allocs()[choose|k: int|
                0 <= k < pre.allocs().len() && (#[trigger] pre.allocs()[k]).0 == requester].1
        } else {
            Allocation { cores: 0, memory: 0 }
        }
    }

    /// What handling a plain deallocation does: it succeeds, restoring the
    /// released claim, exactly when the requester holds at least that much;
    /// else nothing changes and the current holdings are reported.
    pub open spec fn deallocation_request_post(
        pre: Compute,
        post: Compute,
        pre_st: SimulationState,
        post_st: SimulationState,
        allocation: Allocation,
        requester: Id,
        eid: u64,
    ) -> bool {
        let held = Compute::holdings(pre, requester);
        let granted = Compute::has_allocation(pre, requester) && held.cores >= allocation.cores
            && held.memory >= allocation.memory;
        &&& granted ==> post.spec_cores_available() == pre.spec_cores_available()
            + allocation.cores && post.spec_memory_available() == pre.spec_memory_available()
            + allocation.memory && Compute::emitted_now(
            pre_st,
            post_st,
            0,
            pre.spec_id(),
            requester,
            EventData::DeallocationSuccess(DeallocationSuccess { id: eid }),
        )
        &&& !granted ==> post == pre && Compute::emitted_now(
            pre_st,
            post_st,
            0,
            pre.spec_id(),
            requester,
            EventData::DeallocationFailed(
                DeallocationFailed {
                    id: eid,
                    reason: FailReason::NotEnoughResources {
                        available_cores: held.cores,
                        available_memory: held.memory,
                        requested_cores: allocation.cores,
                        requested_memory: allocation.memory,
                    },
                },
            ),
        )
    }

    /// What handling a managed allocation request does: on fit with a fresh
    /// id, the reservation is made with an empty sharing state and confirmed;
    /// a colliding id changes nothing; else nothing changes and the requester
    /// learns the current availability.
    pub open spec fn managed_allocation_request_post(
        pre: Compute,
        post: Compute,
        pre_st: SimulationState,
        post_st: SimulationState,
        allocation: Allocation,
        requester: Id,
        eid: u64,
    ) -> bool {
        let fits = pre.spec_memory_available() >= allocation.memory && pre.spec_cores_available()
            >= allocation.cores;
        let dup = exists|k: int|
            0 <= k < pre.managed().len() && (#[trigger] pre.managed()[k]).0 == eid;
        &&& !fits ==> post == pre && Compute::emitted_now(
            pre_st,
            post_st,
            0,
            pre.spec_id(),
            requester,
            EventData::AllocationFailed(
                AllocationFailed {
                    id: eid,
                    reason: Compute::not_enough(pre, allocation.cores, allocation.memory),
                },
            ),
        )
        &&& (fits && dup) ==> post == pre && post_st == pre_st
        &&& (fits && !dup) ==> post.spec_cores_available() == pre.spec_cores_available()
            - allocation.cores && post.spec_memory_available() == pre.spec_memory_available()
            - allocation.memory && post.managed().len() == pre.managed().len() + 1
            && post.managed().last().0 == eid && post.managed().last().1.cores == allocation.cores
            && post.managed().last().1.memory == allocation.memory
            && post.managed().last().1.throughput_model.items_seq().len() == 0
            && post.managed().last().1.throughput_model.rate() == pre.spec_speed()
            && Compute::emitted_now(
            pre_st,
            post_st,
            0,
            pre.spec_id(),
            requester,
            EventData::AllocationSuccess(AllocationSuccess { id: eid }),
        )
    }

    /// What releasing a managed allocation does: an unknown id is answered
    /// with a failure naming it; a known one gives its full claim back and
    /// is confirmed released (its in-flight computations are dropped, and
    /// the stale completion self-event stays to be skipped by lookup).
    pub open spec fn managed_deallocation_request_post(
        pre: Compute,
        post: Compute,
        pre_st: SimulationState,
        post_st: SimulationState,
        allocation_id: u64,
        requester: Id,
        eid: u64,
    ) -> bool {
        let known = exists|k: int|
            0 <= k < pre.managed().len() && (#[trigger] pre.managed()[k]).0 == allocation_id;
        &&& !known ==> post == pre && Compute::emitted_now(
            pre_st,
            post_st,
            0,
            pre.spec_id(),
            requester,
            EventData::DeallocationFailed(
                DeallocationFailed {
                    id: eid,
                    reason: FailReason::AllocationNotFound { allocation_id },
                },
            ),
        )
        &&& known ==> exists|k: int|
            0 <= k < pre.managed().len() && (#[trigger] pre.managed()[k]).0 == allocation_id
                && post.managed() == pre.managed().remove(k) && post.spec_cores_available()
                == pre.spec_cores_available() + pre.managed()[k].1.cores
                && post.spec_memory_available() == pre.spec_memory_available()
                + pre.managed()[k].1.memory && Compute::emitted_now(
                pre_st,
                post_st,
                0,
                pre.spec_id(),
                requester,
                EventData::DeallocationSuccess(DeallocationSuccess { id: eid }),
            )
    }

    /// What handling a computation request inside a managed allocation does:
    /// a missing allocation is reported; a degenerate request retains the
    /// allocation untouched and fails; else the start is announced, the
    /// previously scheduled completion is cancelled, the work joins the
    /// sharing state, and the new earliest completion is self-scheduled at
    /// the model's projected finish, its id stored for the next cancellation.
    pub open spec fn comp_allocation_request_post(
        pre: Compute,
        post: Compute,
        pre_st: SimulationState,
        post_st: SimulationState,
        req: CompAllocationRequest,
        eid: u64,
    ) -> bool {
        let known = exists|k: int|
            0 <= k < pre.managed().len() && (#[trigger] pre.managed()[k]).0 == req.allocation_id;
        &&& !known ==> post == pre && Compute::emitted_now(
            pre_st,
            post_st,
            0,
            pre.spec_id(),
            req.requester,
            EventData::CompFailed(
                CompFailed {
                    id: eid,
                    reason: FailReason::AllocationNotFound { allocation_id: req.allocation_id },
                },
            ),
        )
        &&& known ==> exists|k: int|
            0 <= k < pre.managed().len() && (#[trigger] pre.managed()[k]).0 == req.allocation_id
                && {
                let entry = pre.managed()[k].1;
                let degenerate = entry.cores == 0 || !req.cores_dependency.well_formed();
                let fresh = post.managed().last();
                &&& post.managed().len() == pre.managed().len()
                &&& fresh.0 == req.allocation_id
                &&& fresh.1.cores == entry.cores
                &&& fresh.1.memory == entry.memory
                &&& degenerate ==> fresh.1.throughput_model == entry.throughput_model
                &&& !degenerate ==> {
                    &&& Compute::emitted_now(
                        pre_st,
                        post_st,
                        0,
                        pre.spec_id(),
                        req.requester,
                        EventData::CompStarted(CompStarted { id: eid, cores: entry.cores }),
                    )
                    &&& post_st.queue().is_canceled(entry.next_event)
                    &&& fresh.1.throughput_model.items_seq().len()
                        == entry.throughput_model.items_seq().len() + 1
                    &&& fresh.1.next_event == (pre_st.spec_event_count() + 1) as u64
                    &&& Compute::emitted_at(
                        pre_st,
                        post_st,
                        1,
                        fresh.1.throughput_model.projected_finish(),
                        pre.spec_id(),
                        pre.spec_id(),
                        EventData::InternalCompFinished(
                            InternalCompFinished {
                                computation: fresh.1.throughput_model.items_seq()[0].computation,
                                allocation_id: req.allocation_id,
                            },
                        ),
                    )
                }
            }
    }

    /// What the internal completion of a managed allocation does: a released
    /// allocation drops the stale event; else the earliest item leaves the
    /// sharing state, its completion is forwarded to its requester, and the
    /// next earliest completion, if any, is self-scheduled at its projected
    /// finish.
    pub open spec fn internal_comp_finished_post(
        pre: Compute,
        post: Compute,
        pre_st: SimulationState,
        post_st: SimulationState,
        allocation_id: u64,
    ) -> bool {
        let known = exists|k: int|
            0 <= k < pre.managed().len() && (#[trigger] pre.managed()[k]).0 == allocation_id;
        &&& !known ==> post == pre && post_st == pre_st
        &&& known ==> exists|k: int|
            0 <= k < pre.managed().len() && (#[trigger] pre.managed()[k]).0 == allocation_id && {
                let entry = pre.managed()[k].1;
                let items = entry.throughput_model.items_seq();
                let fresh = post.managed().last();
                &&& post.managed().len() == pre.managed().len()
                &&& fresh.0 == allocation_id
                &&& fresh.1.cores == entry.cores
                &&& fresh.1.memory == entry.memory
                &&& items.len() == 0 ==> fresh.1.next_event == u64::MAX
                    && post_st.spec_event_count() == pre_st.spec_event_count()
                &&& items.len() > 0 ==> {
                    &&& fresh.1.throughput_model.items_seq() == items.remove(0)
                    &&& Compute::emitted_now(
                        pre_st,
                        post_st,
                        0,
                        pre.spec_id(),
                        items[0].computation.requester,
                        EventData::CompFinished(CompFinished { id: items[0].computation.id }),
                    )
                    &&& items.len() > 1 ==> fresh.1.next_event == (pre_st.spec_event_count()
                        + 1) as u64 && Compute::emitted_at(
                        pre_st,
                        post_st,
                        1,
                        fresh.1.throughput_model.projected_finish(),
                        pre.spec_id(),
                        pre.spec_id(),
                        EventData::InternalCompFinished(
                            InternalCompFinished {
                                computation: fresh.1.throughput_model.items_seq()[0].computation,
                                allocation_id,
                            },
                        ),
                    )
                    &&& items.len() == 1 ==> fresh.1.next_event == u64::MAX
                }
            }
    }

    /// Returns the position of the managed allocation with the given id.
    fn find_managed(&self, id: u64) -> (r: Option<usize>)
        ensures
            match r {
                Some(i) => i < self.managed().len() && self.managed()[i as int].0 == id,
                None => forall|i: int| 0 <= i < self.managed().len() ==> (#[trigger] self.managed()[i]).0 != id,
            },
    {
        let mut i: usize = 0;
        while i < self.managed_allocations.len()
            invariant
                i <= self.managed_allocations@.len(),
                forall|j: int| 0 <= j < i ==> (#[trigger] self.managed_allocations@[j]).0 != id,
            decreases self.managed_allocations@.len() - i,
        {
            if self.managed_allocations[i].0 == id {
                return Some(i);
            }
            i = i + 1;
        }
        None
    }

    /// Returns the position of the running computation with the given id.
    fn find_computation(&self, id: u64) -> (r: Option<usize>)
        ensures
            match r {
                Some(i) => i < self.comps().len() && self.comps()[i as int].0 == id,
                None => forall|i: int| 0 <= i < self.comps().len() ==> (#[trigger] self.comps()[i]).0 != id,
            },
    {
        let mut i: usize = 0;
        while i < self.computations.len()
            invariant
                i <= self.computations@.len(),
                forall|j: int| 0 <= j < i ==> (#[trigger] self.computations@[j]).0 != id,
            decreases self.computations@.len() - i,
        {
            if self.computations[i].0 == id {
                return Some(i);
            }
            i = i + 1;
        }
        None
    }

    /// Returns the position of the plain allocation of the given requester.
    fn find_allocation(&self, requester: Id) -> (r: Option<usize>)
        ensures
            match r {
                Some(i) => i < self.allocs().len() && self.allocs()[i as int].0 == requester,
                None => forall|i: int| 0 <= i < self.allocs().len() ==> (#[trigger] self.allocs()[i]).0 != requester,
            },
    {
        let mut i: usize = 0;
        while i < self.allocations.len()
            invariant
                i <= self.allocations@.len(),
                forall|j: int| 0 <= j < i ==> (#[trigger] self.allocations@[j]).0 != requester,
            decreases self.allocations@.len() - i,
        {
            if self.allocations[i].0 == requester {
                return Some(i);
            }
            i = i + 1;
        }
        None
    }

    /// Handles one event delivered to the host.
    ///
    /// Resource conservation is preserved by every arm: available plus
    /// claimed cores and memory always equal the host's totals. Requests
    /// that do not fit are answered with failure events carrying the current
    /// availability; a request whose id collides with a running claim is
    /// ignored; a completion for an allocation that no longer exists is
    /// dropped (the guarded lookup the cancellation design asks for).
    pub fn on(&mut self, event: Event, state: &mut SimulationState)
        requires
            old(self).wf(),
            old(self).clock_ok(old(state).spec_time()),
            old(state).wf(),
            old(state).has_budget(),
        ensures
            final(self).wf(),
            final(self).clock_ok(final(state).spec_time()),
            final(self).spec_cores_total() == old(self).spec_cores_total(),
            final(self).spec_memory_total() == old(self).spec_memory_total(),
            final(self).spec_id() == old(self).spec_id(),
            final(self).spec_speed() == old(self).spec_speed(),
            final(state).wf(),
            final(state).spec_time() == old(state).spec_time(),
            final(state).spec_event_count() >= old(state).spec_event_count(),
            final(state).spec_event_count() <= old(state).spec_event_count() + 4,
            final(state).spec_timer_count() == old(state).spec_timer_count(),
            final(state).spec_tasks() == old(state).spec_tasks(),
            final(state).spec_ready() == old(state).spec_ready(),
            match event.data {
                EventData::CompRequest(req) => Compute::comp_request_post(
                    *old(self),
                    *final(self),
                    *old(state),
                    *final(state),
                    req,
                    event.id,
                ),
                EventData::CompFinished(done) => Compute::comp_finished_post(
                    *old(self),
                    *final(self),
                    *old(state),
                    *final(state),
                    done.id,
                ),
                EventData::CompAllocationRequest(req) => Compute::comp_allocation_request_post(
                    *old(self),
                    *final(self),
                    *old(state),
                    *final(state),
                    req,
                    event.id,
                ),
                EventData::InternalCompFinished(fin) => Compute::internal_comp_finished_post(
                    *old(self),
                    *final(self),
                    *old(state),
                    *final(state),
                    fin.allocation_id,
                ),
                EventData::AllocationRequest(req) => Compute::allocation_request_post(
                    *old(self),
                    *final(self),
                    *old(state),
                    *final(state),
                    req.allocation,
                    req.requester,
                    event.id,
                ),
                EventData::DeallocationRequest(req) => Compute::deallocation_request_post(
                    *old(self),
                    *final(self),
                    *old(state),
                    *final(state),
                    req.allocation,
                    req.requester,
                    event.id,
                ),
                EventData::ManagedAllocationRequest(req) => Compute::managed_allocation_request_post(
                    *old(self),
                    *final(self),
                    *old(state),
                    *final(state),
                    req.allocation,
                    req.requester,
                    event.id,
                ),
                EventData::ManagedDeallocationRequest(req) => Compute::managed_deallocation_request_post(
                    *old(self),
                    *final(self),
                    *old(state),
                    *final(state),
                    req.allocation_id,
                    req.requester,
                    event.id,
                ),
                _ => *final(self) == *old(self) && *final(state) == *old(state),
            },
    {
        let eid = event.id;
        match event.data {
            EventData::CompRequest(req) => {
                self.on_comp_request(req, eid, state);
            },
            EventData::CompFinished(done) => {
                self.on_comp_finished(done.id, state);
            },
            EventData::CompAllocationRequest(req) => {
                self.on_comp_allocation_request(req, eid, state);
            },
            EventData::InternalCompFinished(fin) => {
                self.on_internal_comp_finished(fin.allocation_id, state);
            },
            EventData::AllocationRequest(req) => {
                self.on_allocation_request(req.allocation, req.requester, eid, state);
            },
            EventData::DeallocationRequest(req) => {
                self.on_deallocation_request(req.allocation, req.requester, eid, state);
            },
            EventData::ManagedAllocationRequest(req) => {
                self.on_managed_allocation_request(req.allocation, req.requester, eid, state);
            },
            EventData::ManagedDeallocationRequest(req) => {
                self.on_managed_deallocation_request(req.allocation_id, req.requester, eid, state);
            },
            _ => {},
        }
    }

    /// Handles a one-shot computation request: rejects it when memory or
    /// minimum cores do not fit, else claims `min(available, max_cores)`
    /// cores, announces the start and schedules the completion after
    /// `flops / (speed * speedup)`.
    fn on_comp_request(&mut self, req: CompRequest, eid: u64, state: &mut SimulationState)
        requires
            old(self).wf(),
            old(self).clock_ok(old(state).spec_time()),
            old(state).wf(),
            old(state).has_budget(),
        ensures
            final(self).wf(),
            final(self).clock_ok(final(state).spec_time()),
            final(self).spec_cores_total() == old(self).spec_cores_total(),
            final(self).spec_memory_total() == old(self).spec_memory_total(),
            final(self).spec_id() == old(self).spec_id(),
            final(self).spec_speed() == old(self).spec_speed(),
            final(state).wf(),
            final(state).spec_time() == old(state).spec_time(),
            final(state).spec_event_count() >= old(state).spec_event_count(),
            final(state).spec_event_count() <= old(state).spec_event_count() + 2,
            final(state).spec_timer_count() == old(state).spec_timer_count(),
            final(state).spec_tasks() == old(state).spec_tasks(),
            final(state).spec_ready() == old(state).spec_ready(),
            Compute::comp_request_post(*old(self), *final(self), *old(state), *final(state), req, eid),
    {
        let cores_candidate = if self.cores_available < req.max_cores {
            self.cores_available
        } else {
            req.max_cores
        };
        if self.memory_available < req.memory || self.cores_available < req.min_cores {
            let _ = state.add_event(
                EventData::CompFailed(
                    CompFailed {
                        id: eid,
                        reason: FailReason::NotEnoughResources {
                            available_cores: self.cores_available,
                            available_memory: self.memory_available,
                            requested_cores: req.min_cores,
                            requested_memory: req.memory,
                        },
                    },
                ),
                self.id,
                req.requester,
                0,
            );
            return;
        }
        let well_formed = req.cores_dependency.is_well_formed();
        if cores_candidate == 0 || !well_formed {
            // a degenerate request cannot make progress: report failure
            let _ = state.add_event(
                EventData::CompFailed(
                    CompFailed {
                        id: eid,
                        reason: FailReason::NotEnoughResources {
                            available_cores: self.cores_available,
                            available_memory: self.memory_available,
                            requested_cores: req.min_cores,
                            requested_memory: req.memory,
                        },
                    },
                ),
                self.id,
                req.requester,
                0,
            );
            return;
        }
        let dup = self.find_computation(eid);
        if dup.is_some() {
            // an id collision with a running computation is ignored
            return;
        }
        let cores = cores_candidate;
        self.memory_available = self.memory_available - req.memory;
        self.cores_available = self.cores_available - cores;
        let _ = state.add_event(
            EventData::CompStarted(CompStarted { id: eid, cores }),
            self.id,
            req.requester,
            0,
        );
        let (sn, sd) = req.cores_dependency.speedup(cores);
        let duration = compute_duration_exec(req.flops, self.speed, sn, sd);
        let _ = state.add_event(
            EventData::CompFinished(CompFinished { id: eid }),
            self.id,
            self.id,
            duration,
        );
        let ghost pre_comps = self.computations@;
        self.computations.push(
            (eid, RunningComputation { id: eid, cores, memory: req.memory, requester: req.requester }),
        );
        proof {
            let x = (eid, RunningComputation { id: eid, cores, memory: req.memory, requester: req.requester });
            assert(self.computations@ == pre_comps.push(x));
            assert(self.comp_claims() =~= old(self).comp_claims().push((cores, req.memory)));
            lemma_sums_push(old(self).comp_claims(), (cores, req.memory));
            assert forall|a: int, b: int| 0 <= a < b < self.comps().len() implies (
            #[trigger] self.comps()[a]).0 != (#[trigger] self.comps()[b]).0 by {
                if b < pre_comps.len() {
                    assert(old(self).comps()[a].0 != old(self).comps()[b].0);
                } else {
                    assert(self.comps()[b].0 == eid);
                    assert(old(self).comps()[a].0 != eid);
                }
            }
            assert(self.alloc_claims() =~= old(self).alloc_claims());
            assert(self.managed_claims() =~= old(self).managed_claims());
        }
    }

    /// Handles the self-delivered completion of a one-shot computation:
    /// restores its cores and memory and forwards the completion to the
    /// original requester. A completion for an unknown id is dropped.
    fn on_comp_finished(&mut self, id: u64, state: &mut SimulationState)
        requires
            old(self).wf(),
            old(self).clock_ok(old(state).spec_time()),
            old(state).wf(),
            old(state).has_budget(),
        ensures
            final(self).wf(),
            final(self).clock_ok(final(state).spec_time()),
            final(self).spec_cores_total() == old(self).spec_cores_total(),
            final(self).spec_memory_total() == old(self).spec_memory_total(),
            final(self).spec_id() == old(self).spec_id(),
            final(self).spec_speed() == old(self).spec_speed(),
            final(state).wf(),
            final(state).spec_time() == old(state).spec_time(),
            final(state).spec_event_count() >= old(state).spec_event_count(),
            final(state).spec_event_count() <= old(state).spec_event_count() + 1,
            final(state).spec_timer_count() == old(state).spec_timer_count(),
            final(state).spec_tasks() == old(state).spec_tasks(),
            final(state).spec_ready() == old(state).spec_ready(),
            Compute::comp_finished_post(*old(self), *final(self), *old(state), *final(state), id),
    {
        let found = self.find_computation(id);
        match found {
            None => {
                // a completion for an id the host is not running means the
                // bookkeeping is broken: the run cannot continue
                state.poison();
                proof {
                    if exists|k: int|
                        0 <= k < old(self).comps().len() && (#[trigger] old(self).comps()[k]).0
                            == id {
                        let k = choose|k: int|
                            0 <= k < old(self).comps().len() && (#[trigger] old(self).comps()[k]).0 == id;
                        assert(self.comps()[k].0 != id);
                    }
                }
            },
            Some(i) => {
                proof {
                    assert(self.comp_claims()[i as int] == (self.comps()[i as int].1.cores, self.comps()[i as int].1.memory));
                    lemma_sums_member(self.comp_claims(), i as int);
                    lemma_sums_nonneg(self.alloc_claims());
                    lemma_sums_nonneg(self.managed_claims());
                    lemma_sums_remove(self.comp_claims(), i as int);
                }
                let (_, comp) = self.computations.remove(i);
                self.memory_available = self.memory_available + comp.memory;
                self.cores_available = self.cores_available + comp.cores;
                proof {
                    assert(self.comp_claims() =~= old(self).comp_claims().remove(i as int));
                    assert(self.alloc_claims() =~= old(self).alloc_claims());
                    assert(self.managed_claims() =~= old(self).managed_claims());
                    assert forall|a: int, b: int| 0 <= a < b < self.comps().len() implies (
                    #[trigger] self.comps()[a]).0 != (#[trigger] self.comps()[b]).0 by {
                        let pre = old(self).comps();
                        if b < i {
                            assert(pre[a].0 != pre[b].0);
                        } else if a < i {
                            assert(pre[a].0 != pre[b + 1].0);
                        } else {
                            assert(pre[a + 1].0 != pre[b + 1].0);
                        }
                    }
                }
                let _ = state.add_event(
                    EventData::CompFinished(CompFinished { id }),
                    self.id,
                    comp.requester,
                    0,
                );
            },
        }
    }

    /// Handles a plain allocation request: on fit, adds the claim to the
    /// requester's running total and confirms; else reports the current
    /// availability.
    fn on_allocation_request(&mut self, allocation: Allocation, requester: Id, eid: u64, state: &mut SimulationState)
        requires
            old(self).wf(),
            old(self).clock_ok(old(state).spec_time()),
            old(state).wf(),
            old(state).has_budget(),
        ensures
            final(self).wf(),
            final(self).clock_ok(final(state).spec_time()),
            final(self).spec_cores_total() == old(self).spec_cores_total(),
            final(self).spec_memory_total() == old(self).spec_memory_total(),
            final(self).spec_id() == old(self).spec_id(),
            final(self).spec_speed() == old(self).spec_speed(),
            final(state).wf(),
            final(state).spec_time() == old(state).spec_time(),
            final(state).spec_event_count() >= old(state).spec_event_count(),
            final(state).spec_event_count() <= old(state).spec_event_count() + 1,
            final(state).spec_timer_count() == old(state).spec_timer_count(),
            final(state).spec_tasks() == old(state).spec_tasks(),
            final(state).spec_ready() == old(state).spec_ready(),
            Compute::allocation_request_post(
                *old(self),
                *final(self),
                *old(state),
                *final(state),
                allocation,
                requester,
                eid,
            ),
    {
        if self.memory_available < allocation.memory || self.cores_available < allocation.cores {
            let _ = state.add_event(
                EventData::AllocationFailed(
                    AllocationFailed {
                        id: eid,
                        reason: FailReason::NotEnoughResources {
                            available_cores: self.cores_available,
                            available_memory: self.memory_available,
                            requested_cores: allocation.cores,
                            requested_memory: allocation.memory,
                        },
                    },
                ),
                self.id,
                requester,
                0,
            );
            return;
        }
        let found = self.find_allocation(requester);
        match found {
            Some(i) => {
                let current = self.allocations[i].1;
                proof {
                    assert(self.alloc_claims()[i as int] == (current.cores, current.memory));
                    lemma_sums_member(self.alloc_claims(), i as int);
                    lemma_sums_nonneg(self.comp_claims());
                    lemma_sums_nonneg(self.managed_claims());
                    lemma_sums_update(
                        self.alloc_claims(),
                        i as int,
                        ((current.cores + allocation.cores) as u32, (current.memory
                            + allocation.memory) as u64),
                    );
                }
                let updated = Allocation {
                    cores: current.cores + allocation.cores,
                    memory: current.memory + allocation.memory,
                };
                self.allocations.set(i, (requester, updated));
                self.cores_available = self.cores_available - allocation.cores;
                self.memory_available = self.memory_available - allocation.memory;
                proof {
                    assert(self.alloc_claims() =~= old(self).alloc_claims().update(
                        i as int,
                        (updated.cores, updated.memory),
                    ));
                    assert(self.comp_claims() =~= old(self).comp_claims());
                    assert(self.managed_claims() =~= old(self).managed_claims());
                    assert forall|a: int, b: int| 0 <= a < b < self.allocs().len() implies (
                    #[trigger] self.allocs()[a]).0 != (#[trigger] self.allocs()[b]).0 by {
                        assert(old(self).allocs()[a].0 != old(self).allocs()[b].0);
                        assert(self.allocs()[a].0 == old(self).allocs()[a].0 || a == i);
                        assert(self.allocs()[b].0 == old(self).allocs()[b].0 || b == i);
                    }
                }
            },
            None => {
                let ghost pre = self.allocations@;
                self.allocations.push((requester, allocation));
                self.cores_available = self.cores_available - allocation.cores;
                self.memory_available = self.memory_available - allocation.memory;
                proof {
                    assert(self.allocations@ == pre.push((requester, allocation)));
                    assert(self.alloc_claims() =~= old(self).alloc_claims().push(
                        (allocation.cores, allocation.memory),
                    ));
                    lemma_sums_push(
                        old(self).alloc_claims(),
                        (allocation.cores, allocation.memory),
                    );
                    assert(self.comp_claims() =~= old(self).comp_claims());
                    assert(self.managed_claims() =~= old(self).managed_claims());
                    assert forall|a: int, b: int| 0 <= a < b < self.allocs().len() implies (
                    #[trigger] self.allocs()[a]).0 != (#[trigger] self.allocs()[b]).0 by {
                        if b < pre.len() {
                            assert(old(self).allocs()[a].0 != old(self).allocs()[b].0);
                        } else {
                            assert(self.allocs()[b].0 == requester);
                            assert(old(self).allocs()[a].0 != requester);
                        }
                    }
                }
            },
        }
        let _ = state.add_event(
            EventData::AllocationSuccess(AllocationSuccess { id: eid }),
            self.id,
            requester,
            0,
        );
    }

    /// Handles a plain deallocation request: releases the claim when the
    /// requester holds at least that much, else reports the holdings.
    fn on_deallocation_request(&mut self, allocation: Allocation, requester: Id, eid: u64, state: &mut SimulationState)
        requires
            old(self).wf(),
            old(self).clock_ok(old(state).spec_time()),
            old(state).wf(),
            old(state).has_budget(),
        ensures
            final(self).wf(),
            final(self).clock_ok(final(state).spec_time()),
            final(self).spec_cores_total() == old(self).spec_cores_total(),
            final(self).spec_memory_total() == old(self).spec_memory_total(),
            final(self).spec_id() == old(self).spec_id(),
            final(self).spec_speed() == old(self).spec_speed(),
            final(state).wf(),
            final(state).spec_time() == old(state).spec_time(),
            final(state).spec_event_count() >= old(state).spec_event_count(),
            final(state).spec_event_count() <= old(state).spec_event_count() + 1,
            final(state).spec_timer_count() == old(state).spec_timer_count(),
            final(state).spec_tasks() == old(state).spec_tasks(),
            final(state).spec_ready() == old(state).spec_ready(),
            Compute::deallocation_request_post(
                *old(self),
                *final(self),
                *old(state),
                *final(state),
                allocation,
                requester,
                eid,
            ),
    {
        proof {
            if Compute::has_allocation(*self, requester) {
                let w = choose|k: int|
                    0 <= k < self.allocs().len() && (#[trigger] self.allocs()[k]).0 == requester;
                assert(self.allocs()[w].0 == requester);
            }
        }
        let found = self.find_allocation(requester);
        proof {
            match found {
                Some(i) => {
                    assert(Compute::has_allocation(*self, requester)) by {
                        assert(self.allocs()[i as int].0 == requester);
                    }
                    let w = choose|k: int|
                        0 <= k < self.allocs().len() && (#[trigger] self.allocs()[k]).0
                            == requester;
                    // requesters are unique keys, so the held entry is the
                    // one found
                    assert(w == i) by {
                        if w != i {
                            assert(self.allocs()[w].0 != self.allocs()[i as int].0);
                        }
                    }
                    assert(Compute::holdings(*self, requester) == self.allocs()[i as int].1);
                },
                None => {
                    assert(!Compute::has_allocation(*self, requester)) by {
                        if Compute::has_allocation(*self, requester) {
                            let w = choose|k: int|
                                0 <= k < self.allocs().len() && (#[trigger] self.allocs()[k]).0
                                    == requester;
                            assert(self.allocs()[w].0 != requester);
                        }
                    }
                },
            }
        }
        let (held_cores, held_memory) = match found {
            Some(i) => (self.allocations[i].1.cores, self.allocations[i].1.memory),
            None => (0u32, 0u64),
        };
        if held_cores >= allocation.cores && held_memory >= allocation.memory && found.is_some() {
            let i = match found {
                Some(i) => i,
                None => 0,
            };
            let current = self.allocations[i].1;
            proof {
                assert(self.alloc_claims()[i as int] == (current.cores, current.memory));
                lemma_sums_member(self.alloc_claims(), i as int);
                lemma_sums_nonneg(self.comp_claims());
                lemma_sums_nonneg(self.managed_claims());
            }
            let remaining = Allocation {
                cores: current.cores - allocation.cores,
                memory: current.memory - allocation.memory,
            };
            if remaining.cores == 0 && remaining.memory == 0 {
                proof {
                    lemma_sums_remove(self.alloc_claims(), i as int);
                }
                let _ = self.allocations.remove(i);
                proof {
                    assert(self.alloc_claims() =~= old(self).alloc_claims().remove(i as int));
                    assert forall|a: int, b: int| 0 <= a < b < self.allocs().len() implies (
                    #[trigger] self.allocs()[a]).0 != (#[trigger] self.allocs()[b]).0 by {
                        let pre = old(self).allocs();
                        if b < i {
                            assert(pre[a].0 != pre[b].0);
                        } else if a < i {
                            assert(pre[a].0 != pre[b + 1].0);
                        } else {
                            assert(pre[a + 1].0 != pre[b + 1].0);
                        }
                    }
                }
            } else {
                proof {
                    lemma_sums_update(
                        self.alloc_claims(),
                        i as int,
                        (remaining.cores, remaining.memory),
                    );
                }
                self.allocations.set(i, (requester, remaining));
                proof {
                    assert(self.alloc_claims() =~= old(self).alloc_claims().update(
                        i as int,
                        (remaining.cores, remaining.memory),
                    ));
                    assert forall|a: int, b: int| 0 <= a < b < self.allocs().len() implies (
                    #[trigger] self.allocs()[a]).0 != (#[trigger] self.allocs()[b]).0 by {
                        assert(old(self).allocs()[a].0 != old(self).allocs()[b].0);
                        assert(self.allocs()[a].0 == old(self).allocs()[a].0 || a == i);
                        assert(self.allocs()[b].0 == old(self).allocs()[b].0 || b == i);
                    }
                }
            }
            self.cores_available = self.cores_available + allocation.cores;
            self.memory_available = self.memory_available + allocation.memory;
            proof {
                assert(self.comp_claims() =~= old(self).comp_claims());
                assert(self.managed_claims() =~= old(self).managed_claims());
            }
            let _ = state.add_event(
                EventData::DeallocationSuccess(DeallocationSuccess { id: eid }),
                self.id,
                requester,
                0,
            );
        } else {
            let _ = state.add_event(
                EventData::DeallocationFailed(
                    DeallocationFailed {
                        id: eid,
                        reason: FailReason::NotEnoughResources {
                            available_cores: held_cores,
                            available_memory: held_memory,
                            requested_cores: allocation.cores,
                            requested_memory: allocation.memory,
                        },
                    },
                ),
                self.id,
                requester,
                0,
            );
        }
    }

    /// Handles a managed allocation request: on fit, reserves the resources
    /// and creates the sharing state with the host's speed as throughput.
    fn on_managed_allocation_request(&mut self, allocation: Allocation, requester: Id, eid: u64, state: &mut SimulationState)
        requires
            old(self).wf(),
            old(self).clock_ok(old(state).spec_time()),
            old(state).wf(),
            old(state).has_budget(),
        ensures
            final(self).wf(),
            final(self).clock_ok(final(state).spec_time()),
            final(self).spec_cores_total() == old(self).spec_cores_total(),
            final(self).spec_memory_total() == old(self).spec_memory_total(),
            final(self).spec_id() == old(self).spec_id(),
            final(self).spec_speed() == old(self).spec_speed(),
            final(state).wf(),
            final(state).spec_time() == old(state).spec_time(),
            final(state).spec_event_count() >= old(state).spec_event_count(),
            final(state).spec_event_count() <= old(state).spec_event_count() + 1,
            final(state).spec_timer_count() == old(state).spec_timer_count(),
            final(state).spec_tasks() == old(state).spec_tasks(),
            final(state).spec_ready() == old(state).spec_ready(),
            Compute::managed_allocation_request_post(
                *old(self),
                *final(self),
                *old(state),
                *final(state),
                allocation,
                requester,
                eid,
            ),
    {
        if self.memory_available < allocation.memory || self.cores_available < allocation.cores {
            let _ = state.add_event(
                EventData::AllocationFailed(
                    AllocationFailed {
                        id: eid,
                        reason: FailReason::NotEnoughResources {
                            available_cores: self.cores_available,
                            available_memory: self.memory_available,
                            requested_cores: allocation.cores,
                            requested_memory: allocation.memory,
                        },
                    },
                ),
                self.id,
                requester,
                0,
            );
            return;
        }
        let dup = self.find_managed(eid);
        if dup.is_some() {
            // an id collision with an existing allocation is ignored
            return;
        }
        let entry = ManagedAllocation {
            cores: allocation.cores,
            memory: allocation.memory,
            throughput_model: FairThroughputSharingModel::with_fixed_throughput(self.speed),
            next_event: u64::MAX,
        };
        let ghost pre = self.managed_allocations@;
        self.managed_allocations.push((eid, entry));
        self.cores_available = self.cores_available - allocation.cores;
        self.memory_available = self.memory_available - allocation.memory;
        proof {
            assert(self.managed_claims() =~= old(self).managed_claims().push(
                (allocation.cores, allocation.memory),
            ));
            lemma_sums_push(old(self).managed_claims(), (allocation.cores, allocation.memory));
            assert(self.comp_claims() =~= old(self).comp_claims());
            assert(self.alloc_claims() =~= old(self).alloc_claims());
            assert forall|a: int, b: int| 0 <= a < b < self.managed().len() implies (
            #[trigger] self.managed()[a]).0 != (#[trigger] self.managed()[b]).0 by {
                if b < pre.len() {
                    assert(old(self).managed()[a].0 != old(self).managed()[b].0);
                } else {
                    assert(self.managed()[b].0 == eid);
                    assert(old(self).managed()[a].0 != eid);
                }
            }
            assert forall|a: int|
                0 <= a < self.managed().len() implies (
            #[trigger] self.managed()[a]).1.throughput_model.wf() && self.managed()[a].1.throughput_model.last_time()
                <= state.spec_time() by {
                if a < pre.len() {
                    assert(old(self).managed()[a].1.throughput_model.wf());
                    assert(old(self).managed()[a].1.throughput_model.last_time()
                        <= state.spec_time());
                }
            }
        }
        let _ = state.add_event(
            EventData::AllocationSuccess(AllocationSuccess { id: eid }),
            self.id,
            requester,
            0,
        );
    }

    /// Handles release of a managed allocation: restores its resources; the
    /// in-flight computations are implicitly dropped, and the pending
    /// completion self-event is left to be skipped by the guarded lookup.
    fn on_managed_deallocation_request(&mut self, allocation_id: u64, requester: Id, eid: u64, state: &mut SimulationState)
        requires
            old(self).wf(),
            old(self).clock_ok(old(state).spec_time()),
            old(state).wf(),
            old(state).has_budget(),
        ensures
            final(self).wf(),
            final(self).clock_ok(final(state).spec_time()),
            final(self).spec_cores_total() == old(self).spec_cores_total(),
            final(self).spec_memory_total() == old(self).spec_memory_total(),
            final(self).spec_id() == old(self).spec_id(),
            final(self).spec_speed() == old(self).spec_speed(),
            final(state).wf(),
            final(state).spec_time() == old(state).spec_time(),
            final(state).spec_event_count() >= old(state).spec_event_count(),
            final(state).spec_event_count() <= old(state).spec_event_count() + 1,
            final(state).spec_timer_count() == old(state).spec_timer_count(),
            final(state).spec_tasks() == old(state).spec_tasks(),
            final(state).spec_ready() == old(state).spec_ready(),
            Compute::managed_deallocation_request_post(
                *old(self),
                *final(self),
                *old(state),
                *final(state),
                allocation_id,
                requester,
                eid,
            ),
    {
        let found = self.find_managed(allocation_id);
        match found {
            None => {
                proof {
                    assert forall|k: int|
                        0 <= k < self.managed().len() implies (#[trigger] self.managed()[k]).0
                        != allocation_id by {}
                }
                let _ = state.add_event(
                    EventData::DeallocationFailed(
                        DeallocationFailed {
                            id: eid,
                            reason: FailReason::AllocationNotFound { allocation_id },
                        },
                    ),
                    self.id,
                    requester,
                    0,
                );
            },
            Some(i) => {
                proof {
                    assert(self.managed_claims()[i as int] == (self.managed()[i as int].1.cores, self.managed()[i as int].1.memory));
                    lemma_sums_member(self.managed_claims(), i as int);
                    lemma_sums_nonneg(self.comp_claims());
                    lemma_sums_nonneg(self.alloc_claims());
                    lemma_sums_remove(self.managed_claims(), i as int);
                }
                let (_, entry) = self.managed_allocations.remove(i);
                self.cores_available = self.cores_available + entry.cores;
                self.memory_available = self.memory_available + entry.memory;
                proof {
                    assert(self.managed_claims() =~= old(self).managed_claims().remove(i as int));
                    assert(self.comp_claims() =~= old(self).comp_claims());
                    assert(self.alloc_claims() =~= old(self).alloc_claims());
                    assert forall|a: int, b: int| 0 <= a < b < self.managed().len() implies (
                    #[trigger] self.managed()[a]).0 != (#[trigger] self.managed()[b]).0 by {
                        let pre = old(self).managed();
                        if b < i {
                            assert(pre[a].0 != pre[b].0);
                        } else if a < i {
                            assert(pre[a].0 != pre[b + 1].0);
                        } else {
                            assert(pre[a + 1].0 != pre[b + 1].0);
                        }
                    }
                    assert forall|a: int|
                        0 <= a < self.managed().len() implies (
                    #[trigger] self.managed()[a]).1.throughput_model.wf()
                        && self.managed()[a].1.throughput_model.last_time() <= state.spec_time() by {
                        let pre = old(self).managed();
                        if a < i {
                            assert(pre[a].1.throughput_model.wf());
                            assert(pre[a].1.throughput_model.last_time() <= state.spec_time());
                        } else {
                            assert(pre[a + 1].1.throughput_model.wf());
                            assert(pre[a + 1].1.throughput_model.last_time() <= state.spec_time());
                        }
                    }
                }
                let _ = state.add_event(
                    EventData::DeallocationSuccess(DeallocationSuccess { id: eid }),
                    self.id,
                    requester,
                    0,
                );
            },
        }
    }

    /// Handles a computation request inside a managed allocation: announces
    /// the start, inserts the work into the sharing state, cancels the
    /// previously scheduled completion and schedules the new earliest one.
    fn on_comp_allocation_request(&mut self, req: CompAllocationRequest, eid: u64, state: &mut SimulationState)
        requires
            old(self).wf(),
            old(self).clock_ok(old(state).spec_time()),
            old(state).wf(),
            old(state).has_budget(),
        ensures
            final(self).wf(),
            final(self).clock_ok(final(state).spec_time()),
            final(self).spec_cores_total() == old(self).spec_cores_total(),
            final(self).spec_memory_total() == old(self).spec_memory_total(),
            final(self).spec_id() == old(self).spec_id(),
            final(self).spec_speed() == old(self).spec_speed(),
            final(state).wf(),
            final(state).spec_time() == old(state).spec_time(),
            final(state).spec_event_count() >= old(state).spec_event_count(),
            final(state).spec_event_count() <= old(state).spec_event_count() + 2,
            final(state).spec_timer_count() == old(state).spec_timer_count(),
            final(state).spec_tasks() == old(state).spec_tasks(),
            final(state).spec_ready() == old(state).spec_ready(),
            Compute::comp_allocation_request_post(
                *old(self),
                *final(self),
                *old(state),
                *final(state),
                req,
                eid,
            ),
    {
        let found = self.find_managed(req.allocation_id);
        match found {
            None => {
                proof {
                    assert forall|k: int|
                        0 <= k < self.managed().len() implies (#[trigger] self.managed()[k]).0
                        != req.allocation_id by {}
                }
                let _ = state.add_event(
                    EventData::CompFailed(
                        CompFailed {
                            id: eid,
                            reason: FailReason::AllocationNotFound {
                                allocation_id: req.allocation_id,
                            },
                        },
                    ),
                    self.id,
                    req.requester,
                    0,
                );
            },
            Some(i) => {
                proof {
                    lemma_sums_remove(self.managed_claims(), i as int);
                }
                let (key, entry) = self.managed_allocations.remove(i);
                let ghost after_remove = *self;
                let ghost entry0 = entry;
                let cores = entry.cores;
                let well_formed = req.cores_dependency.is_well_formed();
                if cores == 0 || !well_formed {
                    // a degenerate request cannot make progress: restore the
                    // allocation and report failure
                    let held_memory = entry.memory;
                    self.managed_allocations.push((key, entry));
                    proof {
                        Self::lemma_managed_restore(*old(self), after_remove, *self, i as int, state.spec_time());
                        assert(self.managed().last() == (key, entry0));
                    }
                    let _ = state.add_event(
                        EventData::CompFailed(
                            CompFailed {
                                id: eid,
                                reason: FailReason::NotEnoughResources {
                                    available_cores: cores,
                                    available_memory: held_memory,
                                    requested_cores: cores,
                                    requested_memory: 0,
                                },
                            },
                        ),
                        self.id,
                        req.requester,
                        0,
                    );
                    return;
                }
                let (sn, sd) = req.cores_dependency.speedup(cores);
                let work = managed_work_exec(req.flops, sn, sd);
                let _ = state.add_event(
                    EventData::CompStarted(CompStarted { id: eid, cores }),
                    self.id,
                    req.requester,
                    0,
                );
                state.cancel_event(entry.next_event);
                let mut model = entry.throughput_model;
                proof {
                    assert(old(self).managed()[i as int].1.throughput_model.last_time()
                        <= state.spec_time());
                }
                let now = state.time();
                model.insert(
                    RunningComputation { id: eid, cores, memory: entry.memory, requester: req.requester },
                    work,
                    now,
                );
                let ghost st_before_next = *state;
                let peeked = model.peek();
                let next_event: EventId = match peeked {
                    Some((t, c2)) => {
                        proof {
                            FairThroughputSharingModel::lemma_projected_ge_last(model);
                            assert(st_before_next.delivery_time((t - now) as u64) == t);
                        }
                        state.add_event(
                            EventData::InternalCompFinished(
                                InternalCompFinished {
                                    computation: c2,
                                    allocation_id: req.allocation_id,
                                },
                            ),
                            self.id,
                            self.id,
                            t - now,
                        )
                    },
                    None => u64::MAX,
                };
                let updated = ManagedAllocation {
                    cores: entry.cores,
                    memory: entry.memory,
                    throughput_model: model,
                    next_event,
                };
                self.managed_allocations.push((key, updated));
                proof {
                    Self::lemma_managed_restore(*old(self), after_remove, *self, i as int, state.spec_time());
                    assert(Compute::emitted_now(
                        *old(state),
                        *state,
                        0,
                        old(self).spec_id(),
                        req.requester,
                        EventData::CompStarted(CompStarted { id: eid, cores }),
                    ));
                    assert(state.queue().is_canceled(entry0.next_event));
                    assert(self.managed().last().1.next_event == (old(state).spec_event_count()
                        + 1) as u64);
                    assert(Compute::comp_allocation_request_post(
                        *old(self),
                        *self,
                        *old(state),
                        *state,
                        req,
                        eid,
                    )) by {
                        assert(old(self).managed()[i as int].0 == req.allocation_id);
                    }
                }
            },
        }
    }

    /// Handles the internal completion of the earliest computation of a
    /// managed allocation: pops it from the sharing state, forwards the
    /// completion to its requester and schedules the next one, if any. A
    /// completion for a released allocation is dropped.
    fn on_internal_comp_finished(&mut self, allocation_id: u64, state: &mut SimulationState)
        requires
            old(self).wf(),
            old(self).clock_ok(old(state).spec_time()),
            old(state).wf(),
            old(state).has_budget(),
        ensures
            final(self).wf(),
            final(self).clock_ok(final(state).spec_time()),
            final(self).spec_cores_total() == old(self).spec_cores_total(),
            final(self).spec_memory_total() == old(self).spec_memory_total(),
            final(self).spec_id() == old(self).spec_id(),
            final(self).spec_speed() == old(self).spec_speed(),
            final(state).wf(),
            final(state).spec_time() == old(state).spec_time(),
            final(state).spec_event_count() >= old(state).spec_event_count(),
            final(state).spec_event_count() <= old(state).spec_event_count() + 2,
            final(state).spec_timer_count() == old(state).spec_timer_count(),
            final(state).spec_tasks() == old(state).spec_tasks(),
            final(state).spec_ready() == old(state).spec_ready(),
            Compute::internal_comp_finished_post(
                *old(self),
                *final(self),
                *old(state),
                *final(state),
                allocation_id,
            ),
    {
        let found = self.find_managed(allocation_id);
        match found {
            None => {
                // the allocation was released: the stale completion is dropped
                proof {
                    if exists|k: int|
                        0 <= k < self.managed().len() && (#[trigger] self.managed()[k]).0
                            == allocation_id {
                        let k = choose|k: int|
                            0 <= k < self.managed().len() && (#[trigger] self.managed()[k]).0
                                == allocation_id;
                        assert(self.managed()[k].0 != allocation_id);
                    }
                }
            },
            Some(i) => {
                proof {
                    lemma_sums_remove(self.managed_claims(), i as int);
                }
                let (key, entry) = self.managed_allocations.remove(i);
                let ghost after_remove = *self;
                let ghost entry0 = entry;
                let mut model = entry.throughput_model;
                proof {
                    assert(old(self).managed()[i as int].1.throughput_model.last_time()
                        <= state.spec_time());
                }
                let now = state.time();
                let popped = model.pop(now);
                let next_event: EventId = match popped {
                    None => u64::MAX,
                    Some(c) => {
                        let _ = state.add_event(
                            EventData::CompFinished(CompFinished { id: c.id }),
                            self.id,
                            c.requester,
                            0,
                        );
                        let ghost st_before_next = *state;
                        let peeked = model.peek();
                        match peeked {
                            Some((t, c2)) => {
                                proof {
                                    FairThroughputSharingModel::lemma_projected_ge_last(model);
                                    assert(st_before_next.delivery_time((t - now) as u64) == t);
                                }
                                state.add_event(
                                    EventData::InternalCompFinished(
                                        InternalCompFinished { computation: c2, allocation_id },
                                    ),
                                    self.id,
                                    self.id,
                                    t - now,
                                )
                            },
                            None => u64::MAX,
                        }
                    },
                };
                let updated = ManagedAllocation {
                    cores: entry.cores,
                    memory: entry.memory,
                    throughput_model: model,
                    next_event,
                };
                self.managed_allocations.push((key, updated));
                proof {
                    Self::lemma_managed_restore(*old(self), after_remove, *self, i as int, state.spec_time());
                    assert(Compute::internal_comp_finished_post(
                        *old(self),
                        *self,
                        *old(state),
                        *state,
                        allocation_id,
                    )) by {
                        assert(old(self).managed()[i as int].0 == allocation_id);
                        let items = old(self).managed()[i as int].1.throughput_model.items_seq();
                        if items.len() > 0 {
                            assert(self.managed().last().1.throughput_model.items_seq()
                                == items.remove(0));
                        }
                    }
                }
            },
        }
    }

    /// Removing a managed entry and appending a replacement with the same
    /// key and claim restores the host invariants, provided the new sharing
    /// state is well formed and not recomputed in the future.
    proof fn lemma_managed_restore(pre: Compute, mid: Compute, post: Compute, i: int, now: u64)
        requires
            pre.wf(),
            pre.clock_ok(now),
            0 <= i < pre.managed().len(),
            mid.managed() == pre.managed().remove(i),
            post.managed().len() == mid.managed().len() + 1,
            forall|a: int|
                0 <= a < mid.managed().len() ==> #[trigger] post.managed()[a] == mid.managed()[a],
            post.managed().last().0 == pre.managed()[i].0,
            post.managed().last().1.cores == pre.managed()[i].1.cores,
            post.managed().last().1.memory == pre.managed()[i].1.memory,
            post.managed().last().1.throughput_model.wf(),
            post.managed().last().1.throughput_model.last_time() <= now,
            post.comps() == pre.comps(),
            post.allocs() == pre.allocs(),
            post.spec_cores_total() == pre.spec_cores_total(),
            post.spec_cores_available() == pre.spec_cores_available(),
            post.spec_memory_total() == pre.spec_memory_total(),
            post.spec_memory_available() == pre.spec_memory_available(),
            post.spec_speed() == pre.spec_speed(),
        ensures
            post.wf(),
            post.clock_ok(now),
    {
        let pm = pre.managed_claims();
        let claim = (pre.managed()[i].1.cores, pre.managed()[i].1.memory);
        assert(post.managed_claims() =~= pm.remove(i).push(claim)) by {
            assert(mid.managed_claims() =~= pm.remove(i));
            assert forall|a: int|
                0 <= a < post.managed_claims().len() implies #[trigger] post.managed_claims()[a]
                == pm.remove(i).push(claim)[a] by {
                if a < mid.managed().len() {
                    assert(post.managed()[a] == mid.managed()[a]);
                } else {
                    assert(post.managed()[a] == post.managed().last());
                }
            }
        }
        lemma_sums_remove(pm, i);
        lemma_sums_push(pm.remove(i), claim);
        assert(post.comp_claims() =~= pre.comp_claims());
        assert(post.alloc_claims() =~= pre.alloc_claims());
        assert forall|a: int, b: int| 0 <= a < b < post.managed().len() implies (
        #[trigger] post.managed()[a]).0 != (#[trigger] post.managed()[b]).0 by {
            let key = pre.managed()[i].0;
            if b < mid.managed().len() {
                if a < i && b < i {
                    assert(pre.managed()[a].0 != pre.managed()[b].0);
                } else if a < i {
                    assert(pre.managed()[a].0 != pre.managed()[b + 1].0);
                } else {
                    assert(pre.managed()[a + 1].0 != pre.managed()[b + 1].0);
                }
            } else {
                assert(post.managed()[b].0 == key);
                if a < i {
                    assert(pre.managed()[a].0 != key);
                    assert(post.managed()[a] == mid.managed()[a]);
                } else {
                    assert(pre.managed()[a + 1].0 != key);
                    assert(post.managed()[a] == mid.managed()[a]);
                }
            }
        }
        assert forall|a: int|
            0 <= a < post.managed().len() implies (
        #[trigger] post.managed()[a]).1.throughput_model.wf()
            && post.managed()[a].1.throughput_model.last_time() <= now by {
            if a < mid.managed().len() {
                assert(post.managed()[a] == mid.managed()[a]);
                if a < i {
                    assert(pre.managed()[a].1.throughput_model.wf());
                    assert(pre.managed()[a].1.throughput_model.last_time() <= now);
                } else {
                    assert(pre.managed()[a + 1].1.throughput_model.wf());
                    assert(pre.managed()[a + 1].1.throughput_model.last_time() <= now);
                }
            }
        }
    }
}

} // verus!
