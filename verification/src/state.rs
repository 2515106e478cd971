//! The kernel state: virtual clock, event queue, timers, promise registry,
//! task arena, ready queue, and the seeded random number generator.
//!
//! Components mutate the state only through the methods here, all of which
//! preserve the kernel invariants.

use vstd::prelude::*;

use rand::distributions::DistString;
use rand::Rng;
use rand::SeedableRng;

use crate::event::{Event, EventData};
use crate::event_queue::{EventPred, EventQueue};
use crate::shared_state::{AwaitKey, AwaitResult, SharedState};
use crate::task::{Task, TaskStep};
use crate::timer::{Timer, TimerQueue};
use crate::{EventId, Id, TaskId, TimerId};

verus! {

broadcast use vstd::seq_lib::lemma_seq_contains_after_push;

/// The seeded deterministic generator behind all randomness of a simulation.
#[verifier::external_type_specification]
#[verifier::external_body]
pub struct ExPcg64(rand_pcg::Lcg128Xsl64);

/// Relies on `rand_pcg::Pcg64` (via `rand_core::SeedableRng::seed_from_u64`):
/// builds the deterministic generator for the given seed.
#[verifier::external_body]
fn new_rng(seed: u64) -> rand_pcg::Pcg64 {
    rand_pcg::Pcg64::seed_from_u64(seed)
}

/// Relies on `rand::Rng::gen_range`: returns a value of the given non-empty
/// range and advances the generator.
#[verifier::external_body]
fn gen_range_u64(rng: &mut rand_pcg::Pcg64, low: u64, high: u64) -> (r: u64)
    requires
        low < high,
    ensures
        low <= r < high,
{
    rng.gen_range(low..high)
}

/// Whether the character is an ASCII letter or digit.
pub open spec fn is_alphanumeric_char(c: char) -> bool {
    ('a' <= c && c <= 'z') || ('A' <= c && c <= 'Z') || ('0' <= c && c <= '9')
}

/// Relies on `rand::distributions::Alphanumeric::sample_string`: returns a
/// string of exactly `len` random characters, each drawn from the ASCII
/// letters and digits.
#[verifier::external_body]
fn sample_alphanumeric(rng: &mut rand_pcg::Pcg64, len: usize) -> (r: String)
    ensures
        r@.len() == len,
        forall|i: int| 0 <= i < r@.len() ==> is_alphanumeric_char(#[trigger] r@[i]),
{
    rand::distributions::Alphanumeric.sample_string(rng, len)
}

/// Ceiling on id counters and arena sizes under which a handler may still
/// emit: it leaves headroom for what one dispatch may create.
pub open spec fn id_headroom() -> u64 {
    0xffff_ffff_ffff_0000u64
}

/// The event emitted `n` ids after the pre state's counter, delivered at
/// the pre state's clock, is pending in the post state.
pub open spec fn emitted(
    pre: SimulationState,
    post: SimulationState,
    n: int,
    src: Id,
    dst: Id,
    data: EventData,
) -> bool {
    post.queue().heap_seq().contains(
        Event { id: (pre.spec_event_count() + n) as u64, time: pre.spec_time(), src, dst, data },
    )
}

/// The kernel state of one simulation.
pub struct SimulationState {
    clock: u64,
    rand: rand_pcg::Pcg64,
    events: EventQueue,
    event_count: u64,
    timers: TimerQueue,
    timer_count: u64,
    awaiters: Vec<(AwaitKey, TaskId)>,
    tasks: Vec<Task>,
    ready: Vec<TaskId>,
    poisoned: bool,
}

impl SimulationState {
    /// The current virtual time.
    pub closed spec fn spec_time(self) -> u64 {
        self.clock
    }

    /// The event queue.
    pub closed spec fn queue(self) -> EventQueue {
        self.events
    }

    /// The total number of created events, cancelled ones included.
    pub closed spec fn spec_event_count(self) -> u64 {
        self.event_count
    }

    /// The timer queue.
    pub closed spec fn timer_queue(self) -> TimerQueue {
        self.timers
    }

    /// The total number of created timers.
    pub closed spec fn spec_timer_count(self) -> u64 {
        self.timer_count
    }

    /// The registered awaiters, as `(key, task)` pairs with unique keys.
    pub closed spec fn spec_awaiters(self) -> Seq<(AwaitKey, TaskId)> {
        self.awaiters@
    }

    /// The task arena.
    pub closed spec fn spec_tasks(self) -> Seq<Task> {
        self.tasks@
    }

    /// The ready queue, in wake order.
    pub closed spec fn spec_ready(self) -> Seq<TaskId> {
        self.ready@
    }

    /// Whether a fatal error (a duplicate await, or id exhaustion) stopped
    /// the simulation.
    pub closed spec fn spec_poisoned(self) -> bool {
        self.poisoned
    }

    /// Whether an awaiter is registered under the key.
    pub open spec fn has_awaiter(self, key: AwaitKey) -> bool {
        exists|i: int| 0 <= i < self.spec_awaiters().len() && (#[trigger] self.spec_awaiters()[i]).0 == key
    }

    /// Kernel invariants: the queues are well formed, pending ids are below
    /// their counters, nothing pending lies in the past, task references are
    /// in bounds, and await keys are unique.
    pub open spec fn wf(self) -> bool {
        &&& self.queue().wf()
        &&& (forall|i: int|
            0 <= i < self.queue().heap_seq().len() ==> (#[trigger] self.queue().heap_seq()[i]).id
                < self.spec_event_count())
        &&& (forall|i: int|
            0 <= i < self.queue().ordered_seq().len() ==> (
            #[trigger] self.queue().ordered_seq()[i]).id < self.spec_event_count())
        &&& (forall|i: int|
            0 <= i < self.queue().heap_seq().len() && !self.queue().is_canceled(
                (#[trigger] self.queue().heap_seq()[i]).id,
            ) ==> self.queue().heap_seq()[i].time >= self.spec_time())
        &&& (forall|i: int|
            0 <= i < self.queue().ordered_seq().len() && !self.queue().is_canceled(
                (#[trigger] self.queue().ordered_seq()[i]).id,
            ) ==> self.queue().ordered_seq()[i].time >= self.spec_time())
        &&& self.timer_queue().wf()
        &&& (forall|i: int|
            0 <= i < self.timer_queue().seq().len() ==> (#[trigger] self.timer_queue().seq()[i]).id
                < self.spec_timer_count() && self.timer_queue().seq()[i].time >= self.spec_time()
                && self.timer_queue().seq()[i].task < self.spec_tasks().len())
        &&& (forall|i: int|
            0 <= i < self.spec_ready().len() ==> (#[trigger] self.spec_ready()[i])
                < self.spec_tasks().len())
        &&& (forall|i: int|
            0 <= i < self.spec_awaiters().len() ==> (#[trigger] self.spec_awaiters()[i]).1
                < self.spec_tasks().len())
        &&& (forall|i: int, j: int|
            0 <= i < j < self.spec_awaiters().len() ==> (#[trigger] self.spec_awaiters()[i]).0 != (
            #[trigger] self.spec_awaiters()[j]).0)
    }

    /// Whether the id counters and the task arena leave room for another
    /// dispatch to create events, timers and tasks.
    pub open spec fn has_budget(self) -> bool {
        &&& self.spec_event_count() < id_headroom()
        &&& self.spec_timer_count() < id_headroom()
        &&& self.spec_tasks().len() < 0xffff_0000
    }

    /// The kernel invariants depend only on the components named here: a
    /// state that agrees with a well-formed one on them is well formed.
    pub proof fn lemma_wf_preserved(pre: SimulationState, post: SimulationState)
        requires
            pre.wf(),
            post.queue() == pre.queue(),
            post.spec_time() == pre.spec_time(),
            post.spec_event_count() == pre.spec_event_count(),
            post.timer_queue() == pre.timer_queue(),
            post.spec_timer_count() == pre.spec_timer_count(),
            post.spec_awaiters() == pre.spec_awaiters(),
            post.spec_ready() == pre.spec_ready(),
            post.spec_tasks().len() == pre.spec_tasks().len(),
        ensures
            post.wf(),
    {
        assert forall|i: int|
            0 <= i < post.queue().heap_seq().len() implies (#[trigger] post.queue().heap_seq()[i]).id
            < post.spec_event_count() by {
            assert((pre.queue().heap_seq()[i]).id < pre.spec_event_count());
        }
        assert forall|i: int|
            0 <= i < post.queue().ordered_seq().len() implies (
        #[trigger] post.queue().ordered_seq()[i]).id < post.spec_event_count() by {
            assert((pre.queue().ordered_seq()[i]).id < pre.spec_event_count());
        }
        assert forall|i: int|
            0 <= i < post.queue().heap_seq().len() && !post.queue().is_canceled(
                (#[trigger] post.queue().heap_seq()[i]).id,
            ) implies post.queue().heap_seq()[i].time >= post.spec_time() by {
            assert(!pre.queue().is_canceled(pre.queue().heap_seq()[i].id));
        }
        assert forall|i: int|
            0 <= i < post.queue().ordered_seq().len() && !post.queue().is_canceled(
                (#[trigger] post.queue().ordered_seq()[i]).id,
            ) implies post.queue().ordered_seq()[i].time >= post.spec_time() by {
            assert(!pre.queue().is_canceled(pre.queue().ordered_seq()[i].id));
        }
        assert forall|i: int|
            0 <= i < post.timer_queue().seq().len() implies (
        #[trigger] post.timer_queue().seq()[i]).id < post.spec_timer_count()
            && post.timer_queue().seq()[i].time >= post.spec_time()
            && post.timer_queue().seq()[i].task < post.spec_tasks().len() by {
            assert((pre.timer_queue().seq()[i]).id < pre.spec_timer_count()
                && pre.timer_queue().seq()[i].time >= pre.spec_time()
                && pre.timer_queue().seq()[i].task < pre.spec_tasks().len());
        }
        assert forall|i: int|
            0 <= i < post.spec_ready().len() implies (#[trigger] post.spec_ready()[i])
            < post.spec_tasks().len() by {
            assert(pre.spec_ready()[i] < pre.spec_tasks().len());
        }
        assert forall|i: int|
            0 <= i < post.spec_awaiters().len() implies (#[trigger] post.spec_awaiters()[i]).1
            < post.spec_tasks().len() by {
            assert(pre.spec_awaiters()[i].1 < pre.spec_tasks().len());
        }
    }

    /// Marking more events cancelled, with both lanes unchanged, keeps the
    /// kernel invariants.
    pub proof fn lemma_wf_more_canceled(pre: SimulationState, post: SimulationState)
        requires
            pre.wf(),
            post.queue().heap_seq() == pre.queue().heap_seq(),
            post.queue().ordered_seq() == pre.queue().ordered_seq(),
            post.queue().wf(),
            forall|x: EventId| pre.queue().is_canceled(x) ==> post.queue().is_canceled(x),
            post.spec_time() == pre.spec_time(),
            post.spec_event_count() == pre.spec_event_count(),
            post.timer_queue() == pre.timer_queue(),
            post.spec_timer_count() == pre.spec_timer_count(),
            post.spec_awaiters() == pre.spec_awaiters(),
            post.spec_ready() == pre.spec_ready(),
            post.spec_tasks().len() == pre.spec_tasks().len(),
        ensures
            post.wf(),
    {
        assert forall|i: int|
            0 <= i < post.queue().heap_seq().len() implies (#[trigger] post.queue().heap_seq()[i]).id
            < post.spec_event_count() by {
            assert((pre.queue().heap_seq()[i]).id < pre.spec_event_count());
        }
        assert forall|i: int|
            0 <= i < post.queue().ordered_seq().len() implies (
        #[trigger] post.queue().ordered_seq()[i]).id < post.spec_event_count() by {
            assert((pre.queue().ordered_seq()[i]).id < pre.spec_event_count());
        }
        assert forall|i: int|
            0 <= i < post.queue().heap_seq().len() && !post.queue().is_canceled(
                (#[trigger] post.queue().heap_seq()[i]).id,
            ) implies post.queue().heap_seq()[i].time >= post.spec_time() by {
            assert(!pre.queue().is_canceled(pre.queue().heap_seq()[i].id));
        }
        assert forall|i: int|
            0 <= i < post.queue().ordered_seq().len() && !post.queue().is_canceled(
                (#[trigger] post.queue().ordered_seq()[i]).id,
            ) implies post.queue().ordered_seq()[i].time >= post.spec_time() by {
            assert(!pre.queue().is_canceled(pre.queue().ordered_seq()[i].id));
        }
        assert forall|i: int|
            0 <= i < post.timer_queue().seq().len() implies (
        #[trigger] post.timer_queue().seq()[i]).id < post.spec_timer_count()
            && post.timer_queue().seq()[i].time >= post.spec_time()
            && post.timer_queue().seq()[i].task < post.spec_tasks().len() by {
            assert((pre.timer_queue().seq()[i]).id < pre.spec_timer_count()
                && pre.timer_queue().seq()[i].time >= pre.spec_time()
                && pre.timer_queue().seq()[i].task < pre.spec_tasks().len());
        }
        assert forall|i: int|
            0 <= i < post.spec_ready().len() implies (#[trigger] post.spec_ready()[i])
            < post.spec_tasks().len() by {
            assert(pre.spec_ready()[i] < pre.spec_tasks().len());
        }
        assert forall|i: int|
            0 <= i < post.spec_awaiters().len() implies (#[trigger] post.spec_awaiters()[i]).1
            < post.spec_tasks().len() by {
            assert(pre.spec_awaiters()[i].1 < pre.spec_tasks().len());
        }
    }

    /// A state that differs from a well-formed one only in its awaiters,
    /// which stay unique and in bounds, is well formed.
    pub proof fn lemma_wf_awaiters_changed(pre: SimulationState, post: SimulationState)
        requires
            pre.wf(),
            post.queue() == pre.queue(),
            post.spec_time() == pre.spec_time(),
            post.spec_event_count() == pre.spec_event_count(),
            post.timer_queue() == pre.timer_queue(),
            post.spec_timer_count() == pre.spec_timer_count(),
            post.spec_ready() == pre.spec_ready(),
            post.spec_tasks() == pre.spec_tasks(),
            forall|i: int, j: int|
                0 <= i < j < post.spec_awaiters().len() ==> (#[trigger] post.spec_awaiters()[i]).0
                    != (#[trigger] post.spec_awaiters()[j]).0,
            forall|i: int|
                0 <= i < post.spec_awaiters().len() ==> (#[trigger] post.spec_awaiters()[i]).1
                    < post.spec_tasks().len(),
        ensures
            post.wf(),
    {
        assert forall|i: int|
            0 <= i < post.queue().heap_seq().len() implies (#[trigger] post.queue().heap_seq()[i]).id
            < post.spec_event_count() by {
            assert((pre.queue().heap_seq()[i]).id < pre.spec_event_count());
        }
        assert forall|i: int|
            0 <= i < post.queue().ordered_seq().len() implies (
        #[trigger] post.queue().ordered_seq()[i]).id < post.spec_event_count() by {
            assert((pre.queue().ordered_seq()[i]).id < pre.spec_event_count());
        }
        assert forall|i: int|
            0 <= i < post.queue().heap_seq().len() && !post.queue().is_canceled(
                (#[trigger] post.queue().heap_seq()[i]).id,
            ) implies post.queue().heap_seq()[i].time >= post.spec_time() by {
            assert(!pre.queue().is_canceled(pre.queue().heap_seq()[i].id));
        }
        assert forall|i: int|
            0 <= i < post.queue().ordered_seq().len() && !post.queue().is_canceled(
                (#[trigger] post.queue().ordered_seq()[i]).id,
            ) implies post.queue().ordered_seq()[i].time >= post.spec_time() by {
            assert(!pre.queue().is_canceled(pre.queue().ordered_seq()[i].id));
        }
        assert forall|i: int|
            0 <= i < post.timer_queue().seq().len() implies (
        #[trigger] post.timer_queue().seq()[i]).id < post.spec_timer_count()
            && post.timer_queue().seq()[i].time >= post.spec_time()
            && post.timer_queue().seq()[i].task < post.spec_tasks().len() by {
            assert((pre.timer_queue().seq()[i]).id < pre.spec_timer_count()
                && pre.timer_queue().seq()[i].time >= pre.spec_time()
                && pre.timer_queue().seq()[i].task < pre.spec_tasks().len());
        }
        assert forall|i: int|
            0 <= i < post.spec_ready().len() implies (#[trigger] post.spec_ready()[i])
            < post.spec_tasks().len() by {
            assert(pre.spec_ready()[i] < pre.spec_tasks().len());
        }
    }

    /// Creates the kernel state for the given random seed.
    pub fn new(seed: u64) -> (r: Self)
        ensures
            r.wf(),
            r.spec_time() == 0,
            r.spec_event_count() == 0,
            r.spec_timer_count() == 0,
            r.queue().heap_seq().len() == 0,
            r.queue().ordered_seq().len() == 0,
            r.timer_queue().seq().len() == 0,
            r.spec_awaiters().len() == 0,
            r.spec_tasks().len() == 0,
            r.spec_ready().len() == 0,
            forall|x: EventId| !r.queue().is_canceled(x),
            !r.spec_poisoned(),
    {
        SimulationState {
            clock: 0,
            rand: new_rng(seed),
            events: EventQueue::new(),
            event_count: 0,
            timers: TimerQueue::new(),
            timer_count: 0,
            awaiters: Vec::new(),
            tasks: Vec::new(),
            ready: Vec::new(),
            poisoned: false,
        }
    }

    /// Returns the current virtual time.
    pub fn time(&self) -> (r: u64)
        ensures
            r == self.spec_time(),
    {
        self.clock
    }

    /// Returns the total number of created events, cancelled ones included.
    pub fn event_count(&self) -> (r: u64)
        ensures
            r == self.spec_event_count(),
    {
        self.event_count
    }

    /// Returns whether a fatal error stopped the simulation.
    pub fn is_poisoned(&self) -> (r: bool)
        ensures
            r == self.spec_poisoned(),
    {
        self.poisoned
    }

    /// Returns a random value in `[low, high)` from the simulation-wide
    /// seeded generator.
    pub fn gen_range(&mut self, low: u64, high: u64) -> (r: u64)
        requires
            low < high,
        ensures
            low <= r < high,
            final(self).spec_time() == old(self).spec_time(),
            final(self).queue() == old(self).queue(),
            final(self).spec_event_count() == old(self).spec_event_count(),
            final(self).timer_queue() == old(self).timer_queue(),
            final(self).spec_timer_count() == old(self).spec_timer_count(),
            final(self).spec_awaiters() == old(self).spec_awaiters(),
            final(self).spec_tasks() == old(self).spec_tasks(),
            final(self).spec_ready() == old(self).spec_ready(),
            final(self).spec_poisoned() == old(self).spec_poisoned(),
            old(self).wf() ==> final(self).wf(),
    {
        let r = gen_range_u64(&mut self.rand, low, high);
        proof {
            if old(self).wf() {
                SimulationState::lemma_wf_preserved(*old(self), *self);
            }
        }
        r
    }

    /// Returns a random alphanumeric string of the given length from the
    /// simulation-wide seeded generator.
    pub fn random_string(&mut self, len: usize) -> (r: String)
        ensures
            r@.len() == len,
            forall|i: int| 0 <= i < r@.len() ==> is_alphanumeric_char(#[trigger] r@[i]),
            final(self).spec_time() == old(self).spec_time(),
            final(self).queue() == old(self).queue(),
            final(self).spec_event_count() == old(self).spec_event_count(),
            final(self).timer_queue() == old(self).timer_queue(),
            final(self).spec_timer_count() == old(self).spec_timer_count(),
            final(self).spec_awaiters() == old(self).spec_awaiters(),
            final(self).spec_tasks() == old(self).spec_tasks(),
            final(self).spec_ready() == old(self).spec_ready(),
            final(self).spec_poisoned() == old(self).spec_poisoned(),
            old(self).wf() ==> final(self).wf(),
    {
        let r = sample_alphanumeric(&mut self.rand, len);
        proof {
            if old(self).wf() {
                SimulationState::lemma_wf_preserved(*old(self), *self);
            }
        }
        r
    }

    /// The absolute delivery time of an emission: the delay over the clock,
    /// saturating at the end of time.
    pub open spec fn delivery_time(self, delay: u64) -> u64 {
        if self.spec_time() + delay <= u64::MAX {
            (self.spec_time() + delay) as u64
        } else {
            u64::MAX
        }
    }

    /// Emits an event after `delay` and returns its id.
    pub fn add_event(&mut self, data: EventData, src: Id, dst: Id, delay: u64) -> (id: EventId)
        requires
            old(self).wf(),
            old(self).spec_event_count() < u64::MAX,
        ensures
            final(self).wf(),
            id == old(self).spec_event_count(),
            final(self).spec_event_count() == old(self).spec_event_count() + 1,
            final(self).spec_time() == old(self).spec_time(),
            // the new event is pending in the main lane
            final(self).queue().heap_seq().contains(
                Event { id, time: old(self).delivery_time(delay), src, dst, data },
            ),
            // nothing else changes
            forall|x: Event|
                old(self).queue().heap_seq().contains(x) ==> final(self).queue().heap_seq().contains(
                    x,
                ),
            forall|x: Event|
                final(self).queue().heap_seq().contains(x) ==> old(self).queue().heap_seq().contains(x) || x == (Event {
                    id,
                    time: old(self).delivery_time(delay),
                    src,
                    dst,
                    data,
                }),
            final(self).queue().ordered_seq() == old(self).queue().ordered_seq(),
            forall|x: EventId| final(self).queue().is_canceled(x) == old(self).queue().is_canceled(x),
            final(self).timer_queue() == old(self).timer_queue(),
            final(self).spec_timer_count() == old(self).spec_timer_count(),
            final(self).spec_awaiters() == old(self).spec_awaiters(),
            final(self).spec_tasks() == old(self).spec_tasks(),
            final(self).spec_ready() == old(self).spec_ready(),
            final(self).spec_poisoned() == old(self).spec_poisoned(),
    {
        let id = self.event_count;
        let time = if delay <= u64::MAX - self.clock {
            self.clock + delay
        } else {
            u64::MAX
        };
        let e = Event { id, time, src, dst, data };
        proof {
            assert forall|i: int|
                0 <= i < self.queue().heap_seq().len() implies (
            #[trigger] self.queue().heap_seq()[i]).id != e.id by {
                assert(self.queue().heap_seq()[i].id < self.spec_event_count());
            }
            assert forall|i: int|
                0 <= i < self.queue().ordered_seq().len() implies (
            #[trigger] self.queue().ordered_seq()[i]).id != e.id by {
                assert(self.queue().ordered_seq()[i].id < self.spec_event_count());
            }
        }
        let ghost mid = *self;
        self.events.push(e);
        self.event_count = self.event_count + 1;
        proof {
            assert forall|i: int|
                0 <= i < self.queue().heap_seq().len() implies (
            #[trigger] self.queue().heap_seq()[i]).id < self.spec_event_count()
                && (!self.queue().is_canceled(self.queue().heap_seq()[i].id)
                ==> self.queue().heap_seq()[i].time >= self.spec_time()) by {
                let x = self.queue().heap_seq()[i];
                assert(self.queue().heap_seq().contains(x));
                if x == e {
                } else {
                    assert(mid.queue().heap_seq().contains(x));
                    let j = choose|j: int|
                        0 <= j < mid.queue().heap_seq().len() && mid.queue().heap_seq()[j] == x;
                    assert(mid.queue().heap_seq()[j].id < mid.spec_event_count());
                    assert(!mid.queue().is_canceled(mid.queue().heap_seq()[j].id)
                        ==> mid.queue().heap_seq()[j].time >= mid.spec_time());
                }
            }
            assert forall|i: int|
                0 <= i < self.queue().ordered_seq().len() implies (
            #[trigger] self.queue().ordered_seq()[i]).id < self.spec_event_count()
                && (!self.queue().is_canceled(self.queue().ordered_seq()[i].id)
                ==> self.queue().ordered_seq()[i].time >= self.spec_time()) by {
                assert(mid.queue().ordered_seq()[i].id < mid.spec_event_count());
                assert(!mid.queue().is_canceled(mid.queue().ordered_seq()[i].id)
                    ==> mid.queue().ordered_seq()[i].time >= mid.spec_time());
            }
            assert forall|i: int|
                0 <= i < self.timer_queue().seq().len() implies (
            #[trigger] self.timer_queue().seq()[i]).id < self.spec_timer_count()
                && self.timer_queue().seq()[i].time >= self.spec_time()
                && self.timer_queue().seq()[i].task < self.spec_tasks().len() by {
                assert((mid.timer_queue().seq()[i]).id < mid.spec_timer_count());
            }
            assert forall|i: int|
                0 <= i < self.spec_ready().len() implies (#[trigger] self.spec_ready()[i])
                < self.spec_tasks().len() by {
                assert(mid.spec_ready()[i] < mid.spec_tasks().len());
            }
            assert forall|i: int|
                0 <= i < self.spec_awaiters().len() implies (#[trigger] self.spec_awaiters()[i]).1
                < self.spec_tasks().len() by {
                assert(mid.spec_awaiters()[i].1 < mid.spec_tasks().len());
            }
        }
        id
    }

    /// Emits an event into the FIFO lane after `delay` and returns its id.
    ///
    /// The lane only takes events in non-decreasing time order: an emission
    /// that would deliver before the lane's tail is a fatal error and is
    /// excluded here.
    pub fn add_ordered_event(&mut self, data: EventData, src: Id, dst: Id, delay: u64) -> (id:
        EventId)
        requires
            old(self).wf(),
            old(self).spec_event_count() < u64::MAX,
            old(self).queue().ordered_seq().len() > 0 ==> old(
                self,
            ).queue().ordered_seq().last().time <= old(self).delivery_time(delay),
        ensures
            final(self).wf(),
            id == old(self).spec_event_count(),
            final(self).spec_event_count() == old(self).spec_event_count() + 1,
            final(self).spec_time() == old(self).spec_time(),
            final(self).queue().heap_seq() == old(self).queue().heap_seq(),
            // appended to the FIFO lane, at the delivery time or at the lane
            // tail's time, whichever is later
            final(self).queue().ordered_seq().len() == old(self).queue().ordered_seq().len() + 1,
            final(self).queue().ordered_seq().last() == (Event {
                id,
                time: old(self).delivery_time(delay),
                src,
                dst,
                data,
            }),
            forall|i: int|
                0 <= i < old(self).queue().ordered_seq().len() ==> final(self).queue().ordered_seq()[i] == old(self).queue().ordered_seq()[i],
            forall|x: EventId| final(self).queue().is_canceled(x) == old(self).queue().is_canceled(x),
            final(self).timer_queue() == old(self).timer_queue(),
            final(self).spec_timer_count() == old(self).spec_timer_count(),
            final(self).spec_awaiters() == old(self).spec_awaiters(),
            final(self).spec_tasks() == old(self).spec_tasks(),
            final(self).spec_ready() == old(self).spec_ready(),
            final(self).spec_poisoned() == old(self).spec_poisoned(),
    {
        let id = self.event_count;
        let time = if delay <= u64::MAX - self.clock {
            self.clock + delay
        } else {
            u64::MAX
        };
        let e = Event { id, time, src, dst, data };
        proof {
            assert forall|i: int|
                0 <= i < self.queue().heap_seq().len() implies (
            #[trigger] self.queue().heap_seq()[i]).id != e.id by {
                assert(self.queue().heap_seq()[i].id < self.spec_event_count());
            }
            if self.queue().ordered_seq().len() > 0 {
                assert(self.queue().ordered_seq().last().id < self.spec_event_count());
            }
        }
        let ghost mid = *self;
        self.events.push_ordered(e);
        self.event_count = self.event_count + 1;
        proof {
            let post = self.queue().ordered_seq();
            assert(post == mid.queue().ordered_seq().push(e));
            assert(post.last() == e);
            assert forall|i: int|
                0 <= i < mid.queue().ordered_seq().len() implies #[trigger] post[i]
                    == mid.queue().ordered_seq()[i] by {}
            assert forall|i: int|
                0 <= i < post.len() implies (#[trigger] post[i]).id < self.spec_event_count() && (
                !self.queue().is_canceled(post[i].id) ==> post[i].time >= self.spec_time()) by {
                if i < post.len() - 1 {
                    assert(mid.queue().ordered_seq()[i].id < mid.spec_event_count());
                    assert(!mid.queue().is_canceled(mid.queue().ordered_seq()[i].id)
                        ==> mid.queue().ordered_seq()[i].time >= mid.spec_time());
                }
            }
            assert forall|i: int|
                0 <= i < self.queue().heap_seq().len() implies (
            #[trigger] self.queue().heap_seq()[i]).id < self.spec_event_count() && (
            !self.queue().is_canceled(self.queue().heap_seq()[i].id)
                ==> self.queue().heap_seq()[i].time >= self.spec_time()) by {
                assert(mid.queue().heap_seq()[i].id < mid.spec_event_count());
                assert(!mid.queue().is_canceled(mid.queue().heap_seq()[i].id)
                    ==> mid.queue().heap_seq()[i].time >= mid.spec_time());
            }
            assert forall|i: int|
                0 <= i < self.timer_queue().seq().len() implies (
            #[trigger] self.timer_queue().seq()[i]).id < self.spec_timer_count()
                && self.timer_queue().seq()[i].time >= self.spec_time()
                && self.timer_queue().seq()[i].task < self.spec_tasks().len() by {
                assert((mid.timer_queue().seq()[i]).id < mid.spec_timer_count());
            }
            assert forall|i: int|
                0 <= i < self.spec_ready().len() implies (#[trigger] self.spec_ready()[i])
                < self.spec_tasks().len() by {
                assert(mid.spec_ready()[i] < mid.spec_tasks().len());
            }
            assert forall|i: int|
                0 <= i < self.spec_awaiters().len() implies (#[trigger] self.spec_awaiters()[i]).1
                < self.spec_tasks().len() by {
                assert(mid.spec_awaiters()[i].1 < mid.spec_tasks().len());
            }
        }
        id
    }

    /// Marks an event as cancelled; it will be skipped at dequeue.
    pub fn cancel_event(&mut self, id: EventId)
        requires
            old(self).wf(),
        ensures
            final(self).wf(),
            final(self).queue().heap_seq() == old(self).queue().heap_seq(),
            final(self).queue().ordered_seq() == old(self).queue().ordered_seq(),
            final(self).queue().is_canceled(id),
            forall|x: EventId|
                x != id ==> final(self).queue().is_canceled(x) == old(self).queue().is_canceled(x),
            final(self).spec_time() == old(self).spec_time(),
            final(self).spec_event_count() == old(self).spec_event_count(),
            final(self).timer_queue() == old(self).timer_queue(),
            final(self).spec_timer_count() == old(self).spec_timer_count(),
            final(self).spec_awaiters() == old(self).spec_awaiters(),
            final(self).spec_tasks() == old(self).spec_tasks(),
            final(self).spec_ready() == old(self).spec_ready(),
            final(self).spec_poisoned() == old(self).spec_poisoned(),
    {
        self.events.cancel(id);
        proof {
            SimulationState::lemma_wf_more_canceled(*old(self), *self);
        }
    }

    /// Marks every pending event matching the predicate as cancelled and
    /// returns copies of the newly cancelled ones.
    pub fn cancel_and_get_events(&mut self, pred: EventPred) -> (r: Vec<Event>)
        requires
            old(self).wf(),
        ensures
            final(self).wf(),
            final(self).queue().heap_seq() == old(self).queue().heap_seq(),
            final(self).queue().ordered_seq() == old(self).queue().ordered_seq(),
            forall|x: EventId|
                old(self).queue().is_canceled(x) ==> final(self).queue().is_canceled(x),
            forall|e: Event|
                old(self).queue().pending(e) && pred.spec_matches(e) ==> final(self).queue().is_canceled(e.id),
            forall|x: EventId|
                final(self).queue().is_canceled(x) && !old(self).queue().is_canceled(x)
                    ==> exists|e: Event|
                    old(self).queue().pending(e) && pred.spec_matches(e) && e.id == x,
            forall|i: int|
                0 <= i < r@.len() ==> EventQueue::copies_live_matching(
                    old(self).queue(),
                    pred,
                    #[trigger] r@[i],
                ),
            forall|e: Event|
                old(self).queue().live(e) && pred.spec_matches(e) ==> EventQueue::covered_in(
                    r@,
                    e,
                ),
            final(self).spec_time() == old(self).spec_time(),
            final(self).spec_event_count() == old(self).spec_event_count(),
            final(self).timer_queue() == old(self).timer_queue(),
            final(self).spec_timer_count() == old(self).spec_timer_count(),
            final(self).spec_awaiters() == old(self).spec_awaiters(),
            final(self).spec_tasks() == old(self).spec_tasks(),
            final(self).spec_ready() == old(self).spec_ready(),
            final(self).spec_poisoned() == old(self).spec_poisoned(),
    {
        let r = self.events.cancel_matching(pred);
        proof {
            SimulationState::lemma_wf_more_canceled(*old(self), *self);
        }
        r
    }

    /// Marks every pending event matching the predicate as cancelled.
    pub fn cancel_events(&mut self, pred: EventPred)
        requires
            old(self).wf(),
        ensures
            final(self).wf(),
            final(self).queue().heap_seq() == old(self).queue().heap_seq(),
            final(self).queue().ordered_seq() == old(self).queue().ordered_seq(),
            forall|x: EventId|
                old(self).queue().is_canceled(x) ==> final(self).queue().is_canceled(x),
            forall|e: Event|
                old(self).queue().pending(e) && pred.spec_matches(e) ==> final(self).queue().is_canceled(e.id),
            forall|x: EventId|
                final(self).queue().is_canceled(x) && !old(self).queue().is_canceled(x)
                    ==> exists|e: Event|
                    old(self).queue().pending(e) && pred.spec_matches(e) && e.id == x,
            final(self).spec_time() == old(self).spec_time(),
            final(self).spec_event_count() == old(self).spec_event_count(),
            final(self).timer_queue() == old(self).timer_queue(),
            final(self).spec_timer_count() == old(self).spec_timer_count(),
            final(self).spec_awaiters() == old(self).spec_awaiters(),
            final(self).spec_tasks() == old(self).spec_tasks(),
            final(self).spec_ready() == old(self).spec_ready(),
            final(self).spec_poisoned() == old(self).spec_poisoned(),
    {
        let _ = self.events.cancel_matching(pred);
        proof {
            SimulationState::lemma_wf_more_canceled(*old(self), *self);
        }
    }

    /// Spawns a new task owned by the given component; it starts ready.
    pub fn spawn(&mut self, owner: Id) -> (tid: TaskId)
        requires
            old(self).wf(),
            old(self).spec_tasks().len() < 0xffff_0000,
        ensures
            final(self).wf(),
            tid == old(self).spec_tasks().len(),
            final(self).spec_tasks().len() == old(self).spec_tasks().len() + 1,
            forall|i: int|
                0 <= i < old(self).spec_tasks().len() ==> final(self).spec_tasks()[i] == old(self).spec_tasks()[i],
            final(self).spec_tasks().last().owner == owner,
            final(self).spec_tasks().last().live,
            final(self).spec_ready() == old(self).spec_ready().push(tid),
            final(self).spec_time() == old(self).spec_time(),
            final(self).queue() == old(self).queue(),
            final(self).spec_event_count() == old(self).spec_event_count(),
            final(self).timer_queue() == old(self).timer_queue(),
            final(self).spec_timer_count() == old(self).spec_timer_count(),
            final(self).spec_awaiters() == old(self).spec_awaiters(),
            final(self).spec_poisoned() == old(self).spec_poisoned(),
    {
        let tid: TaskId = self.tasks.len() as u64;
        let task = Task {
            owner,
            live: true,
            slot: SharedState {
                completed: true,
                waker: None,
                shared_content: AwaitResult::timeout_with(owner, owner),
                epoch: 0,
            },
        };
        self.tasks.push(task);
        self.ready.push(tid);
        proof {
            assert(self.spec_tasks() == old(self).spec_tasks().push(task));
            assert(self.spec_ready() == old(self).spec_ready().push(tid));
            assert(self.spec_tasks().last() == task);
            assert(forall|i: int|
                0 <= i < old(self).spec_tasks().len() ==> #[trigger] self.spec_tasks()[i] == old(self).spec_tasks()[i]);
            assert forall|i: int|
                0 <= i < self.spec_ready().len() implies (#[trigger] self.spec_ready()[i])
                < self.spec_tasks().len() by {
                if i < old(self).spec_ready().len() {
                    assert(old(self).spec_ready()[i] < old(self).spec_tasks().len());
                }
            }
            assert forall|i: int|
                0 <= i < self.timer_queue().seq().len() implies (
            #[trigger] self.timer_queue().seq()[i]).id < self.spec_timer_count()
                && self.timer_queue().seq()[i].time >= self.spec_time()
                && self.timer_queue().seq()[i].task < self.spec_tasks().len() by {
                assert((old(self).timer_queue().seq()[i]).id < old(self).spec_timer_count()
                    && old(self).timer_queue().seq()[i].time >= old(self).spec_time()
                    && old(self).timer_queue().seq()[i].task < old(self).spec_tasks().len());
            }
            assert forall|i: int|
                0 <= i < self.spec_awaiters().len() implies (#[trigger] self.spec_awaiters()[i]).1
                < self.spec_tasks().len() by {
                assert(old(self).spec_awaiters()[i].1 < old(self).spec_tasks().len());
            }
            assert forall|i: int|
                0 <= i < self.queue().heap_seq().len() implies (
            #[trigger] self.queue().heap_seq()[i]).id < self.spec_event_count() && (
            !self.queue().is_canceled(self.queue().heap_seq()[i].id)
                ==> self.queue().heap_seq()[i].time >= self.spec_time()) by {
                assert(old(self).queue().heap_seq()[i].id < old(self).spec_event_count());
                assert(!old(self).queue().is_canceled(old(self).queue().heap_seq()[i].id)
                    ==> old(self).queue().heap_seq()[i].time >= old(self).spec_time());
            }
            assert forall|i: int|
                0 <= i < self.queue().ordered_seq().len() implies (
            #[trigger] self.queue().ordered_seq()[i]).id < self.spec_event_count() && (
            !self.queue().is_canceled(self.queue().ordered_seq()[i].id)
                ==> self.queue().ordered_seq()[i].time >= self.spec_time()) by {
                assert(old(self).queue().ordered_seq()[i].id < old(self).spec_event_count());
                assert(!old(self).queue().is_canceled(old(self).queue().ordered_seq()[i].id)
                    ==> old(self).queue().ordered_seq()[i].time >= old(self).spec_time());
            }
        }
        tid
    }

    /// Removes and returns the front of the ready queue.
    pub fn pop_ready(&mut self) -> (r: Option<TaskId>)
        requires
            old(self).wf(),
        ensures
            final(self).wf(),
            match r {
                Some(tid) => old(self).spec_ready().len() > 0 && tid == old(self).spec_ready()[0]
                    && final(self).spec_ready() == old(self).spec_ready().remove(0) && tid < old(self).spec_tasks().len(),
                None => old(self).spec_ready().len() == 0 && *final(self) == *old(self),
            },
            final(self).spec_time() == old(self).spec_time(),
            final(self).queue() == old(self).queue(),
            final(self).spec_event_count() == old(self).spec_event_count(),
            final(self).timer_queue() == old(self).timer_queue(),
            final(self).spec_timer_count() == old(self).spec_timer_count(),
            final(self).spec_awaiters() == old(self).spec_awaiters(),
            final(self).spec_tasks() == old(self).spec_tasks(),
            final(self).spec_poisoned() == old(self).spec_poisoned(),
    {
        if self.ready.len() == 0 {
            None
        } else {
            let tid = self.ready.remove(0);
            proof {
                assert(old(self).spec_ready()[0] < old(self).spec_tasks().len());
                assert forall|i: int|
                    0 <= i < self.spec_ready().len() implies (#[trigger] self.spec_ready()[i])
                    < self.spec_tasks().len() by {
                    assert(self.spec_ready()[i] == old(self).spec_ready()[i + 1]);
                    assert(old(self).spec_ready()[i + 1] < old(self).spec_tasks().len());
                }
                SimulationState::lemma_wf_preserved_ready(*old(self), *self);
            }
            Some(tid)
        }
    }

    /// Shrinking the ready queue, while what remains stays in bounds, keeps
    /// the kernel invariants.
    proof fn lemma_wf_preserved_ready(pre: SimulationState, post: SimulationState)
        requires
            pre.wf(),
            post.queue() == pre.queue(),
            post.spec_time() == pre.spec_time(),
            post.spec_event_count() == pre.spec_event_count(),
            post.timer_queue() == pre.timer_queue(),
            post.spec_timer_count() == pre.spec_timer_count(),
            post.spec_awaiters() == pre.spec_awaiters(),
            post.spec_tasks() == pre.spec_tasks(),
            forall|i: int|
                0 <= i < post.spec_ready().len() ==> (#[trigger] post.spec_ready()[i])
                    < post.spec_tasks().len(),
        ensures
            post.wf(),
    {
        assert forall|i: int|
            0 <= i < post.queue().heap_seq().len() implies (#[trigger] post.queue().heap_seq()[i]).id
            < post.spec_event_count() by {
            assert((pre.queue().heap_seq()[i]).id < pre.spec_event_count());
        }
        assert forall|i: int|
            0 <= i < post.queue().ordered_seq().len() implies (
        #[trigger] post.queue().ordered_seq()[i]).id < post.spec_event_count() by {
            assert((pre.queue().ordered_seq()[i]).id < pre.spec_event_count());
        }
        assert forall|i: int|
            0 <= i < post.queue().heap_seq().len() && !post.queue().is_canceled(
                (#[trigger] post.queue().heap_seq()[i]).id,
            ) implies post.queue().heap_seq()[i].time >= post.spec_time() by {
            assert(!pre.queue().is_canceled(pre.queue().heap_seq()[i].id));
        }
        assert forall|i: int|
            0 <= i < post.queue().ordered_seq().len() && !post.queue().is_canceled(
                (#[trigger] post.queue().ordered_seq()[i]).id,
            ) implies post.queue().ordered_seq()[i].time >= post.spec_time() by {
            assert(!pre.queue().is_canceled(pre.queue().ordered_seq()[i].id));
        }
        assert forall|i: int|
            0 <= i < post.timer_queue().seq().len() implies (
        #[trigger] post.timer_queue().seq()[i]).id < post.spec_timer_count()
            && post.timer_queue().seq()[i].time >= post.spec_time()
            && post.timer_queue().seq()[i].task < post.spec_tasks().len() by {
            assert((pre.timer_queue().seq()[i]).id < pre.spec_timer_count()
                && pre.timer_queue().seq()[i].time >= pre.spec_time()
                && pre.timer_queue().seq()[i].task < pre.spec_tasks().len());
        }
        assert forall|i: int|
            0 <= i < post.spec_awaiters().len() implies (#[trigger] post.spec_awaiters()[i]).1
            < post.spec_tasks().len() by {
            assert(pre.spec_awaiters()[i].1 < pre.spec_tasks().len());
        }
    }

    /// Takes the stored wake-up result out of a task's slot, leaving a
    /// placeholder behind.
    pub fn take_slot_content(&mut self, tid: TaskId) -> (r: AwaitResult)
        requires
            old(self).wf(),
            tid < old(self).spec_tasks().len(),
        ensures
            final(self).wf(),
            r == old(self).spec_tasks()[tid as int].slot.shared_content,
            final(self).spec_tasks().len() == old(self).spec_tasks().len(),
            forall|i: int|
                0 <= i < old(self).spec_tasks().len() && i != tid ==> final(self).spec_tasks()[i]
                    == old(self).spec_tasks()[i],
            final(self).spec_tasks()[tid as int].owner == old(self).spec_tasks()[tid as int].owner,
            final(self).spec_tasks()[tid as int].live == old(self).spec_tasks()[tid as int].live,
            final(self).spec_tasks()[tid as int].slot.completed == old(self).spec_tasks()[tid as int].slot.completed,
            final(self).spec_tasks()[tid as int].slot.waker == old(self).spec_tasks()[tid as int].slot.waker,
            final(self).spec_tasks()[tid as int].slot.epoch == old(self).spec_tasks()[tid as int].slot.epoch,
            final(self).spec_time() == old(self).spec_time(),
            final(self).queue() == old(self).queue(),
            final(self).spec_event_count() == old(self).spec_event_count(),
            final(self).timer_queue() == old(self).timer_queue(),
            final(self).spec_timer_count() == old(self).spec_timer_count(),
            final(self).spec_awaiters() == old(self).spec_awaiters(),
            final(self).spec_ready() == old(self).spec_ready(),
            final(self).spec_poisoned() == old(self).spec_poisoned(),
    {
        let i = tid as usize;
        let owner = self.tasks[i].owner;
        let mut tmp = Task { owner, live: true, slot: SharedState::new(tid, owner, owner) };
        self.tasks.set_and_swap(i, &mut tmp);
        let Task { owner: kept_owner, live: kept_live, slot: taken_slot } = tmp;
        let SharedState { completed, waker, shared_content: content, epoch } = taken_slot;
        let restored = Task {
            owner: kept_owner,
            live: kept_live,
            slot: SharedState {
                completed,
                waker,
                shared_content: AwaitResult::timeout_with(owner, owner),
                epoch,
            },
        };
        self.tasks.set(i, restored);
        proof {
            let t0 = old(self).spec_tasks();
            assert(i as int == tid as int);
            assert forall|k: int|
                0 <= k < t0.len() && k != tid implies #[trigger] self.spec_tasks()[k] == t0[k] by {}
            assert(self.spec_tasks()[tid as int] == restored);
            assert(self.wf()) by {
                self.lemma_wf_after_task_update(*old(self), tid);
            }
        }
        content
    }

    /// Updating one task in place, without touching anything else, keeps
    /// the kernel invariants.
    proof fn lemma_wf_after_task_update(self, pre: SimulationState, tid: TaskId)
        requires
            pre.wf(),
            tid < pre.spec_tasks().len(),
            self.spec_tasks().len() == pre.spec_tasks().len(),
            self.queue() == pre.queue(),
            self.spec_event_count() == pre.spec_event_count(),
            self.spec_time() == pre.spec_time(),
            self.timer_queue() == pre.timer_queue(),
            self.spec_timer_count() == pre.spec_timer_count(),
            self.spec_awaiters() == pre.spec_awaiters(),
            self.spec_ready() == pre.spec_ready(),
        ensures
            self.wf(),
    {
        assert forall|i: int|
            0 <= i < self.timer_queue().seq().len() implies (
        #[trigger] self.timer_queue().seq()[i]).id < self.spec_timer_count()
            && self.timer_queue().seq()[i].time >= self.spec_time()
            && self.timer_queue().seq()[i].task < self.spec_tasks().len() by {
            assert(pre.timer_queue().seq()[i].task < pre.spec_tasks().len());
        }
        assert forall|i: int|
            0 <= i < self.spec_ready().len() implies (#[trigger] self.spec_ready()[i])
            < self.spec_tasks().len() by {
            assert(pre.spec_ready()[i] < pre.spec_tasks().len());
        }
        assert forall|i: int|
            0 <= i < self.spec_awaiters().len() implies (#[trigger] self.spec_awaiters()[i]).1
            < self.spec_tasks().len() by {
            assert(pre.spec_awaiters()[i].1 < pre.spec_tasks().len());
        }
    }

    /// Registers an awaiter under the key. Fails, and poisons the
    /// simulation, if the key is already taken: two outstanding waits on one
    /// key are a fatal error.
    pub fn add_awaiter(&mut self, key: AwaitKey, tid: TaskId) -> (r: bool)
        requires
            old(self).wf(),
            tid < old(self).spec_tasks().len(),
        ensures
            final(self).wf(),
            r == !old(self).has_awaiter(key),
            r ==> final(self).spec_awaiters() == old(self).spec_awaiters().push((key, tid))
                && final(self).spec_poisoned() == old(self).spec_poisoned(),
            !r ==> final(self).spec_awaiters() == old(self).spec_awaiters() && final(self).spec_poisoned(),
            final(self).has_awaiter(key),
            forall|k: AwaitKey| old(self).has_awaiter(k) ==> final(self).has_awaiter(k),
            final(self).spec_time() == old(self).spec_time(),
            final(self).queue() == old(self).queue(),
            final(self).spec_event_count() == old(self).spec_event_count(),
            final(self).timer_queue() == old(self).timer_queue(),
            final(self).spec_timer_count() == old(self).spec_timer_count(),
            final(self).spec_tasks() == old(self).spec_tasks(),
            final(self).spec_ready() == old(self).spec_ready(),
    {
        let mut i: usize = 0;
        while i < self.awaiters.len()
            invariant
                *self == *old(self),
                old(self).wf(),
                tid < old(self).spec_tasks().len(),
                i <= self.awaiters@.len(),
                forall|j: int| 0 <= j < i ==> (#[trigger] self.awaiters@[j]).0 != key,
            decreases self.awaiters@.len() - i,
        {
            if self.awaiters[i].0 == key {
                self.poisoned = true;
                proof {
                    assert(old(self).has_awaiter(key)) by {
                        assert(old(self).spec_awaiters()[i as int].0 == key);
                    }
                    assert(self.has_awaiter(key)) by {
                        assert(self.spec_awaiters()[i as int].0 == key);
                    }
                    SimulationState::lemma_wf_preserved(*old(self), *self);
                }
                return false;
            }
            i = i + 1;
        }
        let ghost pre = self.awaiters@;
        self.awaiters.push((key, tid));
        proof {
            assert(self.awaiters@ == pre.push((key, tid)));
            assert(forall|j: int| 0 <= j < pre.len() ==> #[trigger] self.awaiters@[j] == pre[j]);
            assert(self.awaiters@[pre.len() as int] == (key, tid));
            assert(!old(self).has_awaiter(key));
            assert(self.has_awaiter(key)) by {
                assert(self.spec_awaiters()[pre.len() as int].0 == key);
            }
            assert forall|a: int, b: int|
                0 <= a < b < self.awaiters@.len() implies (#[trigger] self.awaiters@[a]).0 != (
            #[trigger] self.awaiters@[b]).0 by {
                if b < pre.len() {
                    assert(pre[a].0 != pre[b].0);
                } else if old(self).has_awaiter(key) {
                } else {
                    assert(self.awaiters@[b] == (key, tid));
                    if pre[a].0 == key {
                        assert(old(self).has_awaiter(key)) by {
                            assert(old(self).spec_awaiters()[a].0 == key);
                        }
                    }
                }
            }
            assert forall|k: AwaitKey| old(self).has_awaiter(k) implies self.has_awaiter(k) by {
                let j = choose|j: int|
                    0 <= j < pre.len() && (#[trigger] old(self).spec_awaiters()[j]).0 == k;
                assert(self.spec_awaiters()[j].0 == k);
            }
            assert forall|a: int|
                0 <= a < self.spec_awaiters().len() implies (#[trigger] self.spec_awaiters()[a]).1
                < self.spec_tasks().len() by {
                if a < pre.len() {
                    assert(old(self).spec_awaiters()[a].1 < old(self).spec_tasks().len());
                }
            }
            SimulationState::lemma_wf_awaiters_changed(*old(self), *self);
        }
        true
    }

    /// Removes and returns the awaiter registered under the key, if any.
    pub fn take_awaiter(&mut self, key: AwaitKey) -> (r: Option<TaskId>)
        requires
            old(self).wf(),
        ensures
            final(self).wf(),
            match r {
                Some(tid) => old(self).has_awaiter(key) && tid < old(self).spec_tasks().len()
                    && (exists|i: int|
                    0 <= i < old(self).spec_awaiters().len() && old(self).spec_awaiters()[i] == (
                    key,
                    tid,
                ) && final(self).spec_awaiters() == old(self).spec_awaiters().remove(i)) && !final(self).has_awaiter(key),
                None => !old(self).has_awaiter(key) && *final(self) == *old(self),
            },
            forall|k: AwaitKey| k != key ==> final(self).has_awaiter(k) == old(self).has_awaiter(k),
            final(self).spec_time() == old(self).spec_time(),
            final(self).queue() == old(self).queue(),
            final(self).spec_event_count() == old(self).spec_event_count(),
            final(self).timer_queue() == old(self).timer_queue(),
            final(self).spec_timer_count() == old(self).spec_timer_count(),
            final(self).spec_tasks() == old(self).spec_tasks(),
            final(self).spec_ready() == old(self).spec_ready(),
            final(self).spec_poisoned() == old(self).spec_poisoned(),
    {
        let ghost pre = self.awaiters@;
        let mut i: usize = 0;
        while i < self.awaiters.len()
            invariant
                *self == *old(self),
                old(self).wf(),
                pre == old(self).spec_awaiters(),
                i <= self.awaiters@.len(),
                forall|j: int| 0 <= j < i ==> (#[trigger] self.awaiters@[j]).0 != key,
            decreases self.awaiters@.len() - i,
        {
            if self.awaiters[i].0 == key {
                let (_, tid) = self.awaiters.remove(i);
                proof {
                    assert(old(self).spec_awaiters()[i as int] == (key, tid));
                    assert(old(self).has_awaiter(key)) by {
                        assert(old(self).spec_awaiters()[i as int].0 == key);
                    }
                    assert(self.awaiters@ == pre.remove(i as int));
                    assert forall|a: int| 0 <= a < self.awaiters@.len() implies #[trigger] self.awaiters@[a]
                        == (if a < i {
                        pre[a]
                    } else {
                        pre[a + 1]
                    }) by {}
                    assert forall|a: int, b: int|
                        0 <= a < b < self.awaiters@.len() implies (#[trigger] self.awaiters@[a]).0
                        != (#[trigger] self.awaiters@[b]).0 by {
                        if b < i {
                            assert(pre[a].0 != pre[b].0);
                        } else if a < i {
                            assert(pre[a].0 != pre[b + 1].0);
                        } else {
                            assert(pre[a + 1].0 != pre[b + 1].0);
                        }
                    }
                    assert forall|a: int|
                        0 <= a < self.awaiters@.len() implies (#[trigger] self.awaiters@[a]).1
                        < self.spec_tasks().len() by {
                        if a < i {
                            assert(pre[a].1 < self.spec_tasks().len());
                        } else {
                            assert(pre[a + 1].1 < self.spec_tasks().len());
                        }
                    }
                    assert(!self.has_awaiter(key)) by {
                        if self.has_awaiter(key) {
                            let a = choose|a: int|
                                0 <= a < self.awaiters@.len() && (
                                #[trigger] self.awaiters@[a]).0 == key;
                            if a < i {
                                assert(pre[a].0 != key);
                            } else {
                                assert(pre[a + 1].0 == key && pre[i as int].0 == key);
                            }
                        }
                    }
                    assert forall|k: AwaitKey|
                        k != key implies self.has_awaiter(k) == old(self).has_awaiter(k) by {
                        if old(self).has_awaiter(k) {
                            let a = choose|a: int|
                                0 <= a < old(self).spec_awaiters().len() && (#[trigger] old(self).spec_awaiters()[a]).0 == k;
                            assert(pre[a].0 == k);
                            if a < i {
                                assert(self.spec_awaiters()[a].0 == k);
                                assert(self.has_awaiter(k));
                            } else {
                                assert(pre[i as int].0 == key);
                                assert(a != i);
                                assert(self.spec_awaiters()[a - 1].0 == k);
                                assert(self.has_awaiter(k));
                            }
                        }
                        if self.has_awaiter(k) {
                            let a = choose|a: int|
                                0 <= a < self.awaiters@.len() && (
                                #[trigger] self.awaiters@[a]).0 == k;
                            if a < i {
                                assert(old(self).spec_awaiters()[a].0 == k);
                            } else {
                                assert(old(self).spec_awaiters()[a + 1].0 == k);
                            }
                            assert(old(self).has_awaiter(k));
                        }
                    }
                    SimulationState::lemma_wf_awaiters_changed(*old(self), *self);
                }
                return Some(tid);
            }
            i = i + 1;
        }
        proof {
            assert(!old(self).has_awaiter(key)) by {
                if old(self).has_awaiter(key) {
                    let a = choose|a: int|
                        0 <= a < old(self).spec_awaiters().len() && (#[trigger] old(self).spec_awaiters()[a]).0 == key;
                    assert(pre[a].0 == key);
                    assert(self.awaiters@[a].0 != key);
                }
            }
        }
        None
    }

    /// Removes every awaiter whose key names the component on either side:
    /// a promise keyed by a removed component never resumes.
    pub fn drop_awaiters_of(&mut self, c: Id)
        requires
            old(self).wf(),
        ensures
            final(self).wf(),
            forall|k: AwaitKey|
                final(self).has_awaiter(k) ==> old(self).has_awaiter(k) && k.to != c && k.from != c,
            forall|k: AwaitKey|
                old(self).has_awaiter(k) && k.to != c && k.from != c ==> final(self).has_awaiter(k),
            final(self).spec_time() == old(self).spec_time(),
            final(self).queue() == old(self).queue(),
            final(self).spec_event_count() == old(self).spec_event_count(),
            final(self).timer_queue() == old(self).timer_queue(),
            final(self).spec_timer_count() == old(self).spec_timer_count(),
            final(self).spec_tasks() == old(self).spec_tasks(),
            final(self).spec_ready() == old(self).spec_ready(),
            final(self).spec_poisoned() == old(self).spec_poisoned(),
    {
        let ghost pre = self.awaiters@;
        let ghost pre_tasks = self.spec_tasks().len();
        proof {
            assert forall|a: int, b: int|
                0 <= a < b < pre.len() implies (#[trigger] pre[a]).0 != (#[trigger] pre[b]).0 by {
                assert(old(self).spec_awaiters()[a].0 != old(self).spec_awaiters()[b].0);
            }
            assert forall|a: int|
                0 <= a < pre.len() implies (#[trigger] pre[a]).1 < pre_tasks by {
                assert(old(self).spec_awaiters()[a].1 < old(self).spec_tasks().len());
            }
        }
        let mut kept: Vec<(AwaitKey, TaskId)> = Vec::new();
        let mut i: usize = 0;
        while i < self.awaiters.len()
            invariant
                self.awaiters@ == pre,
                old(self).wf(),
                pre == old(self).spec_awaiters(),
                self.spec_tasks().len() == pre_tasks,
                i <= pre.len(),
                forall|a: int, b: int|
                    0 <= a < b < pre.len() ==> (#[trigger] pre[a]).0 != (#[trigger] pre[b]).0,
                forall|a: int|
                    0 <= a < pre.len() ==> (#[trigger] pre[a]).1 < self.spec_tasks().len(),
                forall|a: int|
                    0 <= a < kept@.len() ==> (#[trigger] kept@[a]).0.to != c && kept@[a].0.from
                        != c && pre.contains(kept@[a]),
                forall|j: int|
                    0 <= j < i && (#[trigger] pre[j]).0.to != c && pre[j].0.from != c
                        ==> kept@.contains(pre[j]),
                forall|a: int, j: int|
                    0 <= a < kept@.len() && i <= j < pre.len() ==> (#[trigger] kept@[a]).0 != (
                    #[trigger] pre[j]).0,
                forall|a: int, b: int|
                    0 <= a < b < kept@.len() ==> (#[trigger] kept@[a]).0 != (#[trigger] kept@[b]).0,
            decreases pre.len() - i,
        {
            let entry = self.awaiters[i];
            if entry.0.to != c && entry.0.from != c {
                let ghost kept_pre = kept@;
                kept.push(entry);
                proof {
                    assert(kept@ == kept_pre.push(entry));
                    assert(forall|a: int|
                        0 <= a < kept_pre.len() ==> #[trigger] kept@[a] == kept_pre[a]);
                    assert(kept@[kept_pre.len() as int] == entry);
                    assert(pre.contains(entry)) by {
                        assert(pre[i as int] == entry);
                    }
                    assert forall|a: int, j: int|
                        0 <= a < kept@.len() && i + 1 <= j < pre.len() implies (
                    #[trigger] kept@[a]).0 != (#[trigger] pre[j]).0 by {
                        if a < kept_pre.len() {
                            assert(kept_pre[a].0 != pre[j].0);
                        } else {
                            assert(pre[i as int].0 != pre[j].0);
                        }
                    }
                }
            }
            i = i + 1;
        }
        self.awaiters = kept;
        proof {
            assert forall|k: AwaitKey|
                self.has_awaiter(k) implies old(self).has_awaiter(k) && k.to != c && k.from
                != c by {
                let a = choose|a: int|
                    0 <= a < self.awaiters@.len() && (#[trigger] self.awaiters@[a]).0 == k;
                assert(pre.contains(self.awaiters@[a]));
                let j = choose|j: int| 0 <= j < pre.len() && pre[j] == self.awaiters@[a];
                assert(old(self).spec_awaiters()[j].0 == k);
            }
            assert forall|k: AwaitKey|
                old(self).has_awaiter(k) && k.to != c && k.from != c implies self.has_awaiter(
                k,
            ) by {
                let j = choose|j: int| 0 <= j < pre.len() && (#[trigger] pre[j]).0 == k;
                assert(kept@.contains(pre[j]));
                let a = choose|a: int| 0 <= a < kept@.len() && kept@[a] == pre[j];
                assert(self.spec_awaiters()[a].0 == k);
            }
            assert forall|a: int|
                0 <= a < self.awaiters@.len() implies (#[trigger] self.awaiters@[a]).1
                < self.spec_tasks().len() by {
                assert(pre.contains(self.awaiters@[a]));
                let j = choose|j: int| 0 <= j < pre.len() && pre[j] == self.awaiters@[a];
                assert(pre[j].1 < self.spec_tasks().len());
            }
            SimulationState::lemma_wf_awaiters_changed(*old(self), *self);
        }
    }

    /// Removes every pending timer owned by the component.
    pub fn cancel_component_timers(&mut self, c: Id)
        requires
            old(self).wf(),
        ensures
            final(self).wf(),
            forall|i: int|
                0 <= i < final(self).timer_queue().seq().len() ==> (#[trigger] final(self).timer_queue().seq()[i]).component_id != c && old(self).timer_queue().seq().contains(
                    final(self).timer_queue().seq()[i],
                ),
            forall|i: int|
                0 <= i < old(self).timer_queue().seq().len() && (#[trigger] old(self).timer_queue().seq()[i]).component_id != c ==> final(self).timer_queue().seq().contains(old(self).timer_queue().seq()[i]),
            final(self).spec_time() == old(self).spec_time(),
            final(self).queue() == old(self).queue(),
            final(self).spec_event_count() == old(self).spec_event_count(),
            final(self).spec_timer_count() == old(self).spec_timer_count(),
            final(self).spec_awaiters() == old(self).spec_awaiters(),
            final(self).spec_tasks() == old(self).spec_tasks(),
            final(self).spec_ready() == old(self).spec_ready(),
            final(self).spec_poisoned() == old(self).spec_poisoned(),
    {
        self.timers.cancel_owned_by(c);
        proof {
            assert forall|i: int|
                0 <= i < self.timer_queue().seq().len() implies (
            #[trigger] self.timer_queue().seq()[i]).id < self.spec_timer_count()
                && self.timer_queue().seq()[i].time >= self.spec_time()
                && self.timer_queue().seq()[i].task < self.spec_tasks().len() by {
                let t = self.timer_queue().seq()[i];
                assert(old(self).timer_queue().seq().contains(t));
                let j = choose|j: int|
                    0 <= j < old(self).timer_queue().seq().len() && old(self).timer_queue().seq()[j]
                        == t;
                assert(old(self).timer_queue().seq()[j].id < old(self).spec_timer_count());
            }
            SimulationState::lemma_wf_timers_changed(*old(self), *self);
        }
    }

    /// A state that differs from a well-formed one only in its timers,
    /// which stay well formed and in bounds, is well formed.
    proof fn lemma_wf_timers_changed(pre: SimulationState, post: SimulationState)
        requires
            pre.wf(),
            post.queue() == pre.queue(),
            post.spec_time() == pre.spec_time(),
            post.spec_event_count() == pre.spec_event_count(),
            post.spec_timer_count() == pre.spec_timer_count(),
            post.spec_awaiters() == pre.spec_awaiters(),
            post.spec_ready() == pre.spec_ready(),
            post.spec_tasks() == pre.spec_tasks(),
            post.timer_queue().wf(),
            forall|i: int|
                0 <= i < post.timer_queue().seq().len() ==> (
                #[trigger] post.timer_queue().seq()[i]).id < post.spec_timer_count()
                    && post.timer_queue().seq()[i].time >= post.spec_time()
                    && post.timer_queue().seq()[i].task < post.spec_tasks().len(),
        ensures
            post.wf(),
    {
        assert forall|i: int|
            0 <= i < post.queue().heap_seq().len() implies (#[trigger] post.queue().heap_seq()[i]).id
            < post.spec_event_count() by {
            assert((pre.queue().heap_seq()[i]).id < pre.spec_event_count());
        }
        assert forall|i: int|
            0 <= i < post.queue().ordered_seq().len() implies (
        #[trigger] post.queue().ordered_seq()[i]).id < post.spec_event_count() by {
            assert((pre.queue().ordered_seq()[i]).id < pre.spec_event_count());
        }
        assert forall|i: int|
            0 <= i < post.queue().heap_seq().len() && !post.queue().is_canceled(
                (#[trigger] post.queue().heap_seq()[i]).id,
            ) implies post.queue().heap_seq()[i].time >= post.spec_time() by {
            assert(!pre.queue().is_canceled(pre.queue().heap_seq()[i].id));
        }
        assert forall|i: int|
            0 <= i < post.queue().ordered_seq().len() && !post.queue().is_canceled(
                (#[trigger] post.queue().ordered_seq()[i]).id,
            ) implies post.queue().ordered_seq()[i].time >= post.spec_time() by {
            assert(!pre.queue().is_canceled(pre.queue().ordered_seq()[i].id));
        }
        assert forall|i: int|
            0 <= i < post.spec_ready().len() implies (#[trigger] post.spec_ready()[i])
            < post.spec_tasks().len() by {
            assert(pre.spec_ready()[i] < pre.spec_tasks().len());
        }
        assert forall|i: int|
            0 <= i < post.spec_awaiters().len() implies (#[trigger] post.spec_awaiters()[i]).1
            < post.spec_tasks().len() by {
            assert(pre.spec_awaiters()[i].1 < pre.spec_tasks().len());
        }
    }

    /// Pushes a task onto the back of the ready queue.
    fn push_ready(&mut self, tid: TaskId)
        requires
            old(self).wf(),
            tid < old(self).spec_tasks().len(),
        ensures
            final(self).wf(),
            final(self).spec_ready() == old(self).spec_ready().push(tid),
            final(self).spec_time() == old(self).spec_time(),
            final(self).queue() == old(self).queue(),
            final(self).spec_event_count() == old(self).spec_event_count(),
            final(self).timer_queue() == old(self).timer_queue(),
            final(self).spec_timer_count() == old(self).spec_timer_count(),
            final(self).spec_awaiters() == old(self).spec_awaiters(),
            final(self).spec_tasks() == old(self).spec_tasks(),
            final(self).spec_poisoned() == old(self).spec_poisoned(),
    {
        let ghost pre = self.ready@;
        self.ready.push(tid);
        proof {
            assert forall|i: int|
                0 <= i < self.spec_ready().len() implies (#[trigger] self.spec_ready()[i])
                < self.spec_tasks().len() by {
                if i < pre.len() {
                    assert(old(self).spec_ready()[i] < old(self).spec_tasks().len());
                }
            }
            SimulationState::lemma_wf_preserved_ready(*old(self), *self);
        }
    }

    /// The time of the earliest pending timer, if any.
    pub fn peek_timer_time(&self) -> (r: Option<u64>)
        requires
            self.wf(),
        ensures
            match r {
                Some(t) => self.timer_queue().seq().len() > 0 && t == self.timer_queue().seq()[0].time,
                None => self.timer_queue().seq().len() == 0,
            },
    {
        match self.timers.peek() {
            Some(t) => Some(t.time),
            None => None,
        }
    }

    /// The `(time, id)` of the earliest live pending event, if any.
    pub fn peek_event_time(&self) -> (r: Option<(u64, EventId)>)
        requires
            self.wf(),
        ensures
            match r {
                Some(ti) => exists|e: Event|
                    self.queue().is_min_live(e) && e.time == ti.0 && e.id == ti.1,
                None => forall|e: Event|
                    self.queue().pending(e) ==> self.queue().is_canceled(e.id),
            },
    {
        self.events.peek()
    }

    /// Overwrites a task's slot, bumping its wait generation.
    fn write_slot(&mut self, tid: TaskId, completed: bool, waker: Option<TaskId>, content:
        AwaitResult, epoch: u64)
        requires
            old(self).wf(),
            tid < old(self).spec_tasks().len(),
        ensures
            final(self).wf(),
            final(self).spec_tasks().len() == old(self).spec_tasks().len(),
            forall|i: int|
                0 <= i < old(self).spec_tasks().len() && i != tid ==> final(self).spec_tasks()[i]
                    == old(self).spec_tasks()[i],
            final(self).spec_tasks()[tid as int].owner == old(self).spec_tasks()[tid as int].owner,
            final(self).spec_tasks()[tid as int].live == old(self).spec_tasks()[tid as int].live,
            final(self).spec_tasks()[tid as int].slot.completed == completed,
            final(self).spec_tasks()[tid as int].slot.waker == waker,
            final(self).spec_tasks()[tid as int].slot.shared_content == content,
            final(self).spec_tasks()[tid as int].slot.epoch == epoch,
            final(self).spec_time() == old(self).spec_time(),
            final(self).queue() == old(self).queue(),
            final(self).spec_event_count() == old(self).spec_event_count(),
            final(self).timer_queue() == old(self).timer_queue(),
            final(self).spec_timer_count() == old(self).spec_timer_count(),
            final(self).spec_awaiters() == old(self).spec_awaiters(),
            final(self).spec_ready() == old(self).spec_ready(),
            final(self).spec_poisoned() == old(self).spec_poisoned(),
    {
        let i = tid as usize;
        let owner = self.tasks[i].owner;
        let live = self.tasks[i].live;
        let t = Task {
            owner,
            live,
            slot: SharedState { completed, waker, shared_content: content, epoch },
        };
        self.tasks.set(i, t);
        proof {
            assert(i as int == tid as int);
            assert forall|k: int|
                0 <= k < old(self).spec_tasks().len() && k != tid implies #[trigger] self.spec_tasks()[k]
                    == old(self).spec_tasks()[k] by {}
            assert(self.wf()) by {
                self.lemma_wf_after_task_update(*old(self), tid);
            }
        }
    }

    /// Marks a task finished; it will never be resumed again.
    fn finish_task(&mut self, tid: TaskId)
        requires
            old(self).wf(),
            tid < old(self).spec_tasks().len(),
        ensures
            final(self).wf(),
            final(self).spec_tasks().len() == old(self).spec_tasks().len(),
            forall|i: int|
                0 <= i < old(self).spec_tasks().len() && i != tid ==> final(self).spec_tasks()[i]
                    == old(self).spec_tasks()[i],
            !final(self).spec_tasks()[tid as int].live,
            final(self).spec_time() == old(self).spec_time(),
            final(self).queue() == old(self).queue(),
            final(self).spec_event_count() == old(self).spec_event_count(),
            final(self).timer_queue() == old(self).timer_queue(),
            final(self).spec_timer_count() == old(self).spec_timer_count(),
            final(self).spec_awaiters() == old(self).spec_awaiters(),
            final(self).spec_ready() == old(self).spec_ready(),
            final(self).spec_poisoned() == old(self).spec_poisoned(),
    {
        let i = tid as usize;
        let owner = self.tasks[i].owner;
        let t = Task {
            owner,
            live: false,
            slot: SharedState::new(tid, owner, owner),
        };
        self.tasks.set(i, t);
        proof {
            assert(i as int == tid as int);
            assert forall|k: int|
                0 <= k < old(self).spec_tasks().len() && k != tid implies #[trigger] self.spec_tasks()[k]
                    == old(self).spec_tasks()[k] by {}
            assert(self.wf()) by {
                self.lemma_wf_after_task_update(*old(self), tid);
            }
        }
    }

    /// Registers a timer that resumes `tid` after `delay`.
    fn add_timer(&mut self, tid: TaskId, delay: u64, epoch: u64) -> (id: TimerId)
        requires
            old(self).wf(),
            tid < old(self).spec_tasks().len(),
            old(self).spec_timer_count() < u64::MAX,
        ensures
            final(self).wf(),
            id == old(self).spec_timer_count(),
            final(self).spec_timer_count() == old(self).spec_timer_count() + 1,
            final(self).timer_queue().seq().contains(
                Timer {
                    id,
                    component_id: old(self).spec_tasks()[tid as int].owner,
                    time: old(self).delivery_time(delay),
                    task: tid,
                    epoch,
                },
            ),
            forall|x: Timer|
                old(self).timer_queue().seq().contains(x) ==> final(self).timer_queue().seq().contains(
                    x,
                ),
            final(self).spec_time() == old(self).spec_time(),
            final(self).queue() == old(self).queue(),
            final(self).spec_event_count() == old(self).spec_event_count(),
            final(self).spec_awaiters() == old(self).spec_awaiters(),
            final(self).spec_tasks() == old(self).spec_tasks(),
            final(self).spec_ready() == old(self).spec_ready(),
            final(self).spec_poisoned() == old(self).spec_poisoned(),
    {
        let id = self.timer_count;
        let time = if delay <= u64::MAX - self.clock {
            self.clock + delay
        } else {
            u64::MAX
        };
        let n = self.tasks.len();
        proof {
            assert((tid as int) < (n as int));
            assert((tid as usize) as int == tid as int);
        }
        let owner = self.tasks[tid as usize].owner;
        let t = Timer { id, component_id: owner, time, task: tid, epoch };
        proof {
            assert(owner == old(self).spec_tasks()[tid as int].owner);
            assert(time == old(self).delivery_time(delay));
            assert forall|i: int|
                0 <= i < self.timer_queue().seq().len() implies (
            #[trigger] self.timer_queue().seq()[i]).id != t.id by {
                assert(self.timer_queue().seq()[i].id < self.spec_timer_count());
            }
        }
        let ghost mid = *self;
        self.timers.push(t);
        self.timer_count = self.timer_count + 1;
        proof {
            assert forall|i: int|
                0 <= i < self.timer_queue().seq().len() implies (
            #[trigger] self.timer_queue().seq()[i]).id < self.spec_timer_count()
                && self.timer_queue().seq()[i].time >= self.spec_time()
                && self.timer_queue().seq()[i].task < self.spec_tasks().len() by {
                let x = self.timer_queue().seq()[i];
                assert(self.timer_queue().seq().contains(x));
                if x == t {
                } else {
                    assert(mid.timer_queue().seq().contains(x));
                    let j = choose|j: int|
                        0 <= j < mid.timer_queue().seq().len() && mid.timer_queue().seq()[j] == x;
                    assert(mid.timer_queue().seq()[j].id < mid.spec_timer_count());
                }
            }
            assert forall|i: int|
                0 <= i < self.queue().heap_seq().len() implies (
            #[trigger] self.queue().heap_seq()[i]).id < self.spec_event_count() && (
            !self.queue().is_canceled(self.queue().heap_seq()[i].id)
                ==> self.queue().heap_seq()[i].time >= self.spec_time()) by {
                assert(mid.queue().heap_seq()[i].id < mid.spec_event_count());
                assert(!mid.queue().is_canceled(mid.queue().heap_seq()[i].id)
                    ==> mid.queue().heap_seq()[i].time >= mid.spec_time());
            }
            assert forall|i: int|
                0 <= i < self.queue().ordered_seq().len() implies (
            #[trigger] self.queue().ordered_seq()[i]).id < self.spec_event_count() && (
            !self.queue().is_canceled(self.queue().ordered_seq()[i].id)
                ==> self.queue().ordered_seq()[i].time >= self.spec_time()) by {
                assert(mid.queue().ordered_seq()[i].id < mid.spec_event_count());
                assert(!mid.queue().is_canceled(mid.queue().ordered_seq()[i].id)
                    ==> mid.queue().ordered_seq()[i].time >= mid.spec_time());
            }
            assert forall|i: int|
                0 <= i < self.spec_ready().len() implies (#[trigger] self.spec_ready()[i])
                < self.spec_tasks().len() by {
                assert(mid.spec_ready()[i] < mid.spec_tasks().len());
            }
            assert forall|i: int|
                0 <= i < self.spec_awaiters().len() implies (#[trigger] self.spec_awaiters()[i]).1
                < self.spec_tasks().len() by {
                assert(mid.spec_awaiters()[i].1 < mid.spec_tasks().len());
            }
        }
        id
    }

    /// Applies what a resumed task asked for next.
    ///
    /// A duplicate await key poisons the simulation: two outstanding waits
    /// on one key are a fatal error.
    pub fn apply_task_step(&mut self, tid: TaskId, step: TaskStep)
        requires
            old(self).wf(),
            tid < old(self).spec_tasks().len(),
            old(self).has_budget(),
            old(self).spec_tasks()[tid as int].slot.epoch < u64::MAX,
        ensures
            final(self).wf(),
            final(self).spec_tasks().len() == old(self).spec_tasks().len(),
            final(self).spec_time() == old(self).spec_time(),
            final(self).spec_event_count() == old(self).spec_event_count(),
            final(self).queue() == old(self).queue(),
            final(self).spec_ready() == old(self).spec_ready(),
            match step {
                TaskStep::Finish => !final(self).spec_tasks()[tid as int].live && final(self).spec_awaiters() == old(self).spec_awaiters() && final(self).spec_poisoned() == old(self).spec_poisoned(),
                TaskStep::Sleep { delay } => final(self).timer_queue().seq().contains(
                    Timer {
                        id: old(self).spec_timer_count(),
                        component_id: old(self).spec_tasks()[tid as int].owner,
                        time: old(self).delivery_time(delay),
                        task: tid,
                        epoch: (old(self).spec_tasks()[tid as int].slot.epoch + 1) as u64,
                    },
                ) && final(self).spec_tasks()[tid as int].slot.epoch == old(self).spec_tasks()[tid as int].slot.epoch + 1 && !final(self).spec_tasks()[tid as int].slot.completed && final(self).spec_tasks()[tid as int].slot.waker == Some(tid) && final(self).spec_poisoned() == old(self).spec_poisoned(),
                TaskStep::WaitEvent { key } => (old(self).has_awaiter(key) ==> final(self).spec_poisoned()) && (!old(self).has_awaiter(key) ==> final(self).has_awaiter(key) && !final(self).spec_tasks()[tid as int].slot.completed && final(self).spec_tasks()[tid as int].slot.waker == Some(tid) && final(self).spec_poisoned() == old(self).spec_poisoned()),
                TaskStep::WaitEventFor { key, timeout } => (old(self).has_awaiter(key) ==> final(self).spec_poisoned()) && (!old(self).has_awaiter(key) ==> final(self).has_awaiter(key) && !final(self).spec_tasks()[tid as int].slot.completed && final(self).spec_tasks()[tid as int].slot.waker == Some(tid) && final(self).spec_poisoned() == old(self).spec_poisoned()),
            },
    {
        match step {
            TaskStep::Finish => {
                self.finish_task(tid);
            },
            TaskStep::Sleep { delay } => {
                let epoch = self.tasks[tid as usize].slot.epoch + 1;
                let owner = self.tasks[tid as usize].owner;
                self.write_slot(
                    tid,
                    false,
                    Some(tid),
                    AwaitResult::timeout_with(owner, owner),
                    epoch,
                );
                let _ = self.add_timer(tid, delay, epoch);
            },
            TaskStep::WaitEvent { key } => {
                let registered = self.add_awaiter(key, tid);
                if registered {
                    let epoch = self.tasks[tid as usize].slot.epoch + 1;
                    let owner = self.tasks[tid as usize].owner;
                    self.write_slot(
                        tid,
                        false,
                        Some(tid),
                        AwaitResult::timeout_with(owner, owner),
                        epoch,
                    );
                }
            },
            TaskStep::WaitEventFor { key, timeout } => {
                let registered = self.add_awaiter(key, tid);
                if registered {
                    let epoch = self.tasks[tid as usize].slot.epoch + 1;
                    let owner = self.tasks[tid as usize].owner;
                    self.write_slot(
                        tid,
                        false,
                        Some(tid),
                        AwaitResult::timeout_with(owner, owner),
                        epoch,
                    );
                    let _ = self.add_timer(tid, timeout, epoch);
                }
            },
        }
    }

    /// Fires the earliest timer: advances the clock to its time and, if the
    /// wait it was set for is still the task's current one, completes the
    /// slot and wakes the task. Returns the fired timer.
    pub fn fire_next_timer(&mut self) -> (r: Option<Timer>)
        requires
            old(self).wf(),
            // no live pending event precedes the earliest timer
            old(self).timer_queue().seq().len() > 0 ==> (forall|i: int|
                0 <= i < old(self).queue().heap_seq().len() && !old(self).queue().is_canceled(
                    (#[trigger] old(self).queue().heap_seq()[i]).id,
                ) ==> old(self).queue().heap_seq()[i].time >= old(self).timer_queue().seq()[0].time),
            old(self).timer_queue().seq().len() > 0 ==> (forall|i: int|
                0 <= i < old(self).queue().ordered_seq().len() && !old(self).queue().is_canceled(
                    (#[trigger] old(self).queue().ordered_seq()[i]).id,
                ) ==> old(self).queue().ordered_seq()[i].time >= old(self).timer_queue().seq()[0].time),
        ensures
            final(self).wf(),
            match r {
                Some(t) => old(self).timer_queue().seq().len() > 0 && t == old(self).timer_queue().seq()[0] && final(self).spec_time() == t.time && final(self).timer_queue().seq() == old(self).timer_queue().seq().remove(0),
                None => old(self).timer_queue().seq().len() == 0 && *final(self) == *old(self),
            },
            final(self).spec_time() >= old(self).spec_time(),
            final(self).queue() == old(self).queue(),
            final(self).spec_event_count() == old(self).spec_event_count(),
            final(self).spec_timer_count() == old(self).spec_timer_count(),
            final(self).spec_awaiters() == old(self).spec_awaiters(),
            final(self).spec_tasks().len() == old(self).spec_tasks().len(),
            final(self).spec_poisoned() == old(self).spec_poisoned(),
    {
        let popped = self.timers.pop();
        match popped {
            None => None,
            Some(t) => {
                proof {
                    assert(old(self).timer_queue().seq()[0] == t);
                    assert(t.time >= old(self).spec_time());
                    assert forall|i: int|
                        0 <= i < self.timer_queue().seq().len() implies (
                    #[trigger] self.timer_queue().seq()[i]).id < self.spec_timer_count()
                        && self.timer_queue().seq()[i].time >= t.time
                        && self.timer_queue().seq()[i].task < self.spec_tasks().len() by {
                        assert(self.timer_queue().seq()[i] == old(self).timer_queue().seq()[i + 1]);
                        assert(old(self).timer_queue().seq()[i + 1].id < old(self).spec_timer_count());
                        assert(crate::timer::timer_le(
                            old(self).timer_queue().seq()[0],
                            old(self).timer_queue().seq()[i + 1],
                        ));
                    }
                }
                let ghost mid = *self;
                self.clock = t.time;
                proof {
                    assert forall|i: int|
                        0 <= i < self.queue().heap_seq().len() implies (
                    #[trigger] self.queue().heap_seq()[i]).id < self.spec_event_count() && (
                    !self.queue().is_canceled(self.queue().heap_seq()[i].id)
                        ==> self.queue().heap_seq()[i].time >= self.spec_time()) by {
                        assert(old(self).queue().heap_seq()[i].id < old(self).spec_event_count());
                        assert(!old(self).queue().is_canceled(old(self).queue().heap_seq()[i].id)
                            ==> old(self).queue().heap_seq()[i].time >= t.time);
                    }
                    assert forall|i: int|
                        0 <= i < self.queue().ordered_seq().len() implies (
                    #[trigger] self.queue().ordered_seq()[i]).id < self.spec_event_count() && (
                    !self.queue().is_canceled(self.queue().ordered_seq()[i].id)
                        ==> self.queue().ordered_seq()[i].time >= self.spec_time()) by {
                        assert(old(self).queue().ordered_seq()[i].id < old(self).spec_event_count());
                        assert(!old(self).queue().is_canceled(old(self).queue().ordered_seq()[i].id)
                            ==> old(self).queue().ordered_seq()[i].time >= t.time);
                    }
                    assert forall|i: int|
                        0 <= i < self.timer_queue().seq().len() implies (
                    #[trigger] self.timer_queue().seq()[i]).id < self.spec_timer_count()
                        && self.timer_queue().seq()[i].time >= self.spec_time()
                        && self.timer_queue().seq()[i].task < self.spec_tasks().len() by {
                        assert(mid.timer_queue().seq()[i].id < mid.spec_timer_count()
                            && mid.timer_queue().seq()[i].time >= t.time
                            && mid.timer_queue().seq()[i].task < mid.spec_tasks().len());
                    }
                    assert forall|i: int|
                        0 <= i < self.spec_ready().len() implies (#[trigger] self.spec_ready()[i])
                        < self.spec_tasks().len() by {
                        assert(old(self).spec_ready()[i] < old(self).spec_tasks().len());
                    }
                    assert forall|i: int|
                        0 <= i < self.spec_awaiters().len() implies (
                    #[trigger] self.spec_awaiters()[i]).1 < self.spec_tasks().len() by {
                        assert(old(self).spec_awaiters()[i].1 < old(self).spec_tasks().len());
                    }
                }
                let tid = t.task;
                let live = self.tasks[tid as usize].live;
                let epoch_matches = self.tasks[tid as usize].slot.epoch == t.epoch;
                let completed = self.tasks[tid as usize].slot.completed;
                if live && epoch_matches && !completed {
                    let waker = self.tasks[tid as usize].slot.waker;
                    let owner = self.tasks[tid as usize].owner;
                    self.write_slot(
                        tid,
                        true,
                        None,
                        AwaitResult::timeout_with(owner, owner),
                        t.epoch,
                    );
                    match waker {
                        Some(w) => {
                            if w < self.tasks.len() as u64 {
                                self.push_ready(w);
                            }
                        },
                        None => {},
                    }
                }
                Some(t)
            },
        }
    }

    /// Advancing the clock to a bound below every live pending event and
    /// every timer keeps the kernel invariants.
    proof fn lemma_wf_clock_advanced(self, pre: SimulationState, t: u64)
        requires
            pre.wf(),
            self.spec_time() == t,
            t >= pre.spec_time(),
            self.queue() == pre.queue(),
            self.spec_event_count() == pre.spec_event_count(),
            self.timer_queue() == pre.timer_queue(),
            self.spec_timer_count() == pre.spec_timer_count(),
            self.spec_awaiters() == pre.spec_awaiters(),
            self.spec_ready() == pre.spec_ready(),
            self.spec_tasks() == pre.spec_tasks(),
            forall|i: int|
                0 <= i < pre.queue().heap_seq().len() && !pre.queue().is_canceled(
                    (#[trigger] pre.queue().heap_seq()[i]).id,
                ) ==> pre.queue().heap_seq()[i].time >= t,
            forall|i: int|
                0 <= i < pre.queue().ordered_seq().len() && !pre.queue().is_canceled(
                    (#[trigger] pre.queue().ordered_seq()[i]).id,
                ) ==> pre.queue().ordered_seq()[i].time >= t,
            forall|i: int|
                0 <= i < pre.timer_queue().seq().len() ==> (#[trigger] pre.timer_queue().seq()[i]).time
                    >= t,
        ensures
            self.wf(),
    {
        assert forall|i: int|
            0 <= i < self.queue().heap_seq().len() implies (#[trigger] self.queue().heap_seq()[i]).id
            < self.spec_event_count() by {
            assert((pre.queue().heap_seq()[i]).id < pre.spec_event_count());
        }
        assert forall|i: int|
            0 <= i < self.queue().ordered_seq().len() implies (
        #[trigger] self.queue().ordered_seq()[i]).id < self.spec_event_count() by {
            assert((pre.queue().ordered_seq()[i]).id < pre.spec_event_count());
        }
        assert forall|i: int|
            0 <= i < self.queue().heap_seq().len() && !self.queue().is_canceled(
                (#[trigger] self.queue().heap_seq()[i]).id,
            ) implies self.queue().heap_seq()[i].time >= self.spec_time() by {
            assert(!pre.queue().is_canceled(pre.queue().heap_seq()[i].id));
        }
        assert forall|i: int|
            0 <= i < self.queue().ordered_seq().len() && !self.queue().is_canceled(
                (#[trigger] self.queue().ordered_seq()[i]).id,
            ) implies self.queue().ordered_seq()[i].time >= self.spec_time() by {
            assert(!pre.queue().is_canceled(pre.queue().ordered_seq()[i].id));
        }
        assert forall|i: int|
            0 <= i < self.timer_queue().seq().len() implies (
        #[trigger] self.timer_queue().seq()[i]).id < self.spec_timer_count()
            && self.timer_queue().seq()[i].time >= self.spec_time()
            && self.timer_queue().seq()[i].task < self.spec_tasks().len() by {
            assert((pre.timer_queue().seq()[i]).id < pre.spec_timer_count()
                && pre.timer_queue().seq()[i].time >= t
                && pre.timer_queue().seq()[i].task < pre.spec_tasks().len());
        }
        assert forall|i: int|
            0 <= i < self.spec_ready().len() implies (#[trigger] self.spec_ready()[i])
            < self.spec_tasks().len() by {
            assert(pre.spec_ready()[i] < pre.spec_tasks().len());
        }
        assert forall|i: int|
            0 <= i < self.spec_awaiters().len() implies (#[trigger] self.spec_awaiters()[i]).1
            < self.spec_tasks().len() by {
            assert(pre.spec_awaiters()[i].1 < pre.spec_tasks().len());
        }
    }

    /// Removes and returns the earliest live pending event, advancing the
    /// clock to its time.
    pub fn pop_next_event(&mut self) -> (r: Option<Event>)
        requires
            old(self).wf(),
            // no pending timer precedes the earliest live event
            forall|e: Event|
                old(self).queue().is_min_live(e) && old(self).timer_queue().seq().len() > 0
                    ==> old(self).timer_queue().seq()[0].time >= e.time,
        ensures
            final(self).wf(),
            match r {
                Some(e) => old(self).queue().is_min_live(e) && final(self).spec_time() == e.time
                    && EventQueue::removed_one(old(self).queue(), final(self).queue(), e),
                None => (forall|e: Event|
                    old(self).queue().pending(e) ==> old(self).queue().is_canceled(e.id)) && *final(self) == *old(self),
            },
            final(self).spec_time() >= old(self).spec_time(),
            final(self).spec_event_count() == old(self).spec_event_count(),
            final(self).timer_queue() == old(self).timer_queue(),
            final(self).spec_timer_count() == old(self).spec_timer_count(),
            final(self).spec_awaiters() == old(self).spec_awaiters(),
            final(self).spec_tasks() == old(self).spec_tasks(),
            final(self).spec_ready() == old(self).spec_ready(),
            final(self).spec_poisoned() == old(self).spec_poisoned(),
            forall|x: EventId| final(self).queue().is_canceled(x) == old(self).queue().is_canceled(x),
    {
        let popped = self.events.pop();
        match popped {
            None => None,
            Some(e) => {
                proof {
                    assert(old(self).queue().is_min_live(e));
                    assert(e.time >= old(self).spec_time()) by {
                        if old(self).queue().heap_seq().contains(e) {
                            let j = choose|j: int|
                                0 <= j < old(self).queue().heap_seq().len() && old(self).queue().heap_seq()[j] == e;
                            assert(!old(self).queue().is_canceled(
                                old(self).queue().heap_seq()[j].id,
                            ));
                        } else {
                            let j = choose|j: int|
                                0 <= j < old(self).queue().ordered_seq().len() && old(self).queue().ordered_seq()[j] == e;
                            assert(!old(self).queue().is_canceled(
                                old(self).queue().ordered_seq()[j].id,
                            ));
                        }
                    }
                }
                self.clock = e.time;
                proof {
                    let q0 = old(self).queue();
                    let q1 = self.queue();
                    assert forall|i: int|
                        0 <= i < q1.heap_seq().len() && !q1.is_canceled(
                            (#[trigger] q1.heap_seq()[i]).id,
                        ) implies q1.heap_seq()[i].time >= e.time by {
                        assert(q0.heap_seq().contains(q1.heap_seq()[i])) by {
                            if q1.heap_seq() == q0.heap_seq() {
                            } else {
                                let k = choose|k: int|
                                    0 <= k < q0.heap_seq().len() && q0.heap_seq()[k] == e
                                        && q1.heap_seq() == q0.heap_seq().remove(k)
                                        && q1.ordered_seq() == q0.ordered_seq();
                                if i < k {
                                    assert(q0.heap_seq()[i] == q1.heap_seq()[i]);
                                } else {
                                    assert(q0.heap_seq()[i + 1] == q1.heap_seq()[i]);
                                }
                            }
                        }
                        let j = choose|j: int|
                            0 <= j < q0.heap_seq().len() && q0.heap_seq()[j] == q1.heap_seq()[i];
                        assert(vstd::prelude::Seq::index(q0.heap_seq(), j).time >= e.time) by {
                            assert(!q0.is_canceled(q0.heap_seq()[j].id));
                            assert(crate::event::event_le(e, q0.heap_seq()[j]));
                        }
                    }
                    assert forall|i: int|
                        0 <= i < q1.ordered_seq().len() && !q1.is_canceled(
                            (#[trigger] q1.ordered_seq()[i]).id,
                        ) implies q1.ordered_seq()[i].time >= e.time by {
                        assert(q0.ordered_seq().contains(q1.ordered_seq()[i])) by {
                            if q1.ordered_seq() == q0.ordered_seq() {
                            } else {
                                let k = choose|k: int|
                                    0 <= k < q0.ordered_seq().len() && q0.ordered_seq()[k] == e
                                        && q1.ordered_seq() == q0.ordered_seq().remove(k)
                                        && q1.heap_seq() == q0.heap_seq();
                                if i < k {
                                    assert(q0.ordered_seq()[i] == q1.ordered_seq()[i]);
                                } else {
                                    assert(q0.ordered_seq()[i + 1] == q1.ordered_seq()[i]);
                                }
                            }
                        }
                        let j = choose|j: int|
                            0 <= j < q0.ordered_seq().len() && q0.ordered_seq()[j]
                                == q1.ordered_seq()[i];
                        assert(!q0.is_canceled(q0.ordered_seq()[j].id));
                        assert(crate::event::event_le(e, q0.ordered_seq()[j]));
                    }
                    assert forall|i: int|
                        0 <= i < q1.heap_seq().len() implies (#[trigger] q1.heap_seq()[i]).id
                        < self.spec_event_count() by {
                        assert(q0.heap_seq().contains(q1.heap_seq()[i])) by {
                            if q1.heap_seq() == q0.heap_seq() {
                            } else {
                                let k = choose|k: int|
                                    0 <= k < q0.heap_seq().len() && q0.heap_seq()[k] == e
                                        && q1.heap_seq() == q0.heap_seq().remove(k)
                                        && q1.ordered_seq() == q0.ordered_seq();
                                if i < k {
                                    assert(q0.heap_seq()[i] == q1.heap_seq()[i]);
                                } else {
                                    assert(q0.heap_seq()[i + 1] == q1.heap_seq()[i]);
                                }
                            }
                        }
                        let j = choose|j: int|
                            0 <= j < q0.heap_seq().len() && q0.heap_seq()[j] == q1.heap_seq()[i];
                        assert(q0.heap_seq()[j].id < old(self).spec_event_count());
                    }
                    assert forall|i: int|
                        0 <= i < q1.ordered_seq().len() implies (#[trigger] q1.ordered_seq()[i]).id
                        < self.spec_event_count() by {
                        assert(q0.ordered_seq().contains(q1.ordered_seq()[i])) by {
                            if q1.ordered_seq() == q0.ordered_seq() {
                            } else {
                                let k = choose|k: int|
                                    0 <= k < q0.ordered_seq().len() && q0.ordered_seq()[k] == e
                                        && q1.ordered_seq() == q0.ordered_seq().remove(k)
                                        && q1.heap_seq() == q0.heap_seq();
                                if i < k {
                                    assert(q0.ordered_seq()[i] == q1.ordered_seq()[i]);
                                } else {
                                    assert(q0.ordered_seq()[i + 1] == q1.ordered_seq()[i]);
                                }
                            }
                        }
                        let j = choose|j: int|
                            0 <= j < q0.ordered_seq().len() && q0.ordered_seq()[j]
                                == q1.ordered_seq()[i];
                        assert(q0.ordered_seq()[j].id < old(self).spec_event_count());
                    }
                    assert forall|i: int|
                        0 <= i < self.timer_queue().seq().len() implies (
                    #[trigger] self.timer_queue().seq()[i]).id < self.spec_timer_count()
                        && self.timer_queue().seq()[i].time >= self.spec_time()
                        && self.timer_queue().seq()[i].task < self.spec_tasks().len() by {
                        assert(old(self).timer_queue().seq()[i].id < old(self).spec_timer_count());
                        assert(old(self).timer_queue().seq()[i].time
                            >= old(self).timer_queue().seq()[0].time);
                        assert(old(self).timer_queue().seq()[0].time >= e.time);
                    }
                    assert forall|i: int|
                        0 <= i < self.spec_ready().len() implies (#[trigger] self.spec_ready()[i])
                        < self.spec_tasks().len() by {
                        assert(old(self).spec_ready()[i] < old(self).spec_tasks().len());
                    }
                    assert forall|i: int|
                        0 <= i < self.spec_awaiters().len() implies (
                    #[trigger] self.spec_awaiters()[i]).1 < self.spec_tasks().len() by {
                        assert(old(self).spec_awaiters()[i].1 < old(self).spec_tasks().len());
                    }
                }
                Some(e)
            },
        }
    }

    /// Completes a waiting task's slot with the delivered event and wakes
    /// the task.
    pub fn complete_event_waiter(&mut self, tid: TaskId, e: Event)
        requires
            old(self).wf(),
            tid < old(self).spec_tasks().len(),
        ensures
            final(self).wf(),
            final(self).spec_tasks().len() == old(self).spec_tasks().len(),
            final(self).spec_tasks()[tid as int].slot.completed,
            final(self).spec_tasks()[tid as int].slot.shared_content == AwaitResult::Delivered(e),
            final(self).spec_ready() == old(self).spec_ready().push(tid),
            final(self).spec_time() == old(self).spec_time(),
            final(self).queue() == old(self).queue(),
            final(self).spec_event_count() == old(self).spec_event_count(),
            final(self).timer_queue() == old(self).timer_queue(),
            final(self).spec_timer_count() == old(self).spec_timer_count(),
            final(self).spec_awaiters() == old(self).spec_awaiters(),
            final(self).spec_poisoned() == old(self).spec_poisoned(),
    {
        let epoch = self.tasks[tid as usize].slot.epoch;
        self.write_slot(tid, true, None, AwaitResult::Delivered(e), epoch);
        self.push_ready(tid);
    }

    /// Returns copies of the pending, not cancelled events, sorted by time
    /// and id.
    pub fn dump_events(&self) -> (r: Vec<Event>)
        requires
            self.wf(),
        ensures
            forall|a: int, b: int|
                0 <= a < b < r@.len() ==> crate::event::event_before(
                    #[trigger] r@[a],
                    #[trigger] r@[b],
                ),
            forall|a: int|
                0 <= a < r@.len() ==> EventQueue::copies_live(self.queue(), #[trigger] r@[a]),
            forall|e: Event| self.queue().live(e) ==> EventQueue::covered_in(r@, e),
    {
        self.events.dump_sorted()
    }

    /// Advances the clock to a time that nothing pending precedes.
    pub fn advance_clock_to(&mut self, t: u64)
        requires
            old(self).wf(),
            t >= old(self).spec_time(),
            forall|i: int|
                0 <= i < old(self).queue().heap_seq().len() && !old(self).queue().is_canceled(
                    (#[trigger] old(self).queue().heap_seq()[i]).id,
                ) ==> old(self).queue().heap_seq()[i].time >= t,
            forall|i: int|
                0 <= i < old(self).queue().ordered_seq().len() && !old(self).queue().is_canceled(
                    (#[trigger] old(self).queue().ordered_seq()[i]).id,
                ) ==> old(self).queue().ordered_seq()[i].time >= t,
            forall|i: int|
                0 <= i < old(self).timer_queue().seq().len() ==> (#[trigger] old(self).timer_queue().seq()[i]).time >= t,
        ensures
            final(self).wf(),
            final(self).spec_time() == t,
            final(self).queue() == old(self).queue(),
            final(self).spec_event_count() == old(self).spec_event_count(),
            final(self).timer_queue() == old(self).timer_queue(),
            final(self).spec_timer_count() == old(self).spec_timer_count(),
            final(self).spec_awaiters() == old(self).spec_awaiters(),
            final(self).spec_tasks() == old(self).spec_tasks(),
            final(self).spec_ready() == old(self).spec_ready(),
            final(self).spec_poisoned() == old(self).spec_poisoned(),
    {
        self.clock = t;
        proof {
            self.lemma_wf_clock_advanced(*old(self), t);
        }
    }

    /// Marks the simulation as fatally stopped.
    pub fn poison(&mut self)
        requires
            old(self).wf(),
        ensures
            final(self).wf(),
            final(self).spec_poisoned(),
            final(self).spec_time() == old(self).spec_time(),
            final(self).queue() == old(self).queue(),
            final(self).spec_event_count() == old(self).spec_event_count(),
            final(self).timer_queue() == old(self).timer_queue(),
            final(self).spec_timer_count() == old(self).spec_timer_count(),
            final(self).spec_awaiters() == old(self).spec_awaiters(),
            final(self).spec_tasks() == old(self).spec_tasks(),
            final(self).spec_ready() == old(self).spec_ready(),
    {
        self.poisoned = true;
        proof {
            SimulationState::lemma_wf_preserved(*old(self), *self);
        }
    }

    /// Decides whether the id counters and task arena leave headroom.
    pub fn has_budget_exec(&self) -> (r: bool)
        ensures
            r == self.has_budget(),
    {
        self.event_count < 0xffff_ffff_ffff_0000u64 && self.timer_count < 0xffff_ffff_ffff_0000u64
            && self.tasks.len() < 0xffff_0000
    }

    /// Decides whether a task's wait generation can still be bumped.
    pub fn slot_epoch_below_max(&self, tid: TaskId) -> (r: bool)
        requires
            self.wf(),
            tid < self.spec_tasks().len(),
        ensures
            r == (self.spec_tasks()[tid as int].slot.epoch < u64::MAX),
    {
        let n = self.tasks.len();
        proof {
            assert((tid as int) < (n as int));
            assert((tid as usize) as int == tid as int);
        }
        self.tasks[tid as usize].slot.epoch < u64::MAX
    }
}

} // verus!
