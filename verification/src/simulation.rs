//! The simulation: component registry, handler dispatch, and the step loop.
//!
//! One `step()` takes the next of {ready task, timer, event}, in that
//! priority order at equal times, advances the virtual clock and processes
//! it. Events are delivered to a waiting promise when one matches, else to
//! the destination's registered handler, else dropped.

use vstd::prelude::*;

use crate::event::{Event, EventData};
use crate::event_queue::EventPred;
use crate::shared_state::{key_of_event_exec, AwaitResult};
use crate::state::SimulationState;
use crate::task::TaskStep;
use crate::{EventId, Id, TaskId};

verus! {

/// The user side of a simulation: components that handle events, and tasks
/// that run cooperatively between them.
///
/// Both methods receive the kernel state and may emit, cancel, spawn and
/// inspect through its methods; they leave the clock alone, keep the state
/// well formed, and create at most a bounded batch of new ids per call.
pub trait EventHandler {
    /// Handles an event delivered to a registered component.
    fn on(&mut self, event: Event, state: &mut SimulationState)
        requires
            old(state).wf(),
            old(state).has_budget(),
        ensures
            final(state).wf(),
            final(state).spec_time() == old(state).spec_time(),
            final(state).spec_event_count() >= old(state).spec_event_count(),
            final(state).spec_event_count() <= old(state).spec_event_count() + 0xffff,
            final(state).spec_timer_count() <= old(state).spec_timer_count() + 0xffff,
            final(state).spec_tasks().len() >= old(state).spec_tasks().len(),
            final(state).spec_tasks().len() <= old(state).spec_tasks().len() + 0xffff,
    ;

    /// Resumes a task with the result of its last wait and returns what the
    /// task asks for next.
    fn resume(&mut self, task: TaskId, wake: AwaitResult, state: &mut SimulationState) -> (step:
        TaskStep)
        requires
            old(state).wf(),
            old(state).has_budget(),
            task < old(state).spec_tasks().len(),
        ensures
            final(state).wf(),
            final(state).spec_time() == old(state).spec_time(),
            final(state).spec_event_count() >= old(state).spec_event_count(),
            final(state).spec_event_count() <= old(state).spec_event_count() + 0xffff,
            final(state).spec_timer_count() <= old(state).spec_timer_count() + 0xffff,
            final(state).spec_tasks().len() >= old(state).spec_tasks().len(),
            final(state).spec_tasks().len() <= old(state).spec_tasks().len() + 0xffff,
    ;
}

/// Decides whether two strings hold the same characters.
pub fn str_eq(a: &str, b: &str) -> (r: bool)
    ensures
        r == (a@ == b@),
{
    let x = a.to_owned();
    let y = b.to_owned();
    x == y
}

/// A simulation: the kernel state plus the component registry.
pub struct Simulation {
    sim_state: SimulationState,
    names: Vec<String>,
    handlers: Vec<bool>,
}

impl Simulation {
    /// The kernel state.
    pub closed spec fn state(self) -> SimulationState {
        self.sim_state
    }

    /// The names of the registered components, by id.
    pub closed spec fn names_seq(self) -> Seq<Seq<char>> {
        self.names@.map_values(|s: String| s@)
    }

    /// Whether the component id has a registered handler.
    pub closed spec fn registered(self, id: Id) -> bool {
        0 <= id < self.handlers@.len() && self.handlers@[id as int]
    }

    /// Whether a component of that name exists.
    pub open spec fn has_name(self, name: Seq<char>) -> bool {
        exists|i: int| 0 <= i < self.names_seq().len() && self.names_seq()[i] == name
    }

    /// Registry invariants: names are unique and aligned with the handler
    /// flags, and the kernel state is well formed.
    pub open spec fn wf(self) -> bool {
        &&& self.state().wf()
        &&& self.names_seq().len() == self.handlers_len()
        &&& self.names_seq().len() <= u32::MAX
        &&& (forall|i: int, j: int|
            0 <= i < j < self.names_seq().len() ==> self.names_seq()[i] != self.names_seq()[j])
    }

    /// Number of registered component ids.
    pub closed spec fn handlers_len(self) -> int {
        self.handlers@.len() as int
    }

    /// Creates a new simulation with the specified random seed.
    pub fn new(seed: u64) -> (r: Self)
        ensures
            r.wf(),
            r.state().spec_time() == 0,
            r.state().spec_event_count() == 0,
            r.names_seq().len() == 0,
            !r.state().spec_poisoned(),
            r.state().has_budget(),
    {
        let r = Simulation { sim_state: SimulationState::new(seed), names: Vec::new(), handlers: Vec::new() };
        proof {
            assert(r.names_seq() =~= Seq::<Seq<char>>::empty());
        }
        r
    }

    /// Registers a component name, or finds it: the same name keeps its id.
    pub fn register(&mut self, name: &str) -> (id: Id)
        requires
            old(self).wf(),
            old(self).names_seq().len() < u32::MAX,
        ensures
            final(self).wf(),
            final(self).has_name(name@),
            id < final(self).names_seq().len(),
            final(self).names_seq()[id as int] == name@,
            old(self).has_name(name@) ==> *final(self) == *old(self),
            !old(self).has_name(name@) ==> final(self).names_seq() == old(self).names_seq().push(
                name@,
            ) && id == old(self).names_seq().len() && !final(self).registered(id),
            final(self).state() == old(self).state(),
            forall|c: Id| final(self).registered(c) == old(self).registered(c),
            forall|i: int|
                0 <= i < old(self).names_seq().len() ==> final(self).names_seq()[i] == old(self).names_seq()[i],
    {
        let n = self.names.len();
        let mut i: usize = 0;
        while i < n
            invariant
                *self == *old(self),
                old(self).wf(),
                old(self).names_seq().len() < u32::MAX,
                n == self.names@.len(),
                i <= n,
                forall|j: int| 0 <= j < i ==> self.names_seq()[j] != name@,
            decreases n - i,
        {
            if str_eq(self.names[i].as_str(), name) {
                proof {
                    assert(self.names_seq()[i as int] == self.names@[i as int]@);
                    assert(self.names_seq()[i as int] == name@);
                    assert(self.has_name(name@));
                    assert((i as u32) as int == i as int);
                }
                return i as u32;
            }
            proof {
                assert(self.names_seq()[i as int] == self.names@[i as int]@);
            }
            i = i + 1;
        }
        proof {
            assert(!old(self).has_name(name@));
        }
        let id = self.names.len() as u32;
        let owned = name.to_owned();
        self.names.push(owned);
        self.handlers.push(false);
        proof {
            assert(self.names_seq() =~= old(self).names_seq().push(name@));
            assert forall|a: int, b: int|
                0 <= a < b < self.names_seq().len() implies self.names_seq()[a]
                != self.names_seq()[b] by {
                if b < old(self).names_seq().len() {
                    assert(old(self).names_seq()[a] != old(self).names_seq()[b]);
                } else {
                    assert(self.names_seq()[b] == name@);
                    assert(old(self).names_seq()[a] != name@) by {
                        if old(self).names_seq()[a] == name@ {
                            assert(old(self).has_name(name@));
                        }
                    }
                    assert(self.names_seq()[a] == old(self).names_seq()[a]);
                }
            }
            assert(self.names_seq()[id as int] == name@);
            assert forall|c: Id| final(self).registered(c) == old(self).registered(c) by {}
        }
        id
    }

    /// Returns the id of the component with the given name.
    pub fn lookup_id(&self, name: &str) -> (id: Id)
        requires
            self.wf(),
            self.has_name(name@),
        ensures
            id < self.names_seq().len(),
            self.names_seq()[id as int] == name@,
    {
        let n = self.names.len();
        let mut i: usize = 0;
        while i < n
            invariant
                self.wf(),
                self.has_name(name@),
                n == self.names@.len(),
                i <= n,
                forall|j: int| 0 <= j < i ==> self.names_seq()[j] != name@,
            decreases n - i,
        {
            if str_eq(self.names[i].as_str(), name) {
                proof {
                    assert(self.names_seq()[i as int] == self.names@[i as int]@);
                    assert(self.names_seq()[i as int] == name@);
                    assert((i as u32) as int == i as int);
                }
                return i as u32;
            }
            proof {
                assert(self.names_seq()[i as int] == self.names@[i as int]@);
            }
            i = i + 1;
        }
        proof {
            let w = choose|w: int|
                0 <= w < self.names_seq().len() && self.names_seq()[w] == name@;
            assert(self.names_seq()[w] != name@);
        }
        0
    }

    /// Returns the name of the component with the given id.
    pub fn lookup_name(&self, id: Id) -> (name: String)
        requires
            self.wf(),
            id < self.names_seq().len(),
        ensures
            name@ == self.names_seq()[id as int],
    {
        let s = self.names[id as usize].clone();
        proof {
            assert(self.names_seq()[id as int] == self.names@[id as int]@);
        }
        s
    }

    /// Registers the event handler flag for the named component and returns
    /// its id: events destined for it will be dispatched from now on.
    pub fn add_handler(&mut self, name: &str) -> (id: Id)
        requires
            old(self).wf(),
            old(self).names_seq().len() < u32::MAX,
        ensures
            final(self).wf(),
            final(self).has_name(name@),
            id < final(self).names_seq().len(),
            final(self).names_seq()[id as int] == name@,
            final(self).registered(id),
            forall|c: Id| c != id ==> final(self).registered(c) == old(self).registered(c),
            final(self).state() == old(self).state(),
    {
        let id = self.register(name);
        let ghost mid = *self;
        self.handlers.set(id as usize, true);
        proof {
            assert((id as usize) as int == id as int);
            assert(self.names_seq() == mid.names_seq());
            assert(self.registered(id));
            assert forall|c: Id| c != id implies final(self).registered(c) == old(self).registered(
                c,
            ) by {}
        }
        id
    }

    /// Removes the event handler of the named component.
    ///
    /// Subsequent events destined for it are dropped, every pending event it
    /// emitted or was to receive is cancelled, its pending timers are
    /// removed, and promises keyed by it will never resume.
    pub fn remove_handler(&mut self, name: &str)
        requires
            old(self).wf(),
            old(self).has_name(name@),
        ensures
            final(self).wf(),
            final(self).names_seq() == old(self).names_seq(),
            exists|id: Id|
                (#[trigger] old(self).names_seq()[id as int]) == name@ && id < old(self).names_seq().len() && !final(self).registered(id) && (forall|c: Id|
                    c != id ==> final(self).registered(c) == old(self).registered(c)) && (forall|
                    e: Event,
                |
                    old(self).state().queue().pending(e) && (e.src == id || e.dst == id) ==> final(self).state().queue().is_canceled(e.id)) && (forall|i: int|
                    0 <= i < final(self).state().timer_queue().seq().len() ==> (#[trigger] final(self).state().timer_queue().seq()[i]).component_id != id) && (forall|
                    k: crate::shared_state::AwaitKey,
                |
                    final(self).state().has_awaiter(k) ==> k.to != id && k.from != id),
            final(self).state().spec_time() == old(self).state().spec_time(),
            final(self).state().spec_event_count() == old(self).state().spec_event_count(),
    {
        let id = self.lookup_id(name);
        self.handlers.set(id as usize, false);
        proof {
            assert((id as usize) as int == id as int);
            assert(self.names_seq() == old(self).names_seq());
        }
        self.sim_state.cancel_events(EventPred::SrcOrDstIs(id));
        self.sim_state.cancel_component_timers(id);
        self.sim_state.drop_awaiters_of(id);
        proof {
            assert(old(self).names_seq()[id as int] == name@);
            assert(!self.registered(id));
            assert forall|e: Event|
                old(self).state().queue().pending(e) && (e.src == id || e.dst
                    == id) implies self.state().queue().is_canceled(e.id) by {
                assert(EventPred::SrcOrDstIs(id).spec_matches(e));
            }
        }
    }

    /// Returns the current virtual time.
    pub fn time(&self) -> (r: u64)
        ensures
            r == self.state().spec_time(),
    {
        self.sim_state.time()
    }

    /// Returns the total number of created events, cancelled ones included.
    pub fn event_count(&self) -> (r: u64)
        ensures
            r == self.state().spec_event_count(),
    {
        self.sim_state.event_count()
    }

    /// Returns a random alphanumeric string of the given length from the
    /// simulation-wide seeded generator.
    pub fn random_string(&mut self, len: usize) -> (r: String)
        requires
            old(self).wf(),
        ensures
            final(self).wf(),
            r@.len() == len,
            final(self).names_seq() == old(self).names_seq(),
            forall|c: Id| final(self).registered(c) == old(self).registered(c),
            final(self).state().spec_time() == old(self).state().spec_time(),
            final(self).state().spec_event_count() == old(self).state().spec_event_count(),
    {
        self.sim_state.random_string(len)
    }

    /// Returns a random value in `[low, high)` from the simulation-wide
    /// seeded generator.
    pub fn gen_range(&mut self, low: u64, high: u64) -> (r: u64)
        requires
            old(self).wf(),
            low < high,
        ensures
            final(self).wf(),
            low <= r < high,
            final(self).names_seq() == old(self).names_seq(),
            forall|c: Id| final(self).registered(c) == old(self).registered(c),
            final(self).state().spec_time() == old(self).state().spec_time(),
            final(self).state().spec_event_count() == old(self).state().spec_event_count(),
    {
        self.sim_state.gen_range(low, high)
    }

    /// Emits an event from `src` to `dst` after `delay`; returns its id.
    pub fn emit(&mut self, data: EventData, src: Id, dst: Id, delay: u64) -> (id: EventId)
        requires
            old(self).wf(),
            old(self).state().spec_event_count() < u64::MAX,
        ensures
            final(self).wf(),
            id == old(self).state().spec_event_count(),
            final(self).state().spec_event_count() == old(self).state().spec_event_count() + 1,
            final(self).state().queue().heap_seq().contains(
                Event { id, time: old(self).state().delivery_time(delay), src, dst, data },
            ),
            forall|x: Event|
                old(self).state().queue().heap_seq().contains(x) ==> final(self).state().queue().heap_seq().contains(x),
            final(self).names_seq() == old(self).names_seq(),
            forall|c: Id| final(self).registered(c) == old(self).registered(c),
            final(self).state().spec_time() == old(self).state().spec_time(),
    {
        self.sim_state.add_event(data, src, dst, delay)
    }

    /// Emits an event into the FIFO lane; the lane preserves enqueue order,
    /// so an emission that would deliver before the lane's tail is a fatal
    /// error and is excluded here.
    pub fn emit_ordered(&mut self, data: EventData, src: Id, dst: Id, delay: u64) -> (id: EventId)
        requires
            old(self).wf(),
            old(self).state().spec_event_count() < u64::MAX,
            old(self).state().queue().ordered_seq().len() > 0 ==> old(
                self,
            ).state().queue().ordered_seq().last().time <= old(self).state().delivery_time(delay),
        ensures
            final(self).wf(),
            id == old(self).state().spec_event_count(),
            final(self).state().spec_event_count() == old(self).state().spec_event_count() + 1,
            final(self).state().queue().ordered_seq().len() == old(self).state().queue().ordered_seq().len() + 1,
            final(self).state().queue().ordered_seq().last() == (Event {
                id,
                time: old(self).state().delivery_time(delay),
                src,
                dst,
                data,
            }),
            final(self).names_seq() == old(self).names_seq(),
            forall|c: Id| final(self).registered(c) == old(self).registered(c),
            final(self).state().spec_time() == old(self).state().spec_time(),
    {
        self.sim_state.add_ordered_event(data, src, dst, delay)
    }

    /// Spawns a new ready task owned by the given component.
    pub fn spawn(&mut self, owner: Id) -> (tid: TaskId)
        requires
            old(self).wf(),
            old(self).state().spec_tasks().len() < 0xffff_0000,
        ensures
            final(self).wf(),
            tid == old(self).state().spec_tasks().len(),
            final(self).state().spec_tasks().len() == old(self).state().spec_tasks().len() + 1,
            final(self).names_seq() == old(self).names_seq(),
            forall|c: Id| final(self).registered(c) == old(self).registered(c),
            final(self).state().spec_time() == old(self).state().spec_time(),
            final(self).state().spec_event_count() == old(self).state().spec_event_count(),
    {
        self.sim_state.spawn(owner)
    }

    /// Cancels events that satisfy the given predicate.
    pub fn cancel_events(&mut self, pred: EventPred)
        requires
            old(self).wf(),
        ensures
            final(self).wf(),
            forall|e: Event|
                old(self).state().queue().pending(e) && pred.spec_matches(e) ==> final(self).state().queue().is_canceled(e.id),
            final(self).names_seq() == old(self).names_seq(),
            forall|c: Id| final(self).registered(c) == old(self).registered(c),
            final(self).state().spec_time() == old(self).state().spec_time(),
            final(self).state().spec_event_count() == old(self).state().spec_event_count(),
    {
        self.sim_state.cancel_events(pred);
    }

    /// Cancels events that satisfy the given predicate and returns copies of
    /// the newly cancelled ones.
    pub fn cancel_and_get_events(&mut self, pred: EventPred) -> (r: Vec<Event>)
        requires
            old(self).wf(),
        ensures
            final(self).wf(),
            forall|e: Event|
                old(self).state().queue().pending(e) && pred.spec_matches(e) ==> final(self).state().queue().is_canceled(e.id),
            forall|i: int|
                0 <= i < r@.len() ==> crate::event_queue::EventQueue::copies_live_matching(
                    old(self).state().queue(),
                    pred,
                    #[trigger] r@[i],
                ),
            forall|e: Event|
                old(self).state().queue().live(e) && pred.spec_matches(e)
                    ==> crate::event_queue::EventQueue::covered_in(r@, e),
            final(self).names_seq() == old(self).names_seq(),
            forall|c: Id| final(self).registered(c) == old(self).registered(c),
            final(self).state().spec_time() == old(self).state().spec_time(),
            final(self).state().spec_event_count() == old(self).state().spec_event_count(),
    {
        self.sim_state.cancel_and_get_events(pred)
    }

    /// Resumes one task and applies what it asks for next.
    fn run_task<H: EventHandler>(&mut self, h: &mut H, tid: TaskId)
        requires
            old(self).wf(),
            old(self).state().has_budget(),
            tid < old(self).state().spec_tasks().len(),
        ensures
            final(self).wf(),
            final(self).names_seq() == old(self).names_seq(),
            forall|c: Id| final(self).registered(c) == old(self).registered(c),
            final(self).state().spec_time() == old(self).state().spec_time(),
            final(self).state().spec_event_count() >= old(self).state().spec_event_count(),
    {
        let content = self.sim_state.take_slot_content(tid);
        let step = h.resume(tid, content, &mut self.sim_state);
        if self.sim_state.has_budget_exec() {
            let epoch_ok = self.sim_state.slot_epoch_below_max(tid);
            if epoch_ok {
                self.sim_state.apply_task_step(tid, step);
            } else {
                self.sim_state.poison();
            }
        } else {
            self.sim_state.poison();
        }
    }

    /// Performs a single step through the simulation.
    ///
    /// A ready task is run first; else the earlier of the next timer and the
    /// next event is processed, the timer first on a tie; an event goes to a
    /// matching promise if one is registered, else to the destination's
    /// handler, else it is dropped. Returns `false` when no work is pending
    /// or a fatal error has stopped the run.
    pub fn step<H: EventHandler>(&mut self, h: &mut H) -> (r: bool)
        requires
            old(self).wf(),
        ensures
            final(self).wf(),
            final(self).names_seq() == old(self).names_seq(),
            forall|c: Id| final(self).registered(c) == old(self).registered(c),
            final(self).state().spec_time() >= old(self).state().spec_time(),
            final(self).state().spec_event_count() >= old(self).state().spec_event_count(),
            // a fatally stopped simulation makes no progress; id exhaustion
            // stops it fatally
            old(self).state().spec_poisoned() ==> !r && *final(self) == *old(self),
            !old(self).state().spec_poisoned() && !old(self).state().has_budget() ==> !r && final(self).state().spec_poisoned(),
            // `false` without a fatal stop means nothing was pending at all
            !r && !old(self).state().spec_poisoned() && !final(self).state().spec_poisoned()
                ==> *final(self) == *old(self) && old(self).state().spec_ready().len() == 0 && old(self).state().timer_queue().seq().len() == 0 && (forall|e: Event|
                old(self).state().queue().pending(e) ==> old(self).state().queue().is_canceled(
                    e.id,
                )),
            // a ready task runs first and leaves the clock alone
            ({
                let st = old(self).state();
                (!st.spec_poisoned() && st.has_budget() && st.spec_ready().len() > 0) ==> r
                    && final(self).state().spec_time() == st.spec_time()
            }),
            // else the earlier of the next timer and the next event is
            // taken, the timer first on a tie, and the clock advances to it
            ({
                let st = old(self).state();
                (!st.spec_poisoned() && st.has_budget() && st.spec_ready().len() == 0
                    && st.timer_queue().seq().len() > 0 && (forall|e: Event|
                    st.queue().is_min_live(e) ==> st.timer_queue().seq()[0].time <= e.time)) ==> r
                    && final(self).state().spec_time() == st.timer_queue().seq()[0].time
            }),
            ({
                let st = old(self).state();
                (!st.spec_poisoned() && st.has_budget() && st.spec_ready().len() == 0 && (exists|
                    e: Event,
                |
                    st.queue().is_min_live(e) && (st.timer_queue().seq().len() == 0
                        || st.timer_queue().seq()[0].time > e.time))) ==> r && (exists|e: Event|
                    st.queue().is_min_live(e) && final(self).state().spec_time() == e.time)
            }),
    {
        if self.sim_state.is_poisoned() {
            return false;
        }
        if !self.sim_state.has_budget_exec() {
            self.sim_state.poison();
            return false;
        }
        let next_ready = self.sim_state.pop_ready();
        match next_ready {
            Some(tid) => {
                self.run_task(h, tid);
                return true;
            },
            None => {},
        }
        let tt = self.sim_state.peek_timer_time();
        let te = self.sim_state.peek_event_time();
        match (tt, te) {
            (None, None) => false,
            (Some(_), None) => {
                proof {
                    let q = self.state().queue();
                    assert forall|i: int|
                        0 <= i < q.heap_seq().len() && !q.is_canceled(
                            (#[trigger] q.heap_seq()[i]).id,
                        ) implies false by {
                        assert(q.pending(q.heap_seq()[i])) by {
                            assert(q.heap_seq().contains(q.heap_seq()[i]));
                        }
                    }
                    assert forall|i: int|
                        0 <= i < q.ordered_seq().len() && !q.is_canceled(
                            (#[trigger] q.ordered_seq()[i]).id,
                        ) implies false by {
                        assert(q.pending(q.ordered_seq()[i])) by {
                            assert(q.ordered_seq().contains(q.ordered_seq()[i]));
                        }
                    }
                }
                self.fire_timer_and_pump(h);
                true
            },
            (None, Some(_)) => {
                self.process_event(h);
                true
            },
            (Some(t), Some(e)) => {
                if t <= e.0 {
                    proof {
                        let q = self.state().queue();
                        let m = choose|m: Event|
                            q.is_min_live(m) && m.time == e.0 && m.id == e.1;
                        assert forall|i: int|
                            0 <= i < q.heap_seq().len() && !q.is_canceled(
                                (#[trigger] q.heap_seq()[i]).id,
                            ) implies q.heap_seq()[i].time
                            >= self.state().timer_queue().seq()[0].time by {
                            assert(crate::event::event_le(m, q.heap_seq()[i]));
                        }
                        assert forall|i: int|
                            0 <= i < q.ordered_seq().len() && !q.is_canceled(
                                (#[trigger] q.ordered_seq()[i]).id,
                            ) implies q.ordered_seq()[i].time
                            >= self.state().timer_queue().seq()[0].time by {
                            assert(crate::event::event_le(m, q.ordered_seq()[i]));
                        }
                    }
                    self.fire_timer_and_pump(h);
                } else {
                    proof {
                        let q = self.state().queue();
                        let m = choose|m: Event|
                            q.is_min_live(m) && m.time == e.0 && m.id == e.1;
                        assert forall|ev: Event|
                            q.is_min_live(ev) && self.state().timer_queue().seq().len()
                                > 0 implies self.state().timer_queue().seq()[0].time >= ev.time by {
                            crate::event_queue::EventQueue::lemma_min_live_le(q, m, ev);
                            crate::event_queue::EventQueue::lemma_min_live_le(q, ev, m);
                        }
                    }
                    self.process_event(h);
                }
                true
            },
        }
    }

    /// Fires the next timer and runs one woken task, if any became ready.
    fn fire_timer_and_pump<H: EventHandler>(&mut self, h: &mut H)
        requires
            old(self).wf(),
            old(self).state().has_budget(),
            old(self).state().timer_queue().seq().len() > 0 ==> (forall|i: int|
                0 <= i < old(self).state().queue().heap_seq().len() && !old(self).state().queue().is_canceled(
                    (#[trigger] old(self).state().queue().heap_seq()[i]).id,
                ) ==> old(self).state().queue().heap_seq()[i].time >= old(self).state().timer_queue().seq()[0].time),
            old(self).state().timer_queue().seq().len() > 0 ==> (forall|i: int|
                0 <= i < old(self).state().queue().ordered_seq().len() && !old(self).state().queue().is_canceled(
                    (#[trigger] old(self).state().queue().ordered_seq()[i]).id,
                ) ==> old(self).state().queue().ordered_seq()[i].time >= old(self).state().timer_queue().seq()[0].time),
        ensures
            final(self).wf(),
            final(self).names_seq() == old(self).names_seq(),
            forall|c: Id| final(self).registered(c) == old(self).registered(c),
            final(self).state().spec_time() >= old(self).state().spec_time(),
            final(self).state().spec_event_count() >= old(self).state().spec_event_count(),
            old(self).state().timer_queue().seq().len() > 0 ==> final(self).state().spec_time()
                == old(self).state().timer_queue().seq()[0].time,
            old(self).state().timer_queue().seq().len() == 0 ==> final(self).state().spec_time()
                == old(self).state().spec_time(),
    {
        let _ = self.sim_state.fire_next_timer();
        let woken = self.sim_state.pop_ready();
        match woken {
            Some(tid) => {
                if self.sim_state.has_budget_exec() {
                    self.run_task(h, tid);
                } else {
                    self.sim_state.poison();
                }
            },
            None => {},
        }
    }

    /// Pops the next event and delivers it: to a matching promise, waking
    /// and running the waiter, else to the destination's handler, else it is
    /// dropped.
    fn process_event<H: EventHandler>(&mut self, h: &mut H)
        requires
            old(self).wf(),
            old(self).state().has_budget(),
            forall|e: Event|
                old(self).state().queue().is_min_live(e) && old(self).state().timer_queue().seq().len() > 0 ==> old(self).state().timer_queue().seq()[0].time >= e.time,
        ensures
            final(self).wf(),
            final(self).names_seq() == old(self).names_seq(),
            forall|c: Id| final(self).registered(c) == old(self).registered(c),
            final(self).state().spec_time() >= old(self).state().spec_time(),
            final(self).state().spec_event_count() >= old(self).state().spec_event_count(),
            // the clock advances exactly to the delivered event
            (exists|e: Event| old(self).state().queue().is_min_live(e)) ==> exists|e: Event|
                old(self).state().queue().is_min_live(e) && final(self).state().spec_time()
                    == e.time,
            (forall|e: Event|
                old(self).state().queue().pending(e) ==> old(self).state().queue().is_canceled(
                    e.id,
                )) ==> final(self).state().spec_time() == old(self).state().spec_time(),
    {
        let popped = self.sim_state.pop_next_event();
        match popped {
            None => {},
            Some(e) => {
                let key = key_of_event_exec(&e);
                let waiter = self.sim_state.take_awaiter(key);
                match waiter {
                    Some(tid) => {
                        self.sim_state.complete_event_waiter(tid, e);
                        let woken = self.sim_state.pop_ready();
                        match woken {
                            Some(t2) => {
                                if self.sim_state.has_budget_exec() {
                                    self.run_task(h, t2);
                                } else {
                                    self.sim_state.poison();
                                }
                            },
                            None => {},
                        }
                    },
                    None => {
                        let dst = e.dst;
                        let registered_dst = dst < self.handlers.len() as u32
                            && self.handlers[dst as usize];
                        if registered_dst {
                            h.on(e, &mut self.sim_state);
                        }
                        // an event for an unregistered component is dropped
                    },
                }
            },
        }
    }

    /// Returns copies of the pending, not cancelled events, sorted strictly
    /// by time and id.
    pub fn dump_events(&self) -> (r: Vec<Event>)
        requires
            self.wf(),
        ensures
            forall|a: int, b: int|
                0 <= a < b < r@.len() ==> crate::event::event_before(
                    #[trigger] r@[a],
                    #[trigger] r@[b],
                ),
            forall|a: int|
                0 <= a < r@.len() ==> crate::event_queue::EventQueue::copies_live(
                    self.state().queue(),
                    #[trigger] r@[a],
                ),
            forall|e: Event|
                self.state().queue().live(e) ==> crate::event_queue::EventQueue::covered_in(r@, e),
    {
        self.sim_state.dump_events()
    }

    /// Every run of the simulation stopped without a fatal error: no task
    /// is ready, no timer is pending, and every pending event is cancelled.
    pub open spec fn drained(self) -> bool {
        &&& self.state().spec_ready().len() == 0
        &&& self.state().timer_queue().seq().len() == 0
        &&& (forall|e: Event|
            self.state().queue().pending(e) ==> self.state().queue().is_canceled(e.id))
    }

    /// Performs up to the specified number of steps; stops early when no
    /// progress can be made. Returns whether more work may be pending.
    pub fn steps<H: EventHandler>(&mut self, h: &mut H, step_count: u64) -> (r: bool)
        requires
            old(self).wf(),
        ensures
            final(self).wf(),
            final(self).names_seq() == old(self).names_seq(),
            final(self).state().spec_time() >= old(self).state().spec_time(),
            // an early stop means a fatal error or nothing left to do
            !r ==> final(self).state().spec_poisoned() || final(self).drained(),
    {
        let mut i: u64 = 0;
        while i < step_count
            invariant
                self.wf(),
                self.names_seq() == old(self).names_seq(),
                self.state().spec_time() >= old(self).state().spec_time(),
            decreases step_count - i,
        {
            let ghost pre = *self;
            if !self.step(h) {
                proof {
                    if !self.state().spec_poisoned() {
                        assert(!pre.state().spec_poisoned());
                        assert(*self == pre);
                    }
                }
                return false;
            }
            i = i + 1;
        }
        true
    }

    /// Steps through the simulation until no pending work is left: on a
    /// normal stop nothing is ready or pending; a run that cannot drain
    /// within the step budget is stopped fatally.
    pub fn step_until_no_events<H: EventHandler>(&mut self, h: &mut H)
        requires
            old(self).wf(),
        ensures
            final(self).wf(),
            final(self).names_seq() == old(self).names_seq(),
            final(self).state().spec_time() >= old(self).state().spec_time(),
            !final(self).state().spec_poisoned() ==> final(self).drained(),
    {
        let mut fuel: u64 = u64::MAX;
        while fuel > 0
            invariant
                self.wf(),
                self.names_seq() == old(self).names_seq(),
                self.state().spec_time() >= old(self).state().spec_time(),
            decreases fuel,
        {
            let ghost pre = *self;
            if !self.step(h) {
                proof {
                    if !self.state().spec_poisoned() {
                        assert(!pre.state().spec_poisoned());
                        assert(*self == pre);
                    }
                }
                return;
            }
            fuel = fuel - 1;
        }
        // the step budget ran out before the run drained: stop it fatally
        self.sim_state.poison();
    }

    /// Steps through the simulation until the next pending item lies past
    /// the given time, then advances the clock to that time. Returns whether
    /// work is still pending. The clock never runs backwards.
    pub fn step_until_time<H: EventHandler>(&mut self, h: &mut H, t: u64) -> (r: bool)
        requires
            old(self).wf(),
            t >= old(self).state().spec_time(),
        ensures
            final(self).wf(),
            final(self).names_seq() == old(self).names_seq(),
            final(self).state().spec_time() >= old(self).state().spec_time(),
            !final(self).state().spec_poisoned() ==> final(self).state().spec_time() == t && (
            forall|e: Event|
                final(self).state().queue().live(e) ==> e.time > t) && (forall|i: int|
                0 <= i < final(self).state().timer_queue().seq().len() ==> (#[trigger] final(self).state().timer_queue().seq()[i]).time > t),
            !final(self).state().spec_poisoned() ==> r == (final(self).state().timer_queue().seq().len() > 0 || exists|e: Event|
                final(self).state().queue().is_min_live(e)),
    {
        let mut fuel: u64 = u64::MAX;
        while fuel > 0
            invariant
                self.wf(),
                self.names_seq() == old(self).names_seq(),
                t >= self.state().spec_time() || self.state().spec_poisoned(),
                self.state().spec_time() >= old(self).state().spec_time(),
            decreases fuel,
        {
            if self.sim_state.is_poisoned() {
                return false;
            }
            let tt = self.sim_state.peek_timer_time();
            let te = self.sim_state.peek_event_time();
            let past = match (tt, te) {
                (None, None) => true,
                (Some(x), None) => x > t,
                (None, Some(y)) => y.0 > t,
                (Some(x), Some(y)) => x > t && y.0 > t,
            };
            if past {
                // nothing is due up to `t`: settle the clock there
                proof {
                    let st = self.state();
                    assert forall|i: int|
                        0 <= i < st.queue().heap_seq().len() && !st.queue().is_canceled(
                            (#[trigger] st.queue().heap_seq()[i]).id,
                        ) implies st.queue().heap_seq()[i].time > t by {
                        match te {
                            Some(y) => {
                                let m = choose|e: Event|
                                    st.queue().is_min_live(e) && e.time == y.0 && e.id == y.1;
                                assert(crate::event::event_le(m, st.queue().heap_seq()[i]));
                            },
                            None => {
                                assert(st.queue().pending(st.queue().heap_seq()[i])) by {
                                    assert(st.queue().heap_seq().contains(
                                        st.queue().heap_seq()[i],
                                    ));
                                }
                            },
                        }
                    }
                    assert forall|i: int|
                        0 <= i < st.queue().ordered_seq().len() && !st.queue().is_canceled(
                            (#[trigger] st.queue().ordered_seq()[i]).id,
                        ) implies st.queue().ordered_seq()[i].time > t by {
                        match te {
                            Some(y) => {
                                let m = choose|e: Event|
                                    st.queue().is_min_live(e) && e.time == y.0 && e.id == y.1;
                                assert(crate::event::event_le(m, st.queue().ordered_seq()[i]));
                            },
                            None => {
                                assert(st.queue().pending(st.queue().ordered_seq()[i])) by {
                                    assert(st.queue().ordered_seq().contains(
                                        st.queue().ordered_seq()[i],
                                    ));
                                }
                            },
                        }
                    }
                    assert forall|i: int|
                        0 <= i < st.timer_queue().seq().len() implies (
                    #[trigger] st.timer_queue().seq()[i]).time > t by {
                        match tt {
                            Some(x) => {
                                if i > 0 {
                                    assert(crate::timer::timer_before(
                                        st.timer_queue().seq()[0],
                                        st.timer_queue().seq()[i],
                                    ));
                                }
                            },
                            None => {},
                        }
                    }
                }
                self.sim_state.advance_clock_to(t);
                proof {
                    assert forall|e: Event| self.state().queue().live(e) implies e.time > t by {
                        if self.state().queue().heap_seq().contains(e) {
                            let k = choose|k: int|
                                0 <= k < self.state().queue().heap_seq().len()
                                    && self.state().queue().heap_seq()[k] == e;
                            assert(!self.state().queue().is_canceled(
                                self.state().queue().heap_seq()[k].id,
                            ));
                        } else {
                            let k = choose|k: int|
                                0 <= k < self.state().queue().ordered_seq().len()
                                    && self.state().queue().ordered_seq()[k] == e;
                            assert(!self.state().queue().is_canceled(
                                self.state().queue().ordered_seq()[k].id,
                            ));
                        }
                    }
                }
                let more_timers = match self.sim_state.peek_timer_time() {
                    Some(_) => true,
                    None => false,
                };
                let more_events = match self.sim_state.peek_event_time() {
                    Some(_) => true,
                    None => false,
                };
                proof {
                    if !more_events {
                        assert(forall|e: Event|
                            self.state().queue().pending(e) ==> self.state().queue().is_canceled(
                                e.id,
                            ));
                        if exists|e: Event| self.state().queue().is_min_live(e) {
                            let m = choose|e: Event| self.state().queue().is_min_live(e);
                            assert(self.state().queue().is_canceled(m.id));
                        }
                    }
                }
                return more_timers || more_events;
            }
            let _ = self.step(h);
            fuel = fuel - 1;
        }
        // the step budget ran out before the time was reached
        self.sim_state.poison();
        false
    }

    /// Steps through the simulation for the given duration past the current
    /// time, then advances the clock to that point. Returns whether work is
    /// still pending.
    pub fn step_for_duration<H: EventHandler>(&mut self, h: &mut H, duration: u64) -> (r: bool)
        requires
            old(self).wf(),
        ensures
            final(self).wf(),
            final(self).names_seq() == old(self).names_seq(),
            final(self).state().spec_time() >= old(self).state().spec_time(),
            !final(self).state().spec_poisoned() ==> final(self).state().spec_time() == old(self).state().delivery_time(duration),
            !final(self).state().spec_poisoned() ==> r == (final(self).state().timer_queue().seq().len() > 0 || exists|e: Event|
                final(self).state().queue().is_min_live(e)),
    {
        let now = self.sim_state.time();
        let t = if duration <= u64::MAX - now {
            now + duration
        } else {
            u64::MAX
        };
        self.step_until_time(h, t)
    }
}

} // verus!
