//! Kernel behaviour: step ordering, the ordered lane, cancellation,
//! promises and determinism.

use simcore::event::{CompFinished, Event, EventData};
use simcore::event_generator::emit_workload;
use simcore::multicore::Compute;
use simcore::event_queue::EventPred;
use simcore::shared_state::{AwaitKey, AwaitResult};
use simcore::simulation::{EventHandler, Simulation};
use simcore::state::SimulationState;
use simcore::task::TaskStep;
use simcore::TaskId;

/// Records what happens, in processing order.
struct Recorder {
    id: u32,
    log: Vec<(u64, String, u64)>,
    slept: bool,
    sleep_delay: u64,
    await_from: Option<u32>,
    resumed: u64,
}

impl Recorder {
    fn new(id: u32) -> Recorder {
        Recorder { id, log: Vec::new(), slept: false, sleep_delay: 5, await_from: None, resumed: 0 }
    }
}

impl EventHandler for Recorder {
    fn on(&mut self, event: Event, state: &mut SimulationState) {
        if event.dst == self.id {
            self.log.push((state.time(), String::from("event"), event.id));
        }
    }

    fn resume(&mut self, _task: TaskId, _wake: AwaitResult, state: &mut SimulationState) -> TaskStep {
        if let Some(src) = self.await_from {
            if self.resumed == 0 && !self.slept {
                self.slept = true;
                return TaskStep::WaitEvent { key: AwaitKey::new(src, self.id, 0) };
            }
            self.resumed += 1;
            self.log.push((state.time(), String::from("resumed"), self.resumed));
            return TaskStep::Finish;
        }
        if !self.slept {
            self.slept = true;
            return TaskStep::Sleep { delay: self.sleep_delay };
        }
        self.log.push((state.time(), String::from("task"), 0));
        TaskStep::Finish
    }
}

#[test]
fn timer_beats_event_at_equal_time() {
    let mut sim = Simulation::new(7);
    let a = sim.add_handler("a");
    let w = sim.register("w");
    let mut world = Recorder::new(a);
    sim.spawn(a);
    sim.emit(EventData::Empty, w, a, 5);
    sim.step_until_no_events(&mut world);
    assert_eq!(sim.time(), 5);
    assert_eq!(world.log.len(), 2);
    assert_eq!(world.log[0], (5, String::from("task"), 0));
    assert_eq!(world.log[1].0, 5);
    assert_eq!(world.log[1].1, String::from("event"));
}

#[test]
fn ordered_lane_preserves_enqueue_order() {
    let mut sim = Simulation::new(7);
    let a = sim.add_handler("a");
    let w = sim.register("w");
    let mut world = Recorder::new(a);
    let e0 = sim.emit_ordered(EventData::Empty, w, a, 1);
    let e1 = sim.emit_ordered(EventData::Empty, w, a, 1);
    let e2 = sim.emit_ordered(EventData::Empty, w, a, 1);
    sim.step_until_no_events(&mut world);
    assert_eq!(world.log.len(), 3);
    assert_eq!(world.log[0], (1, String::from("event"), e0));
    assert_eq!(world.log[1], (1, String::from("event"), e1));
    assert_eq!(world.log[2], (1, String::from("event"), e2));
}

#[test]
fn delivery_follows_time_then_id() {
    let mut sim = Simulation::new(7);
    let a = sim.add_handler("a");
    let w = sim.register("w");
    let mut world = Recorder::new(a);
    let e2 = sim.emit(EventData::Empty, w, a, 2);
    let e1 = sim.emit(EventData::Empty, w, a, 1);
    let e1b = sim.emit(EventData::Empty, w, a, 1);
    sim.step_until_no_events(&mut world);
    assert_eq!(world.log.len(), 3);
    assert_eq!(world.log[0].2, e1);
    assert_eq!(world.log[1].2, e1b);
    assert_eq!(world.log[2].2, e2);
}

#[test]
fn removed_handler_gets_nothing_and_count_keeps() {
    let mut sim = Simulation::new(7);
    let a = sim.add_handler("a");
    let b = sim.add_handler("b");
    let mut world = Recorder::new(a);
    sim.emit(EventData::Empty, b, a, 1);
    sim.emit(EventData::Empty, a, b, 2);
    let count_before = sim.event_count();
    sim.remove_handler("b");
    // cancellation marks events; it never creates or destroys ids
    assert_eq!(sim.event_count(), count_before);
    sim.step_until_no_events(&mut world);
    // both pending events named b and were cancelled
    assert_eq!(world.log.len(), 0);
}

#[test]
fn cancel_events_by_predicate() {
    let mut sim = Simulation::new(7);
    let a = sim.add_handler("a");
    let w = sim.register("w");
    let mut world = Recorder::new(a);
    let e0 = sim.emit(EventData::Empty, w, a, 1);
    let e1 = sim.emit(EventData::Empty, w, a, 2);
    let e2 = sim.emit(EventData::Empty, w, a, 3);
    let cancelled = sim.cancel_and_get_events(EventPred::IdBelow(2));
    assert_eq!(cancelled.len(), 2);
    assert!(cancelled.iter().any(|e| e.id == e0));
    assert!(cancelled.iter().any(|e| e.id == e1));
    sim.step_until_no_events(&mut world);
    assert_eq!(world.log.len(), 1);
    assert_eq!(world.log[0].2, e2);
    assert_eq!(sim.time(), 3);
}

#[test]
fn promise_resumes_exactly_once() {
    let mut sim = Simulation::new(7);
    let a = sim.add_handler("a");
    let w = sim.register("w");
    let mut world = Recorder::new(a);
    world.await_from = Some(w);
    sim.spawn(a);
    sim.emit(EventData::Empty, w, a, 1);
    sim.emit(EventData::Empty, w, a, 2);
    sim.step_until_no_events(&mut world);
    // the first matching event resumed the single promise; the second was
    // dispatched to the handler instead
    assert_eq!(world.resumed, 1);
    let resumes = world.log.iter().filter(|r| r.1 == "resumed").count();
    let handled = world.log.iter().filter(|r| r.1 == "event").count();
    assert_eq!(resumes, 1);
    assert_eq!(handled, 1);
}

#[test]
fn identical_seeds_replay_identically() {
    let mut logs: Vec<Vec<(u64, String, u64)>> = Vec::new();
    let mut rand_draws: Vec<(u64, String)> = Vec::new();
    for _ in 0..2 {
        let mut sim = Simulation::new(42);
        let a = sim.add_handler("a");
        let w = sim.register("w");
        let mut world = Recorder::new(a);
        let d = sim.gen_range(10, 1000);
        let s = sim.random_string(12);
        rand_draws.push((d, s));
        sim.emit(EventData::Empty, w, a, d);
        sim.emit(EventData::Empty, w, a, d / 2);
        sim.spawn(a);
        sim.step_until_no_events(&mut world);
        logs.push(world.log);
    }
    assert_eq!(logs[0], logs[1]);
    assert_eq!(rand_draws[0], rand_draws[1]);
}

#[test]
fn random_string_has_requested_length() {
    let mut sim = Simulation::new(3);
    let s = sim.random_string(17);
    assert_eq!(s.chars().count(), 17);
    let t = sim.random_string(17);
    // a fresh draw from the generator, not a replay of the first
    assert!(s != t || s.is_empty());
    let empty = sim.random_string(0);
    assert_eq!(empty.len(), 0);
}

#[test]
fn gen_range_stays_in_bounds() {
    let mut sim = Simulation::new(3);
    for _ in 0..50 {
        let v = sim.gen_range(10, 20);
        assert!((10..20).contains(&v));
    }
}

#[test]
fn dump_events_is_sorted_and_complete() {
    let mut sim = Simulation::new(7);
    let a = sim.add_handler("a");
    let w = sim.register("w");
    let e2 = sim.emit(EventData::Empty, w, a, 2);
    let e1 = sim.emit(EventData::Empty, w, a, 1);
    let e3 = sim.emit_ordered(EventData::Empty, w, a, 2);
    let dump = sim.dump_events();
    assert_eq!(dump.len(), 3);
    assert_eq!((dump[0].id, dump[0].time), (e1, 1));
    assert_eq!((dump[1].id, dump[1].time), (e2, 2));
    assert_eq!((dump[2].id, dump[2].time), (e3, 2));
    sim.cancel_events(EventPred::IdBelow(e3));
    let dump2 = sim.dump_events();
    assert_eq!(dump2.len(), 1);
    assert_eq!(dump2[0].id, e3);
}

/// Awaits an event with a deadline; records how the wait ended.
struct TimeoutWaiter {
    id: u32,
    from: u32,
    timeout: u64,
    started: bool,
    outcome: Vec<(u64, bool)>,
}

impl EventHandler for TimeoutWaiter {
    fn on(&mut self, _event: Event, _state: &mut SimulationState) {}

    fn resume(&mut self, _task: TaskId, wake: AwaitResult, state: &mut SimulationState) -> TaskStep {
        if !self.started {
            self.started = true;
            return TaskStep::WaitEventFor {
                key: AwaitKey::new(self.from, self.id, 0),
                timeout: self.timeout,
            };
        }
        let delivered = matches!(wake, AwaitResult::Delivered(_));
        self.outcome.push((state.time(), delivered));
        TaskStep::Finish
    }
}

#[test]
fn wait_with_timeout_times_out_without_event() {
    let mut sim = Simulation::new(7);
    let a = sim.add_handler("a");
    let w = sim.register("w");
    let mut world = TimeoutWaiter { id: a, from: w, timeout: 10, started: false, outcome: Vec::new() };
    sim.spawn(a);
    sim.step_until_no_events(&mut world);
    assert_eq!(world.outcome, vec![(10, false)]);
}

#[test]
fn wait_with_timeout_takes_the_earlier_event() {
    let mut sim = Simulation::new(7);
    let a = sim.add_handler("a");
    let w = sim.register("w");
    let mut world = TimeoutWaiter { id: a, from: w, timeout: 10, started: false, outcome: Vec::new() };
    sim.spawn(a);
    sim.emit(EventData::Empty, w, a, 4);
    sim.step_until_no_events(&mut world);
    assert_eq!(world.outcome, vec![(4, true)]);
}

#[test]
fn workload_intake_rejects_duplicate_ids() {
    let mut sim = Simulation::new(7);
    let a = sim.add_handler("a");
    let w = sim.register("w");
    let mut world = Recorder::new(a);
    let jobs: Vec<(u64, u64)> = vec![(5, 1), (6, 2), (5, 3)];
    let emitted = emit_workload(&mut sim, w, a, &jobs);
    assert_eq!(emitted, 2);
    assert_eq!(sim.event_count(), 2);
    sim.step_until_no_events(&mut world);
    assert_eq!(world.log.len(), 2);
    assert_eq!(world.log[0].0, 1);
    assert_eq!(world.log[1].0, 2);
}

#[test]
fn step_until_time_settles_the_clock() {
    let mut sim = Simulation::new(7);
    let a = sim.add_handler("a");
    let w = sim.register("w");
    let mut world = Recorder::new(a);
    sim.emit(EventData::Empty, w, a, 1);
    sim.emit(EventData::Empty, w, a, 2);
    sim.emit(EventData::Empty, w, a, 4);
    let more = sim.step_until_time(&mut world, 3);
    assert_eq!(sim.time(), 3);
    assert!(more);
    assert_eq!(world.log.len(), 2);
    let more2 = sim.step_until_time(&mut world, 5);
    assert_eq!(sim.time(), 5);
    assert!(!more2);
    assert_eq!(world.log.len(), 3);
    let more3 = sim.step_for_duration(&mut world, 2);
    assert_eq!(sim.time(), 7);
    assert!(!more3);
}

struct HostOnly {
    host_id: u32,
    compute: Compute,
}

impl EventHandler for HostOnly {
    fn on(&mut self, event: Event, state: &mut SimulationState) {
        if event.dst == self.host_id {
            self.compute.on(event, state);
        }
    }
    fn resume(&mut self, _t: TaskId, _w: AwaitResult, _s: &mut SimulationState) -> TaskStep {
        TaskStep::Finish
    }
}

#[test]
fn unknown_completion_is_fatal_for_the_host() {
    let mut sim = Simulation::new(7);
    let host = sim.add_handler("host");
    let w = sim.register("w");
    let mut world = HostOnly { host_id: host, compute: Compute::new(1000, 8, 16384, host) };
    // a completion for a computation the host never ran breaks its books
    sim.emit(EventData::CompFinished(CompFinished { id: 99 }), w, host, 1);
    sim.step_until_no_events(&mut world);
    assert_eq!(world.compute.cores_available(), 8);
}
