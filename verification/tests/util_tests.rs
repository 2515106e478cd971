//! Utilities: config parsing, wire-name vocabularies, the host selection
//! policy, the process registry and the blocking queue.

use simcore::event::EventData;
use simcore::event_generator::RandomEventGenerator;
use simcore::google_protos::{CollectionType, EventType, LatencySensitivity};
use simcore::hermes::{HermesScheduler, HostInfo};
use simcore::host_storage::ProcessHostStorage;
use simcore::machine_event;
use simcore::options::{parse_config_value, parse_options};
use simcore::queue::{get_notify_details, Ticket, UnboundedBlockingQueue};
use simcore::event::Event;
use simcore::shared_state::{AwaitResult, EventSetter, SharedState};
use simcore::sim_config::{host_name, u32_to_decimal};
use simcore::simulation::Simulation;
use simcore::task::Task;
use simcore::workload_type::WorkloadType;

#[test]
fn parse_config_value_splits_name_and_options() {
    let (name, opts) = parse_config_value("ConstLoadModel[load=0.8]");
    assert_eq!(name, "ConstLoadModel");
    assert_eq!(opts, Some(String::from("load=0.8")));
    let (bare, none) = parse_config_value("RoundRobin");
    assert_eq!(bare, "RoundRobin");
    assert_eq!(none, None);
    let (n2, o2) = parse_config_value("a[x=1][y=2]");
    assert_eq!(n2, "a");
    assert_eq!(o2, Some(String::from("x=1][y=2")).map(|s| s.replace(']', "")));
}

#[test]
fn parse_options_reads_pairs() {
    let opts = parse_options("load=0.8,count=3");
    assert_eq!(opts.len(), 2);
    assert_eq!(opts[0].0, "load");
    assert_eq!(opts[0].1, "0.8");
    assert_eq!(opts[1].0, "count");
    assert_eq!(opts[1].1, "3");
    let none = parse_options("plain");
    assert_eq!(none.len(), 0);
}

#[test]
fn wire_names_round_trip() {
    let all = [
        EventType::Submit,
        EventType::Queue,
        EventType::Enable,
        EventType::Schedule,
        EventType::Evict,
        EventType::Fail,
        EventType::Finish,
        EventType::Kill,
        EventType::Lost,
        EventType::UpdatePending,
        EventType::UpdateRunning,
    ];
    for v in all {
        assert_eq!(EventType::from_str_name(v.as_str_name()), Some(v));
    }
    assert_eq!(EventType::from_str_name("SUBMIT"), Some(EventType::Submit));
    assert_eq!(EventType::from_str_name("NO_SUCH_EVENT"), None);
    assert_eq!(CollectionType::from_str_name("JOB"), Some(CollectionType::Job));
    assert_eq!(CollectionType::AllocSet.as_str_name(), "ALLOC_SET");
    assert_eq!(
        LatencySensitivity::from_str_name("MOST_SENSITIVE"),
        Some(LatencySensitivity::MostSensitive)
    );
    assert_eq!(LatencySensitivity::Insensitive.as_str_name(), "INSENSITIVE");
    assert_eq!(
        machine_event::EventType::from_str_name("ADD"),
        Some(machine_event::EventType::Add)
    );
    assert_eq!(machine_event::EventType::Remove.as_str_name(), "REMOVE");
    assert_eq!(
        machine_event::MissingDataReason::from_str_name("MISSING_DATA_REASON_NONE"),
        Some(machine_event::MissingDataReason::NotMissing)
    );
    assert_eq!(WorkloadType::from_name("google"), Some(WorkloadType::Google));
    assert_eq!(WorkloadType::from_name("else"), None);
}

#[test]
fn hermes_prefers_busy_warm_hosts() {
    let mut policy = HermesScheduler::new();
    let hosts = vec![
        HostInfo { cpu_load: 1, cpu_cores: 4, active_invocations: 0, can_invoke_warm: false },
        HostInfo { cpu_load: 2, cpu_cores: 4, active_invocations: 3, can_invoke_warm: true },
        HostInfo { cpu_load: 1, cpu_cores: 4, active_invocations: 2, can_invoke_warm: false },
    ];
    assert_eq!(policy.select_host(&hosts), 1);
    // with every host at capacity, the least loaded one wins
    let full = vec![
        HostInfo { cpu_load: 9, cpu_cores: 4, active_invocations: 0, can_invoke_warm: false },
        HostInfo { cpu_load: 5, cpu_cores: 4, active_invocations: 0, can_invoke_warm: true },
        HostInfo { cpu_load: 7, cpu_cores: 4, active_invocations: 1, can_invoke_warm: false },
    ];
    assert_eq!(policy.select_host(&full), 1);
}

#[test]
fn process_registry_maps_and_forgets() {
    let mut storage = ProcessHostStorage::new();
    storage.set_host_id(10, 3);
    storage.set_host_id(11, 4);
    assert_eq!(storage.get_host_id(10), 3);
    assert_eq!(storage.get_host_id(11), 4);
    storage.set_host_id(10, 5);
    assert_eq!(storage.get_host_id(10), 5);
    storage.remove_process(10);
    assert_eq!(storage.get_host_id(11), 4);
}

#[test]
fn tickets_count_and_compare() {
    let mut a = Ticket::new();
    let b = Ticket::new();
    assert!(a.is_after(&b));
    a.next();
    assert_eq!(a.value(), 1);
    assert!(a.is_after(&b));
    assert!(!b.is_after(&a));
}

#[test]
fn blocking_queue_delivers_in_order() {
    let mut sim = Simulation::new(9);
    let owner = sim.add_handler("owner");
    let mut q: UnboundedBlockingQueue<u64> = UnboundedBlockingQueue::new(owner);
    // emitting the wake-up notification needs the kernel state, which the
    // simulation drives; here the queue is used directly through a state of
    // its own
    let mut state = simcore::state::SimulationState::new(9);
    q.send(100, &mut state);
    q.send(200, &mut state);
    assert_eq!(q.try_receive(), Some(100));
    assert_eq!(q.try_receive(), Some(200));
    assert_eq!(q.try_receive(), None);
    let data = EventData::Notify(simcore::event::Notify { ticket_id: 77 });
    assert_eq!(get_notify_details(&data), 77);
}

#[test]
fn random_generator_announces_three_machines() {
    let mut sim = Simulation::new(11);
    let g = sim.add_handler("generator");
    let p = sim.register("proxy");
    let mut state = simcore::state::SimulationState::new(11);
    let mut generator = RandomEventGenerator::new(g, 5);
    let machines = generator.schedule_events(p, &mut state);
    assert_eq!(machines.len(), 3);
    for m in machines.iter() {
        assert!(m.cpu_cores >= 8);
        assert!(m.memory >= 10000);
    }
    assert_eq!(state.event_count(), 3);
}

#[test]
fn promise_slot_completes_only_once() {
    let mut slot = SharedState::new(4, 1, 2);
    let e = Event { id: 9, time: 3, src: 1, dst: 2, data: EventData::Empty };
    let first = slot.set_ok_completed_with_event(e);
    assert_eq!(first, Some(4));
    let again = slot.set_completed();
    assert_eq!(again, None);
    let mut timer_slot = SharedState::new(6, 1, 1);
    assert_eq!(timer_slot.set_completed(), Some(6));
    assert_eq!(timer_slot.set_completed(), None);
}

#[test]
fn timeout_marker_names_its_endpoints() {
    let t = AwaitResult::timeout_with(3, 8);
    match t {
        AwaitResult::Timeout(e) => {
            assert_eq!(e.src, 3);
            assert_eq!(e.dst, 8);
            assert_eq!(e.id, 0);
            assert_eq!(e.time, 0);
        }
        AwaitResult::Delivered(_) => panic!("expected a timeout marker"),
    }
}

#[test]
fn task_new_static_is_live() {
    let t = Task::new_static(5);
    assert_eq!(t.owner, 5);
    assert!(t.live);
    assert!(!t.slot.completed);
}

#[test]
fn host_names_expand_with_decimal_indices() {
    assert_eq!(u32_to_decimal(0), "0");
    assert_eq!(u32_to_decimal(7), "7");
    assert_eq!(u32_to_decimal(40960), "40960");
    let single = host_name(&Some(String::from("alpha")), &None, 1, 0);
    assert_eq!(single, Some(String::from("alpha")));
    let grouped = host_name(&None, &Some(String::from("node")), 3, 2);
    assert_eq!(grouped, Some(String::from("node-2")));
    assert_eq!(host_name(&None, &None, 1, 0), None);
    assert_eq!(host_name(&Some(String::from("x")), &None, 2, 0), None);
}
