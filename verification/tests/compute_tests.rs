//! The host compute model: one-shot runs, resource exhaustion, plain and
//! managed allocations, and fair sharing.

use simcore::event::{
    Allocation, CompAllocationRequest, CompRequest, CoresDependency, Event, EventData,
    ManagedAllocationRequest,
};
use simcore::multicore::Compute;
use simcore::shared_state::AwaitResult;
use simcore::simulation::{EventHandler, Simulation};
use simcore::state::SimulationState;
use simcore::task::TaskStep;
use simcore::TaskId;

struct HostWorld {
    host_id: u32,
    requester_id: u32,
    compute: Compute,
    log: Vec<(u64, String, u64, u32)>,
}

impl EventHandler for HostWorld {
    fn on(&mut self, event: Event, state: &mut SimulationState) {
        if event.dst == self.host_id {
            self.compute.on(event, state);
        } else if event.dst == self.requester_id {
            let now = state.time();
            match event.data {
                EventData::CompStarted(s) => self.log.push((now, String::from("started"), s.id, s.cores)),
                EventData::CompFinished(f) => self.log.push((now, String::from("finished"), f.id, 0)),
                EventData::CompFailed(f) => {
                    let avail = match f.reason {
                        simcore::event::FailReason::NotEnoughResources { available_cores, .. } => available_cores,
                        simcore::event::FailReason::AllocationNotFound { .. } => u32::MAX,
                    };
                    self.log.push((now, String::from("failed"), f.id, avail));
                },
                EventData::AllocationSuccess(a) => self.log.push((now, String::from("allocated"), a.id, 0)),
                EventData::DeallocationSuccess(d) => self.log.push((now, String::from("released"), d.id, 0)),
                _ => {},
            }
        }
    }

    fn resume(&mut self, _task: TaskId, _wake: AwaitResult, _state: &mut SimulationState) -> TaskStep {
        TaskStep::Finish
    }
}

fn setup(seed: u64, speed: u64, cores: u32, memory: u64) -> (Simulation, HostWorld, u32, u32) {
    let mut sim = Simulation::new(seed);
    let host = sim.add_handler("host");
    let req = sim.add_handler("requester");
    let world = HostWorld {
        host_id: host,
        requester_id: req,
        compute: Compute::new(speed, cores, memory, host),
        log: Vec::new(),
    };
    (sim, world, host, req)
}

#[test]
fn single_job_on_single_host() {
    // a host of 8 cores and 16384 memory units at speed 1000 work units per
    // time unit; the job takes 4 cores, so it runs at 4000 work units per
    // time unit and 10000000 work units last 2500 time units
    let (mut sim, mut world, host, req) = setup(1, 1000, 8, 16384);
    let comp = sim.emit(
        EventData::CompRequest(CompRequest {
            flops: 10_000_000,
            memory: 4096,
            min_cores: 4,
            max_cores: 4,
            cores_dependency: CoresDependency::Linear,
            requester: req,
        }),
        req,
        host,
        0,
    );
    sim.step_until_no_events(&mut world);
    assert_eq!(world.log.len(), 2);
    assert_eq!(world.log[0], (0, String::from("started"), comp, 4));
    assert_eq!(world.log[1], (2500, String::from("finished"), comp, 0));
    // conservation: the claim was given back in full
    assert_eq!(world.compute.cores_available(), 8);
    assert_eq!(world.compute.memory_available(), 16384);
}

#[test]
fn resource_exhaustion_reports_availability() {
    let (mut sim, mut world, host, req) = setup(1, 1000, 8, 16384);
    let comp = sim.emit(
        EventData::CompRequest(CompRequest {
            flops: 10_000_000,
            memory: 4096,
            min_cores: 16,
            max_cores: 16,
            cores_dependency: CoresDependency::Linear,
            requester: req,
        }),
        req,
        host,
        0,
    );
    sim.step_until_no_events(&mut world);
    assert_eq!(world.log.len(), 1);
    assert_eq!(world.log[0], (0, String::from("failed"), comp, 8));
    // the host is unchanged
    assert_eq!(world.compute.cores_available(), 8);
    assert_eq!(world.compute.memory_available(), 16384);
}

#[test]
fn fair_sharing_equal_work_finishes_together() {
    // a managed allocation of 4 cores shares the host speed of 1000 work
    // units per time unit; two equal computations of 4000000 work units with
    // linear speedup carry 1000000 work units each and both finish after
    // 2000 time units of equal sharing
    let (mut sim, mut world, host, req) = setup(1, 1000, 8, 16384);
    let alloc = sim.emit(
        EventData::ManagedAllocationRequest(ManagedAllocationRequest {
            allocation: Allocation { cores: 4, memory: 4096 },
            requester: req,
        }),
        req,
        host,
        0,
    );
    let c1 = sim.emit(
        EventData::CompAllocationRequest(CompAllocationRequest {
            flops: 4_000_000,
            allocation_id: alloc,
            cores_dependency: CoresDependency::Linear,
            requester: req,
        }),
        req,
        host,
        1,
    );
    let c2 = sim.emit(
        EventData::CompAllocationRequest(CompAllocationRequest {
            flops: 4_000_000,
            allocation_id: alloc,
            cores_dependency: CoresDependency::Linear,
            requester: req,
        }),
        req,
        host,
        1,
    );
    sim.step_until_no_events(&mut world);
    let finishes: Vec<&(u64, String, u64, u32)> =
        world.log.iter().filter(|r| r.1 == "finished").collect();
    assert_eq!(finishes.len(), 2);
    assert_eq!(finishes[0].0, 2001);
    assert_eq!(finishes[1].0, 2001);
    assert!(finishes.iter().any(|r| r.2 == c1));
    assert!(finishes.iter().any(|r| r.2 == c2));
}

#[test]
fn fair_sharing_less_work_leaves_first() {
    // works of 1000000 and 500000 units shared equally at rate 1000: the
    // smaller one finishes after 1000 time units of half-rate progress, the
    // larger one 500 time units later at full rate
    let (mut sim, mut world, host, req) = setup(1, 1000, 8, 16384);
    let alloc = sim.emit(
        EventData::ManagedAllocationRequest(ManagedAllocationRequest {
            allocation: Allocation { cores: 4, memory: 4096 },
            requester: req,
        }),
        req,
        host,
        0,
    );
    let big = sim.emit(
        EventData::CompAllocationRequest(CompAllocationRequest {
            flops: 4_000_000,
            allocation_id: alloc,
            cores_dependency: CoresDependency::Linear,
            requester: req,
        }),
        req,
        host,
        1,
    );
    let small = sim.emit(
        EventData::CompAllocationRequest(CompAllocationRequest {
            flops: 2_000_000,
            allocation_id: alloc,
            cores_dependency: CoresDependency::Linear,
            requester: req,
        }),
        req,
        host,
        1,
    );
    sim.step_until_no_events(&mut world);
    let finishes: Vec<&(u64, String, u64, u32)> =
        world.log.iter().filter(|r| r.1 == "finished").collect();
    assert_eq!(finishes.len(), 2);
    assert_eq!(finishes[0].2, small);
    assert_eq!(finishes[0].0, 1001);
    assert_eq!(finishes[1].2, big);
    assert_eq!(finishes[1].0, 1501);
}

#[test]
fn plain_allocations_conserve_resources() {
    let (mut sim, mut world, host, req) = setup(1, 1000, 8, 16384);
    sim.emit(
        EventData::AllocationRequest(simcore::event::AllocationRequest {
            allocation: Allocation { cores: 3, memory: 1000 },
            requester: req,
        }),
        req,
        host,
        0,
    );
    sim.step_until_no_events(&mut world);
    assert_eq!(world.compute.cores_available(), 5);
    assert_eq!(world.compute.memory_available(), 15384);
    sim.emit(
        EventData::DeallocationRequest(simcore::event::DeallocationRequest {
            allocation: Allocation { cores: 3, memory: 1000 },
            requester: req,
        }),
        req,
        host,
        0,
    );
    sim.step_until_no_events(&mut world);
    assert_eq!(world.compute.cores_available(), 8);
    assert_eq!(world.compute.memory_available(), 16384);
}

#[test]
fn over_deallocation_reports_holdings() {
    let (mut sim, mut world, host, req) = setup(1, 1000, 8, 16384);
    sim.emit(
        EventData::DeallocationRequest(simcore::event::DeallocationRequest {
            allocation: Allocation { cores: 1, memory: 1 },
            requester: req,
        }),
        req,
        host,
        0,
    );
    sim.step_until_no_events(&mut world);
    assert_eq!(world.compute.cores_available(), 8);
    // nothing was held, so the release failed and nothing changed
    assert_eq!(world.log.len(), 0);
}

#[test]
fn managed_deallocation_restores_resources() {
    let (mut sim, mut world, host, req) = setup(1, 1000, 8, 16384);
    let alloc = sim.emit(
        EventData::ManagedAllocationRequest(ManagedAllocationRequest {
            allocation: Allocation { cores: 4, memory: 4096 },
            requester: req,
        }),
        req,
        host,
        0,
    );
    sim.emit(
        EventData::ManagedDeallocationRequest(simcore::event::ManagedDeallocationRequest {
            allocation_id: alloc,
            requester: req,
        }),
        req,
        host,
        1,
    );
    sim.step_until_no_events(&mut world);
    assert_eq!(world.compute.cores_available(), 8);
    assert_eq!(world.compute.memory_available(), 16384);
    assert!(world.log.iter().any(|r| r.1 == "allocated" && r.2 == alloc));
    assert!(world.log.iter().any(|r| r.1 == "released"));
}

#[test]
fn amdahl_speedup_bounds_duration() {
    // with half the work sequential, four cores give a speedup of 8/5, so
    // 8000000 work units at speed 1000 last 8000 * 5/8 = 5000 time units
    let (mut sim, mut world, host, req) = setup(1, 1000, 8, 16384);
    let comp = sim.emit(
        EventData::CompRequest(CompRequest {
            flops: 8_000_000,
            memory: 1024,
            min_cores: 4,
            max_cores: 4,
            cores_dependency: CoresDependency::LinearWithFixed { fixed_num: 1, fixed_den: 2 },
            requester: req,
        }),
        req,
        host,
        0,
    );
    sim.step_until_no_events(&mut world);
    assert_eq!(world.log.len(), 2);
    assert_eq!(world.log[1], (5000, String::from("finished"), comp, 0));
}
