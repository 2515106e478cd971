//! The orchestration layer: a round-robin policy over three hosts drives
//! nine equal jobs through allocation, execution and release.

use simcore::cluster::{Cluster, JobSpec};
use simcore::event::{Event, EventData};
use simcore::multicore::Compute;
use simcore::proxy::Proxy;
use simcore::scheduler::SchedulerContext;
use simcore::shared_state::AwaitResult;
use simcore::simulation::{EventHandler, Simulation};
use simcore::state::SimulationState;
use simcore::task::TaskStep;
use simcore::TaskId;

struct ClusterWorld {
    host_ids: Vec<u32>,
    hosts: Vec<Compute>,
    cluster_id: u32,
    cluster: Cluster,
    proxy_id: u32,
    proxy: Proxy,
    scheduler_id: u32,
    ctx: SchedulerContext,
    next_host: usize,
    busy: Vec<bool>,
    queued: Vec<Vec<u64>>,
    job_host: Vec<(u64, usize)>,
    finished: Vec<(u64, u64, usize)>,
}

impl ClusterWorld {
    fn dispatch(&mut self, job: u64, state: &mut SimulationState) {
        let h = self.next_host % self.host_ids.len();
        self.next_host += 1;
        if self.busy[h] {
            self.queued[h].push(job);
        } else {
            self.busy[h] = true;
            self.job_host.push((job, h));
            self.ctx.schedule_one_host(self.host_ids[h], job, state);
        }
    }
}

impl EventHandler for ClusterWorld {
    fn on(&mut self, event: Event, state: &mut SimulationState) {
        let dst = event.dst;
        for i in 0..self.host_ids.len() {
            if dst == self.host_ids[i] {
                self.hosts[i].on(event, state);
                return;
            }
        }
        if dst == self.cluster_id {
            self.cluster.on(event, state);
        } else if dst == self.proxy_id {
            self.proxy.on(event, state);
        } else if dst == self.scheduler_id {
            match event.data {
                EventData::ExecutionRequest(req) => {
                    self.dispatch(req.execution_id, state);
                },
                EventData::JobFinished(jf) => {
                    let mut host = usize::MAX;
                    for (j, h) in self.job_host.iter() {
                        if *j == jf.job_id {
                            host = *h;
                        }
                    }
                    self.finished.push((state.time(), jf.job_id, host));
                    if host != usize::MAX {
                        self.busy[host] = false;
                        if !self.queued[host].is_empty() {
                            let nxt = self.queued[host].remove(0);
                            self.busy[host] = true;
                            self.job_host.push((nxt, host));
                            self.ctx.schedule_one_host(self.host_ids[host], nxt, state);
                        }
                    }
                },
                _ => {},
            }
        }
    }

    fn resume(&mut self, task: TaskId, wake: AwaitResult, state: &mut SimulationState) -> TaskStep {
        self.cluster.resume(task, wake, state)
    }
}

#[test]
fn round_robin_three_hosts_nine_jobs() {
    let mut sim = Simulation::new(5);
    let h0 = sim.add_handler("host0");
    let h1 = sim.add_handler("host1");
    let h2 = sim.add_handler("host2");
    let c = sim.add_handler("cluster");
    let s = sim.add_handler("scheduler");
    let p = sim.add_handler("proxy");
    let w = sim.register("workload");

    let mut cluster = Cluster::new(c, s);
    cluster.add_host(h0);
    cluster.add_host(h1);
    cluster.add_host(h2);
    // nine equal single-process jobs: 4 cores, 4096 memory, 4000000 work
    // units each; with linear speedup on 4 cores the managed work is
    // 1000000 units at a rate of 1000 units per time unit: 1000 per job
    for j in 0..9u64 {
        cluster.submit_job(j, JobSpec { cpu_per_node: 4, memory_per_node: 4096, flops: 4_000_000 });
    }
    let mut world = ClusterWorld {
        host_ids: vec![h0, h1, h2],
        hosts: vec![
            Compute::new(1000, 8, 16384, h0),
            Compute::new(1000, 8, 16384, h1),
            Compute::new(1000, 8, 16384, h2),
        ],
        cluster_id: c,
        cluster,
        proxy_id: p,
        proxy: Proxy::new(p, s, c),
        scheduler_id: s,
        ctx: SchedulerContext::new(s, c),
        next_host: 0,
        busy: vec![false, false, false],
        queued: vec![Vec::new(), Vec::new(), Vec::new()],
        job_host: Vec::new(),
        finished: Vec::new(),
    };
    for j in 0..9u64 {
        sim.emit(
            EventData::ExecutionRequest(simcore::event::ExecutionRequestEvent { execution_id: j }),
            w,
            p,
            0,
        );
    }
    sim.step_until_no_events(&mut world);

    // every job finished, three per host, and the makespan is three times
    // one job's duration
    assert_eq!(world.finished.len(), 9);
    for h in 0..3 {
        let per_host = world.finished.iter().filter(|f| f.2 == h).count();
        assert_eq!(per_host, 3);
    }
    let makespan = world.finished.iter().map(|f| f.0).max().unwrap();
    let first = world.finished.iter().map(|f| f.0).min().unwrap();
    assert_eq!(makespan, 3 * first);
    assert_eq!(makespan, 3000);
    // conservation on every host once everything is released
    for host in world.hosts.iter() {
        assert_eq!(host.cores_available(), 8);
        assert_eq!(host.memory_available(), 16384);
    }
}

#[test]
fn proxy_stamps_and_forwards() {
    let mut sim = Simulation::new(5);
    let s = sim.add_handler("scheduler");
    let c = sim.add_handler("cluster");
    let p = sim.add_handler("proxy");
    let w = sim.register("workload");
    struct P {
        proxy_id: u32,
        proxy: Proxy,
        scheduler_id: u32,
        seen: Vec<(u64, u64)>,
    }
    impl EventHandler for P {
        fn on(&mut self, event: Event, state: &mut SimulationState) {
            if event.dst == self.proxy_id {
                self.proxy.on(event, state);
            } else if event.dst == self.scheduler_id {
                if let EventData::ExecutionRequest(r) = event.data {
                    self.seen.push((state.time(), r.execution_id));
                }
            }
        }
        fn resume(&mut self, _t: TaskId, _w: AwaitResult, _s: &mut SimulationState) -> TaskStep {
            TaskStep::Finish
        }
    }
    let mut world = P { proxy_id: p, proxy: Proxy::new(p, s, c), scheduler_id: s, seen: Vec::new() };
    sim.emit(
        EventData::ExecutionRequest(simcore::event::ExecutionRequestEvent { execution_id: 7 }),
        w,
        p,
        3,
    );
    sim.step_until_no_events(&mut world);
    assert_eq!(world.seen, vec![(3, 7)]);
}
