//! A discrete-event simulation core for modeling cluster schedulers and
//! compute workloads on a virtual integer clock.

use vstd::prelude::*;

pub mod cluster;
pub mod cluster_events;
pub mod event;
pub mod event_generator;
pub mod event_queue;
pub mod google_protos;
pub mod hermes;
pub mod host_storage;
pub mod machine;
pub mod machine_event;
pub mod multicore;
pub mod options;
pub mod profile;
pub mod proxy;
pub mod queue;
pub mod scheduler;
pub mod shared_state;
pub mod sharing;
pub mod sim_config;
pub mod simulation;
pub mod state;
pub mod task;
pub mod timer;
pub mod workload_type;

verus! {

/// Component identifier: components get dense integer ids as they register.
pub type Id = u32;

/// Event identifier: a monotonically increasing counter assigned at emission.
pub type EventId = u64;

/// Timer identifier.
pub type TimerId = u64;

/// Task identifier: index of a cooperative task in the simulation.
pub type TaskId = u64;

} // verus!
