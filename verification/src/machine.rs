//! A machine of the cluster, as the scheduler sees it.

use vstd::prelude::*;

use crate::Id;

verus! {

/// A machine: its component id, core count and memory.
#[derive(Clone, Copy, PartialEq, Eq, Structural, Debug)]
pub struct Machine {
    /// Component id of the machine.
    pub id: Id,
    /// Number of processor cores.
    pub cpu_cores: u32,
    /// Amount of memory.
    pub memory: u64,
}

} // verus!
