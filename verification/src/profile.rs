//! Execution profiles: named workload behaviours run over a job's processes.

use vstd::prelude::*;

verus! {

/// A named profile kind.
pub trait NameTrait {
    /// The stable name of the profile kind.
    fn get_name() -> String;
}

/// Runs the same computation on every process in parallel.
#[derive(Clone, Copy, PartialEq, Eq, Structural, Debug)]
pub struct CpuBurnHomogenous {
    /// Work per process.
    pub flops: u64,
}

impl NameTrait for CpuBurnHomogenous {
    fn get_name() -> (r: String) {
        String::from_str("cpu-burn-homogenous")
    }
}

} // verus!
