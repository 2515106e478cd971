//! A locality-aware host selection policy: it prefers hosts that are warm
//! and busy, and falls back to the least loaded host when every host is at
//! capacity.

use vstd::prelude::*;

verus! {

/// What the policy reads of a host.
#[derive(Clone, Copy, PartialEq, Eq, Structural, Debug)]
pub struct HostInfo {
    /// Cores currently claimed.
    pub cpu_load: u32,
    /// Total cores.
    pub cpu_cores: u32,
    /// Invocations currently running.
    pub active_invocations: u32,
    /// Whether the host can start the work without a cold start.
    pub can_invoke_warm: bool,
}

/// The preference tier of a host with spare capacity: busy and warm hosts
/// come first, then busy or warm ones, then idle cold ones.
pub open spec fn spec_priority(h: HostInfo) -> int {
    if h.active_invocations > 0 && h.can_invoke_warm {
        3
    } else if h.active_invocations > 0 {
        2
    } else if h.can_invoke_warm {
        1
    } else {
        0
    }
}

/// Computes the preference tier of a host.
pub fn priority(h: &HostInfo) -> (r: u32)
    ensures
        r == spec_priority(*h),
{
    if h.active_invocations > 0 && h.can_invoke_warm {
        3
    } else if h.active_invocations > 0 {
        2
    } else if h.can_invoke_warm {
        1
    } else {
        0
    }
}

/// The host selection policy.
#[derive(Clone, Copy, PartialEq, Eq, Structural, Debug)]
pub struct HermesScheduler {
    /// Whether the fallback prefers hosts it can warm-start on.
    pub fallback_prefers_warm: bool,
}

impl HermesScheduler {
    /// Creates the policy with the warm-preferring fallback.
    pub fn new() -> (r: Self)
        ensures
            r.fallback_prefers_warm,
    {
        HermesScheduler { fallback_prefers_warm: true }
    }

    /// Selects the host to run on: among hosts with spare cores, one of the
    /// highest preference tier (the first such host); when no host has spare
    /// cores, the least loaded host.
    pub fn select_host(&mut self, hosts: &Vec<HostInfo>) -> (r: usize)
        requires
            hosts@.len() > 0,
        ensures
            r < hosts@.len(),
            // with spare capacity somewhere, the first host of the highest
            // preference tier wins
            (exists|i: int| 0 <= i < hosts@.len() && (#[trigger] hosts@[i]).cpu_load < hosts@[i].cpu_cores)
                ==> hosts@[r as int].cpu_load < hosts@[r as int].cpu_cores && (forall|i: int|
                0 <= i < hosts@.len() && (#[trigger] hosts@[i]).cpu_load < hosts@[i].cpu_cores
                    ==> spec_priority(hosts@[i]) <= spec_priority(hosts@[r as int])) && (forall|
                i: int,
            |
                0 <= i < r && (#[trigger] hosts@[i]).cpu_load < hosts@[i].cpu_cores
                    ==> spec_priority(hosts@[i]) < spec_priority(hosts@[r as int])),
            // with every host at capacity, the first least-loaded host wins
            (forall|i: int|
                0 <= i < hosts@.len() ==> (#[trigger] hosts@[i]).cpu_load >= hosts@[i].cpu_cores)
                ==> (forall|i: int|
                0 <= i < hosts@.len() ==> hosts@[r as int].cpu_load <= (#[trigger] hosts@[i]).cpu_load)
                && (forall|i: int|
                0 <= i < r ==> hosts@[r as int].cpu_load < (#[trigger] hosts@[i]).cpu_load),
    {
        let mut best: usize = 0;
        let mut best_priority: u32 = 0;
        let mut found = false;
        let mut i: usize = 0;
        while i < hosts.len()
            invariant
                hosts@.len() > 0,
                i <= hosts@.len(),
                found ==> best < i && hosts@[best as int].cpu_load < hosts@[best as int].cpu_cores
                    && best_priority == spec_priority(hosts@[best as int]),
                found ==> (forall|k: int|
                    0 <= k < i && (#[trigger] hosts@[k]).cpu_load < hosts@[k].cpu_cores
                        ==> spec_priority(hosts@[k]) <= best_priority),
                found ==> (forall|k: int|
                    0 <= k < best && (#[trigger] hosts@[k]).cpu_load < hosts@[k].cpu_cores
                        ==> spec_priority(hosts@[k]) < best_priority),
                !found ==> (forall|k: int|
                    0 <= k < i ==> (#[trigger] hosts@[k]).cpu_load >= hosts@[k].cpu_cores),
            decreases hosts@.len() - i,
        {
            let h = hosts[i];
            if h.cpu_load < h.cpu_cores {
                let p = priority(&h);
                if !found || p > best_priority {
                    best = i;
                    best_priority = p;
                    found = true;
                }
            }
            i = i + 1;
        }
        if found {
            return best;
        }
        // every host is at capacity: fall back to the least loaded one
        let mut least: usize = 0;
        let mut k: usize = 1;
        while k < hosts.len()
            invariant
                hosts@.len() > 0,
                least < k <= hosts@.len() || (least == 0 && k <= hosts@.len()),
                least < hosts@.len(),
                forall|m: int|
                    0 <= m < k ==> hosts@[least as int].cpu_load <= (#[trigger] hosts@[m]).cpu_load,
                forall|m: int|
                    0 <= m < least ==> hosts@[least as int].cpu_load < (#[trigger] hosts@[m]).cpu_load,
            decreases hosts@.len() - k,
        {
            if hosts[k].cpu_load < hosts[least].cpu_load {
                least = k;
            }
            k = k + 1;
        }
        least
    }
}

} // verus!
