//! Cluster topology notifications.

use vstd::prelude::*;

verus! {

/// A host left the cluster.
#[derive(Clone, Debug)]
pub struct HostRemoved {
    /// Name of the removed host.
    pub id: String,
}

/// Reads a cluster topology from host notifications.
#[derive(Clone, Copy, PartialEq, Eq, Structural, Debug)]
pub struct ClusterTopologyReader {
    /// How many hosts were seen.
    pub hosts_seen: u64,
}

impl ClusterTopologyReader {
    /// Creates a reader that has seen no host.
    pub fn new() -> (r: Self)
        ensures
            r.hosts_seen == 0,
    {
        ClusterTopologyReader { hosts_seen: 0 }
    }
}

} // verus!
