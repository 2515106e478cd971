//! Event vocabulary of machine trace records: machines joining, leaving and
//! changing capacity, and the reason when data is missing.

use vstd::prelude::*;

use crate::simulation::str_eq;

verus! {

/// Life cycle events of a machine.
#[derive(Clone, Copy, PartialEq, Eq, Structural, Debug)]
pub enum EventType {
    /// Should never happen.
    Unknown,
    /// Machine added to the cluster.
    Add,
    /// Machine removed from the cluster, usually for failure or repairs.
    Remove,
    /// Machine capacity updated while not removed.
    Update,
}

impl EventType {
    /// The stable wire name of the variant.
    pub open spec fn spec_str_name(self) -> Seq<char> {
        match self {
            EventType::Unknown => "EVENT_TYPE_UNKNOWN"@,
            EventType::Add => "ADD"@,
            EventType::Remove => "REMOVE"@,
            EventType::Update => "UPDATE"@,
        }
    }

    /// String value of the stable wire name of the variant.
    pub fn as_str_name(&self) -> (r: &'static str)
        ensures
            r@ == self.spec_str_name(),
    {
        match self {
            EventType::Unknown => "EVENT_TYPE_UNKNOWN",
            EventType::Add => "ADD",
            EventType::Remove => "REMOVE",
            EventType::Update => "UPDATE",
        }
    }

    /// Creates the variant from its stable wire name, if it is one.
    pub fn from_str_name(value: &str) -> (r: Option<Self>)
        ensures
            match r {
                Some(v) => value@ == v.spec_str_name(),
                None => forall|v: EventType| value@ != v.spec_str_name(),
            },
    {
        if str_eq(value, "EVENT_TYPE_UNKNOWN") {
            Some(EventType::Unknown)
        } else if str_eq(value, "ADD") {
            Some(EventType::Add)
        } else if str_eq(value, "REMOVE") {
            Some(EventType::Remove)
        } else if str_eq(value, "UPDATE") {
            Some(EventType::Update)
        } else {
            None
        }
    }
}

/// Why missing data was detected, when it was.
#[derive(Clone, Copy, PartialEq, Eq, Structural, Debug)]
pub enum MissingDataReason {
    /// No data is missing.
    NotMissing,
    /// A state change was observed in a snapshot without a corresponding
    /// transition event in the trace.
    SnapshotButNoTransition,
}

impl MissingDataReason {
    /// The stable wire name of the variant.
    pub open spec fn spec_str_name(self) -> Seq<char> {
        match self {
            MissingDataReason::NotMissing => "MISSING_DATA_REASON_NONE"@,
            MissingDataReason::SnapshotButNoTransition => "SNAPSHOT_BUT_NO_TRANSITION"@,
        }
    }

    /// String value of the stable wire name of the variant.
    pub fn as_str_name(&self) -> (r: &'static str)
        ensures
            r@ == self.spec_str_name(),
    {
        match self {
            MissingDataReason::NotMissing => "MISSING_DATA_REASON_NONE",
            MissingDataReason::SnapshotButNoTransition => "SNAPSHOT_BUT_NO_TRANSITION",
        }
    }

    /// Creates the variant from its stable wire name, if it is one.
    pub fn from_str_name(value: &str) -> (r: Option<Self>)
        ensures
            match r {
                Some(v) => value@ == v.spec_str_name(),
                None => forall|v: MissingDataReason| value@ != v.spec_str_name(),
            },
    {
        if str_eq(value, "MISSING_DATA_REASON_NONE") {
            Some(MissingDataReason::NotMissing)
        } else if str_eq(value, "SNAPSHOT_BUT_NO_TRANSITION") {
            Some(MissingDataReason::SnapshotButNoTransition)
        } else {
            None
        }
    }
}

} // verus!
