//! Event vocabularies of cluster trace records: the collection and instance
//! life cycle, collection kinds, and latency sensitivity tiers, with their
//! stable wire names.

use vstd::prelude::*;

use crate::simulation::str_eq;

verus! {

/// Life cycle events of a collection or instance.
#[derive(Clone, Copy, PartialEq, Eq, Structural, Debug)]
pub enum EventType {
    /// Submitted to the scheduler for scheduling.
    Submit,
    /// Marked not eligible for scheduling.
    Queue,
    /// Became eligible for scheduling.
    Enable,
    /// Started running.
    Schedule,
    /// Descheduled in favour of higher priority work.
    Evict,
    /// Descheduled due to a failure.
    Fail,
    /// Completed normally.
    Finish,
    /// Cancelled by the user or a dependency.
    Kill,
    /// Presumably terminated, but the data is missing.
    Lost,
    /// Updated while waiting to be scheduled.
    UpdatePending,
    /// Updated while scheduled somewhere.
    UpdateRunning,
}

impl EventType {
    /// String value of the stable wire name of the variant.
    pub fn as_str_name(&self) -> (r: &'static str)
        ensures
            r@ == self.spec_str_name(),
    {
        match self {
            EventType::Submit => "SUBMIT",
            EventType::Queue => "QUEUE",
            EventType::Enable => "ENABLE",
            EventType::Schedule => "SCHEDULE",
            EventType::Evict => "EVICT",
            EventType::Fail => "FAIL",
            EventType::Finish => "FINISH",
            EventType::Kill => "KILL",
            EventType::Lost => "LOST",
            EventType::UpdatePending => "UPDATE_PENDING",
            EventType::UpdateRunning => "UPDATE_RUNNING",
        }
    }

    /// The stable wire name of the variant.
    pub open spec fn spec_str_name(self) -> Seq<char> {
        match self {
            EventType::Submit => "SUBMIT"@,
            EventType::Queue => "QUEUE"@,
            EventType::Enable => "ENABLE"@,
            EventType::Schedule => "SCHEDULE"@,
            EventType::Evict => "EVICT"@,
            EventType::Fail => "FAIL"@,
            EventType::Finish => "FINISH"@,
            EventType::Kill => "KILL"@,
            EventType::Lost => "LOST"@,
            EventType::UpdatePending => "UPDATE_PENDING"@,
            EventType::UpdateRunning => "UPDATE_RUNNING"@,
        }
    }

    /// Creates the variant from its stable wire name, if it is one.
    pub fn from_str_name(value: &str) -> (r: Option<Self>)
        ensures
            match r {
                Some(v) => value@ == v.spec_str_name(),
                None => forall|v: EventType| value@ != v.spec_str_name(),
            },
    {
        let r = if str_eq(value, "SUBMIT") {
            Some(EventType::Submit)
        } else if str_eq(value, "QUEUE") {
            Some(EventType::Queue)
        } else if str_eq(value, "ENABLE") {
            Some(EventType::Enable)
        } else if str_eq(value, "SCHEDULE") {
            Some(EventType::Schedule)
        } else if str_eq(value, "EVICT") {
            Some(EventType::Evict)
        } else if str_eq(value, "FAIL") {
            Some(EventType::Fail)
        } else if str_eq(value, "FINISH") {
            Some(EventType::Finish)
        } else if str_eq(value, "KILL") {
            Some(EventType::Kill)
        } else if str_eq(value, "LOST") {
            Some(EventType::Lost)
        } else if str_eq(value, "UPDATE_PENDING") {
            Some(EventType::UpdatePending)
        } else if str_eq(value, "UPDATE_RUNNING") {
            Some(EventType::UpdateRunning)
        } else {
            None
        };
        proof {
            if r is None {
                assert forall|v: EventType| value@ != v.spec_str_name() by {}
            }
        }
        r
    }
}

/// Collections are either jobs, which have tasks, or alloc sets, which have
/// alloc instances.
#[derive(Clone, Copy, PartialEq, Eq, Structural, Debug)]
pub enum CollectionType {
    /// A job with tasks.
    Job,
    /// An alloc set with alloc instances.
    AllocSet,
}

impl CollectionType {
    /// The stable wire name of the variant.
    pub open spec fn spec_str_name(self) -> Seq<char> {
        match self {
            CollectionType::Job => "JOB"@,
            CollectionType::AllocSet => "ALLOC_SET"@,
        }
    }

    /// String value of the stable wire name of the variant.
    pub fn as_str_name(&self) -> (r: &'static str)
        ensures
            r@ == self.spec_str_name(),
    {
        match self {
            CollectionType::Job => "JOB",
            CollectionType::AllocSet => "ALLOC_SET",
        }
    }

    /// Creates the variant from its stable wire name, if it is one.
    pub fn from_str_name(value: &str) -> (r: Option<Self>)
        ensures
            match r {
                Some(v) => value@ == v.spec_str_name(),
                None => forall|v: CollectionType| value@ != v.spec_str_name(),
            },
    {
        if str_eq(value, "JOB") {
            Some(CollectionType::Job)
        } else if str_eq(value, "ALLOC_SET") {
            Some(CollectionType::AllocSet)
        } else {
            None
        }
    }
}

/// How latency-sensitive work is to processor scheduling delays, in
/// increasing sensitivity order.
#[derive(Clone, Copy, PartialEq, Eq, Structural, Debug)]
pub enum LatencySensitivity {
    /// Also known as best effort.
    MostInsensitive,
    /// Often used for batch work.
    Insensitive,
    /// Used for latency-sensitive work.
    Sensitive,
    /// Used for the most latency-sensitive work.
    MostSensitive,
}

impl LatencySensitivity {
    /// The stable wire name of the variant.
    pub open spec fn spec_str_name(self) -> Seq<char> {
        match self {
            LatencySensitivity::MostInsensitive => "MOST_INSENSITIVE"@,
            LatencySensitivity::Insensitive => "INSENSITIVE"@,
            LatencySensitivity::Sensitive => "SENSITIVE"@,
            LatencySensitivity::MostSensitive => "MOST_SENSITIVE"@,
        }
    }

    /// String value of the stable wire name of the variant.
    pub fn as_str_name(&self) -> (r: &'static str)
        ensures
            r@ == self.spec_str_name(),
    {
        match self {
            LatencySensitivity::MostInsensitive => "MOST_INSENSITIVE",
            LatencySensitivity::Insensitive => "INSENSITIVE",
            LatencySensitivity::Sensitive => "SENSITIVE",
            LatencySensitivity::MostSensitive => "MOST_SENSITIVE",
        }
    }

    /// Creates the variant from its stable wire name, if it is one.
    pub fn from_str_name(value: &str) -> (r: Option<Self>)
        ensures
            match r {
                Some(v) => value@ == v.spec_str_name(),
                None => forall|v: LatencySensitivity| value@ != v.spec_str_name(),
            },
    {
        if str_eq(value, "MOST_INSENSITIVE") {
            Some(LatencySensitivity::MostInsensitive)
        } else if str_eq(value, "INSENSITIVE") {
            Some(LatencySensitivity::Insensitive)
        } else if str_eq(value, "SENSITIVE") {
            Some(LatencySensitivity::Sensitive)
        } else if str_eq(value, "MOST_SENSITIVE") {
            Some(LatencySensitivity::MostSensitive)
        } else {
            None
        }
    }
}

} // verus!
