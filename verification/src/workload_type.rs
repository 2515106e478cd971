//! The supported kinds of workload sources.

use vstd::prelude::*;

use crate::simulation::str_eq;

verus! {

/// Kinds of workload sources.
#[derive(Clone, Copy, PartialEq, Eq, Structural, Debug)]
pub enum WorkloadType {
    /// Randomly generated jobs.
    Random,
    /// A cluster trace of collection and instance events.
    Google,
    /// A cluster trace of batch and online services.
    Alibaba,
    /// A standard workload format trace.
    SWF,
    /// The native job description format.
    Native,
}

impl WorkloadType {
    /// The lower-case name of the variant.
    pub open spec fn spec_name(self) -> Seq<char> {
        match self {
            WorkloadType::Random => "random"@,
            WorkloadType::Google => "google"@,
            WorkloadType::Alibaba => "alibaba"@,
            WorkloadType::SWF => "swf"@,
            WorkloadType::Native => "native"@,
        }
    }

    /// Creates the variant from its lower-case name, if it is one.
    pub fn from_name(value: &str) -> (r: Option<Self>)
        ensures
            match r {
                Some(v) => value@ == v.spec_name(),
                None => forall|v: WorkloadType| value@ != v.spec_name(),
            },
    {
        if str_eq(value, "random") {
            Some(WorkloadType::Random)
        } else if str_eq(value, "google") {
            Some(WorkloadType::Google)
        } else if str_eq(value, "alibaba") {
            Some(WorkloadType::Alibaba)
        } else if str_eq(value, "swf") {
            Some(WorkloadType::SWF)
        } else if str_eq(value, "native") {
            Some(WorkloadType::Native)
        } else {
            None
        }
    }
}

} // verus!
