//! Configuration of one subsystem worker.

use vstd::prelude::*;

verus! {

/// Configuration of a subsystem.
#[derive(Clone, Copy, Debug)]
pub struct SubsystemConfig {
    /// The subsystem's name, for diagnostics.
    pub subsystem_name: &'static str,
}

impl SubsystemConfig {
    /// A configuration with the given name; everything else is default.
    pub fn named(subsystem_name: &'static str) -> (r: SubsystemConfig)
        ensures
            r.subsystem_name@ == subsystem_name@,
    {
        SubsystemConfig { subsystem_name }
    }
}

/// Why a call into a subsystem worker yielded no answer.
#[derive(Clone, Copy, Debug, PartialEq, Eq, Structural)]
pub enum CallError {
    /// The call could not be handed to the worker.
    SubmissionFailed,
    /// The worker never delivered a result.
    ResultFetchFailed,
}

} // verus!
