//! Classification of a finished request by its status code.

use vstd::prelude::*;

verus! {

/// How a finished request is reported.
#[derive(Clone, Copy, Debug, PartialEq, Eq, Structural)]
pub enum OutcomeClass {
    /// A 2xx status.
    Informational,
    /// A 3xx status.
    Cautionary,
    /// Anything else, including a request that matched no route.
    Warning,
}

/// The class that belongs to a status code.
pub open spec fn class_of_status(status: u16) -> OutcomeClass {
    if 200 <= status < 300 {
        OutcomeClass::Informational
    } else if 300 <= status < 400 {
        OutcomeClass::Cautionary
    } else {
        OutcomeClass::Warning
    }
}

/// Classifies a status code.
pub fn classify(status: u16) -> (class: OutcomeClass)
    ensures
        class == class_of_status(status),
{
    if status >= 200 && status < 300 {
        OutcomeClass::Informational
    } else if status >= 300 && status < 400 {
        OutcomeClass::Cautionary
    } else {
        OutcomeClass::Warning
    }
}

} // verus!
