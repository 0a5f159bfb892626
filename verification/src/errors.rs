//! The error taxonomy. Every error carries a descriptive message; none is
//! fatal to the dispatch loop except [`ScheduleParseError`], which is raised
//! once at startup, before the loop begins.

use vstd::prelude::*;

verus! {

/// Reading or writing persisted state failed. The caller logs it and goes on
/// treating the queue as unchanged; it never stops the dispatch loop.
#[derive(Debug, Clone, PartialEq, Eq)]
pub struct StoreError {
    pub message: String,
}

/// The topic generator was unreachable or its reply was malformed. Only the
/// one replenishment attempt is abandoned.
#[derive(Debug, Clone, PartialEq, Eq)]
pub struct GenError {
    pub message: String,
}

/// The notifier was unreachable or rejected the delivery. The topic already
/// removed for it is lost for this cycle.
#[derive(Debug, Clone, PartialEq, Eq)]
pub struct NotifyError {
    pub message: String,
}

/// The recurring-schedule expression does not parse: fatal, at startup only.
#[derive(Debug, Clone, PartialEq, Eq)]
pub struct ScheduleParseError {
    pub message: String,
}

} // verus!
