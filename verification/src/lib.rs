//! A verified topic queue with scheduled dispatch.
//!
//! The library keeps a durable FIFO queue of unique, non-empty topic lines,
//! decides when the queue runs low and must be replenished from a generator,
//! computes the instants at which a recurring schedule fires, and turns each
//! firing into a dispatch decision. File and network I/O stay with the caller;
//! the queue logic, the line codec, the policy and the schedule arithmetic are
//! verified here.

pub mod codec;
pub mod dispatch;
pub mod errors;
pub mod generator;
pub mod policy;
pub mod schedule;
pub mod store;

use vstd::prelude::*;

verus! {

/// A topic is one non-empty line of text: it contains no line break.
pub open spec fn is_topic(t: Seq<char>) -> bool {
    t.len() > 0 && (forall|k: int| 0 <= k < t.len() ==> t[k] != '\n')
}

} // verus!
