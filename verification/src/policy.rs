//! The low-watermark replenishment policy: refill the store from the topic
//! generator exactly when it has fallen below the configured threshold. The
//! generator call itself is network work and runs with the caller, between
//! [`needs_replenish`] and [`finish_replenish`]; a failed attempt is reported
//! and never escalated, leaving the queue merely smaller than desired.

use crate::errors::GenError;
use crate::store;
use crate::store::TopicQueue;
use vstd::prelude::*;

verus! {

/// Whether the store has fallen below the low watermark: replenishment is
/// wanted exactly when fewer than `min_threshold` topics are queued, and is a
/// no-op otherwise.
pub fn needs_replenish(store: &TopicQueue, min_threshold: usize) -> (r: bool)
    ensures
        r == (store@.len() < min_threshold),
{
    store.size() < min_threshold
}

/// Complete one replenishment attempt with what the generator produced. A
/// batch is merged into the store — duplicates and non-topics silently
/// dropped — and the count actually added is returned; a generator failure
/// leaves the store untouched and is handed back to be logged.
pub fn finish_replenish(store: &mut TopicQueue, fetched: Result<Vec<String>, GenError>) -> (r:
    Result<usize, GenError>)
    requires
        old(store).wf(),
    ensures
        final(store).wf(),
        fetched matches Ok(batch) ==> {
            &&& final(store)@ == store::merge(old(store)@, batch.deep_view())
            &&& r matches Ok(added) && old(store)@.len() + added == final(store)@.len()
        },
        fetched matches Err(e) ==> final(store)@ == old(store)@ && r == Err::<usize, GenError>(e),
{
    match fetched {
        Ok(batch) => {
            let added = store.append(&batch);
            Ok(added)
        },
        Err(e) => Err(e),
    }
}

} // verus!
