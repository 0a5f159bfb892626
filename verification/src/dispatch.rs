//! One dispatch tick: take the head topic from the store and settle what the
//! delivery made of it. The notifier call is network work and runs with the
//! caller, between [`dispatch_begin`] and [`dispatch_finish`]; replenishment
//! is kicked off concurrently after the pop, against the committed state.

use crate::errors::NotifyError;
use crate::store::TopicQueue;
use vstd::prelude::*;

verus! {

/// The result of one dispatch tick.
#[derive(Debug, Clone, PartialEq, Eq)]
pub enum DispatchOutcome {
    /// The head topic was removed and the notifier accepted it.
    Sent(String),
    /// The queue was empty: nothing was removed, nothing delivered.
    Empty,
    /// The head topic was removed but the notifier refused it. The topic is
    /// not put back: dispatch is at-most-once, without retry.
    NotifyFailed(String, NotifyError),
}

/// What remains of a tick after the head was taken.
#[derive(Debug, Clone, PartialEq, Eq)]
pub enum DispatchStep {
    /// Hand this topic to the notifier, then settle with [`dispatch_finish`].
    Deliver(String),
    /// The tick is settled already and the notifier is not to be called.
    Settled(DispatchOutcome),
}

/// Begin one dispatch tick: remove the head topic. An empty queue settles the
/// tick as `Empty` at once, unchanged and with no delivery owed; otherwise the
/// removed head — the topic that has waited longest — is owed to the notifier.
pub fn dispatch_begin(store: &mut TopicQueue) -> (step: DispatchStep)
    requires
        old(store).wf(),
    ensures
        final(store).wf(),
        old(store)@.len() == 0 ==> step == DispatchStep::Settled(DispatchOutcome::Empty)
            && final(store)@ == old(store)@,
        old(store)@.len() > 0 ==> {
            &&& step matches DispatchStep::Deliver(t) && t@ == old(store)@[0]
            &&& final(store)@ == old(store)@.drop_first()
        },
{
    match store.pop() {
        Some(t) => DispatchStep::Deliver(t),
        None => DispatchStep::Settled(DispatchOutcome::Empty),
    }
}

/// Settle a tick whose head topic went to the notifier. Success reports the
/// topic as sent; failure reports the topic with the error. Either way the
/// topic stays removed — it is not re-enqueued on failure.
pub fn dispatch_finish(topic: String, delivery: Result<(), NotifyError>) -> (out: DispatchOutcome)
    ensures
        delivery is Ok ==> out == DispatchOutcome::Sent(topic),
        delivery matches Err(e) ==> out == DispatchOutcome::NotifyFailed(topic, e),
{
    match delivery {
        Ok(_) => DispatchOutcome::Sent(topic),
        Err(e) => DispatchOutcome::NotifyFailed(topic, e),
    }
}

} // verus!
