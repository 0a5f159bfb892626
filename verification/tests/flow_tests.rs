use topic_queue::dispatch::{dispatch_begin, dispatch_finish, DispatchOutcome, DispatchStep};
use topic_queue::errors::{GenError, NotifyError};
use topic_queue::policy::{finish_replenish, needs_replenish};
use topic_queue::store::TopicQueue;

fn strings(items: &[&str]) -> Vec<String> {
    items.iter().map(|s| s.to_string()).collect()
}

#[test]
fn dispatch_then_replenish_end_to_end() {
    let mut store = TopicQueue::new();
    store.append(&strings(&["Ice-breaker?", "Blunder this week?"]));
    let threshold = 2;

    let step = dispatch_begin(&mut store);
    assert_eq!(step, DispatchStep::Deliver("Ice-breaker?".to_string()));
    assert_eq!(store.encode(), "Blunder this week?");

    assert!(needs_replenish(&store, threshold));
    let fetched = Ok(strings(&["New topic A", "Blunder this week?"]));
    let added = finish_replenish(&mut store, fetched);
    assert_eq!(added, Ok(1));
    assert_eq!(store.encode(), "Blunder this week?\nNew topic A");
}

#[test]
fn dispatch_on_empty_store_settles_empty() {
    let mut store = TopicQueue::new();
    let step = dispatch_begin(&mut store);
    assert_eq!(step, DispatchStep::Settled(DispatchOutcome::Empty));
    assert_eq!(store.size(), 0);
}

#[test]
fn failed_notify_does_not_restore_topic() {
    let mut store = TopicQueue::new();
    store.append(&strings(&["Lost topic"]));

    let step = dispatch_begin(&mut store);
    let topic = match step {
        DispatchStep::Deliver(t) => t,
        DispatchStep::Settled(_) => panic!("a queued topic was owed"),
    };
    let error = NotifyError {
        message: "webhook refused the card".to_string(),
    };
    let out = dispatch_finish(topic, Err(error.clone()));
    assert_eq!(
        out,
        DispatchOutcome::NotifyFailed("Lost topic".to_string(), error)
    );
    assert_eq!(store.size(), 0);
    assert_eq!(store.pop(), None);
}

#[test]
fn successful_notify_reports_sent() {
    let out = dispatch_finish("Delivered topic".to_string(), Ok(()));
    assert_eq!(out, DispatchOutcome::Sent("Delivered topic".to_string()));
}

#[test]
fn replenish_is_noop_at_or_above_threshold() {
    let mut store = TopicQueue::new();
    store.append(&strings(&["A", "B", "C"]));
    assert!(!needs_replenish(&store, 3));
    assert!(!needs_replenish(&store, 2));
    assert!(needs_replenish(&store, 4));
}

#[test]
fn replenish_grows_store_below_threshold() {
    let mut store = TopicQueue::new();
    store.append(&strings(&["A"]));
    assert!(needs_replenish(&store, 10));
    let added = finish_replenish(&mut store, Ok(strings(&["B", "C"])));
    assert_eq!(added, Ok(2));
    assert_eq!(store.size(), 3);
    assert_eq!(store.encode(), "A\nB\nC");
}

#[test]
fn failed_fetch_leaves_store_unchanged() {
    let mut store = TopicQueue::new();
    store.append(&strings(&["A"]));
    let error = GenError {
        message: "generator unreachable".to_string(),
    };
    let out = finish_replenish(&mut store, Err(error.clone()));
    assert_eq!(out, Err(error));
    assert_eq!(store.encode(), "A");
}
