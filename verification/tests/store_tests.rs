use topic_queue::store::{topic_ok, TopicQueue};

fn strings(items: &[&str]) -> Vec<String> {
    items.iter().map(|s| s.to_string()).collect()
}

#[test]
fn new_queue_is_empty() {
    let mut q = TopicQueue::new();
    assert_eq!(q.size(), 0);
    assert_eq!(q.pop(), None);
}

#[test]
fn append_keeps_insertion_order() {
    let mut q = TopicQueue::new();
    let added = q.append(&strings(&["A", "B", "C"]));
    assert_eq!(added, 3);
    assert_eq!(q.encode(), "A\nB\nC");
}

#[test]
fn append_drops_duplicates_within_batch() {
    let mut q = TopicQueue::new();
    let added = q.append(&strings(&["A", "B", "A"]));
    assert_eq!(added, 2);
    assert_eq!(q.encode(), "A\nB");
}

#[test]
fn append_drops_already_queued() {
    let mut q = TopicQueue::new();
    q.append(&strings(&["A", "B"]));
    let added = q.append(&strings(&["B", "C"]));
    assert_eq!(added, 1);
    assert_eq!(q.encode(), "A\nB\nC");
}

#[test]
fn append_drops_empty_strings() {
    let mut q = TopicQueue::new();
    let added = q.append(&strings(&["", "A", ""]));
    assert_eq!(added, 1);
    assert_eq!(q.encode(), "A");
    assert_eq!(q.size(), 1);
}

#[test]
fn append_drops_values_spanning_lines() {
    let mut q = TopicQueue::new();
    let added = q.append(&strings(&["first\nsecond"]));
    assert_eq!(added, 0);
    assert_eq!(q.size(), 0);
}

#[test]
fn pop_returns_oldest_first() {
    let mut q = TopicQueue::new();
    q.append(&strings(&["A", "B", "C"]));
    assert_eq!(q.pop(), Some("A".to_string()));
    assert_eq!(q.encode(), "B\nC");
}

#[test]
fn pop_on_empty_returns_none() {
    let mut q = TopicQueue::new();
    q.append(&strings(&["only"]));
    assert_eq!(q.pop(), Some("only".to_string()));
    assert_eq!(q.pop(), None);
    assert_eq!(q.size(), 0);
}

#[test]
fn serialized_pops_return_distinct_topics() {
    let mut q = TopicQueue::new();
    q.append(&strings(&["A", "B"]));
    let first = q.pop().unwrap();
    let second = q.pop().unwrap();
    let third = q.pop();
    assert_ne!(first, second);
    assert_eq!(third, None);
    assert_eq!(q.size(), 0);
}

#[test]
fn load_after_append_round_trips() {
    let mut q = TopicQueue::new();
    q.append(&strings(&["One topic", "Another topic", "A third"]));
    let reloaded = TopicQueue::load(&q.encode());
    assert_eq!(reloaded.encode(), q.encode());
    assert_eq!(reloaded.size(), 3);
}

#[test]
fn load_after_pop_round_trips() {
    let mut q = TopicQueue::new();
    q.append(&strings(&["One topic", "Another topic"]));
    q.pop();
    let reloaded = TopicQueue::load(&q.encode());
    assert_eq!(reloaded.encode(), "Another topic");
    assert_eq!(reloaded.size(), 1);
}

#[test]
fn load_of_absent_state_is_empty() {
    let mut q = TopicQueue::load("");
    assert_eq!(q.size(), 0);
    assert_eq!(q.pop(), None);
}

#[test]
fn load_filters_foreign_text() {
    let q = TopicQueue::load("A\n\nA\nB\n");
    assert_eq!(q.encode(), "A\nB");
}

#[test]
fn topics_lists_the_queue_in_order() {
    let mut q = TopicQueue::new();
    q.append(&strings(&["A", "B", "A", ""]));
    assert_eq!(q.topics(), strings(&["A", "B"]));
    assert_eq!(TopicQueue::new().topics(), Vec::<String>::new());
}

#[test]
fn topic_ok_accepts_plain_lines() {
    assert!(topic_ok(&"A plain topic".to_string()));
    assert!(!topic_ok(&"".to_string()));
    assert!(!topic_ok(&"two\nlines".to_string()));
}
