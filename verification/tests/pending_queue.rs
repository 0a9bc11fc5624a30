use deep_links::queue::{ExternalOpenUrlEventPayload, PendingQueue};

fn link(tag: usize) -> String {
    format!("youwee://download?v=1&url=https://example/{}", tag)
}

#[test]
fn take_on_new_queue_is_empty() {
    let mut q = PendingQueue::new();
    assert_eq!(q.take_pending_external_links(), Vec::<String>::new());
    assert_eq!(q.take_pending_external_links(), Vec::<String>::new());
}

#[test]
fn duplicate_enqueue_keeps_size() {
    let mut q = PendingQueue::new();
    q.enqueue_external_links(vec![link(1)]);
    q.enqueue_external_links(vec![link(1)]);
    assert_eq!(q.len(), 1);
    assert_eq!(q.take_pending_external_links(), vec![link(1)]);
}

#[test]
fn overflow_keeps_last_hundred() {
    let mut q = PendingQueue::new();
    for i in 1usize..=101 {
        q.enqueue_external_links(vec![link(i)]);
    }
    assert_eq!(q.len(), 100);
    let drained = q.take_pending_external_links();
    let expected: Vec<String> = (2usize..=101).map(link).collect();
    assert_eq!(drained, expected);
}

#[test]
fn drain_returns_insertion_order_then_empty() {
    let mut q = PendingQueue::new();
    q.enqueue_external_links(vec![link(1), link(2)]);
    q.enqueue_external_links(vec![link(3)]);
    assert_eq!(q.take_pending_external_links(), vec![link(1), link(2), link(3)]);
    assert_eq!(q.take_pending_external_links(), Vec::<String>::new());
}

#[test]
fn round_trip_is_verbatim() {
    let mut q = PendingQueue::new();
    let sent = "youwee://download?v=1&url=https://host/p?q=1#frag".to_string();
    q.enqueue_external_links(vec![sent.clone()]);
    let drained = q.take_pending_external_links();
    assert_eq!(drained.len(), 1);
    assert_eq!(drained[0].as_bytes(), sent.as_bytes());
}

#[test]
fn invalid_urls_are_dropped_at_enqueue() {
    let mut q = PendingQueue::new();
    q.enqueue_external_links(vec![
        "garbage".to_string(),
        link(7),
        "youwee://download?v=2&url=x".to_string(),
    ]);
    assert_eq!(q.take_pending_external_links(), vec![link(7)]);
}

#[test]
fn enqueue_nothing_is_a_noop() {
    let mut q = PendingQueue::new();
    q.enqueue_external_links(Vec::new());
    assert_eq!(q.len(), 0);
    q.enqueue_external_links(vec![link(9)]);
    q.enqueue_external_links(Vec::new());
    assert_eq!(q.len(), 1);
}

#[test]
fn payload_carries_urls() {
    let payload = ExternalOpenUrlEventPayload { urls: vec![link(1), link(2)] };
    let copied = payload.clone();
    assert_eq!(copied.urls, vec![link(1), link(2)]);
}
