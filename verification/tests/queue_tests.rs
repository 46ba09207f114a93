use keda_http::queue::DedupQueue;

#[test]
fn add_coalesces_pending_duplicates() {
    let mut q = DedupQueue::new();
    q.add(&"default/a".to_string());
    q.add(&"default/a".to_string());
    q.add(&"default/a".to_string());
    assert_eq!(q.pending_len(), 1);

    let k = q.get().unwrap();
    assert_eq!(k, "default/a".to_string());
    assert_eq!(q.pending_len(), 0);
    assert!(q.get().is_none());
}

#[test]
fn add_while_in_progress_requeues_exactly_once() {
    let mut q = DedupQueue::new();
    q.add(&"default/a".to_string());
    let k = q.get().unwrap();

    // Notices arriving while a worker holds the key coalesce into one.
    q.add(&"default/a".to_string());
    q.add(&"default/a".to_string());
    q.add(&"default/a".to_string());
    assert_eq!(q.pending_len(), 0);
    assert!(q.get().is_none());

    q.done(&k);
    assert_eq!(q.pending_len(), 1);
    let again = q.get().unwrap();
    assert_eq!(again, "default/a".to_string());

    // No further notice arrived, so this processing is the last.
    q.done(&again);
    assert_eq!(q.pending_len(), 0);
    assert!(q.get().is_none());
}

#[test]
fn no_duplicate_concurrent_processing() {
    let mut q = DedupQueue::new();
    q.add(&"default/a".to_string());
    q.add(&"default/b".to_string());

    let k1 = q.get().unwrap();
    q.add(&"default/a".to_string());
    let k2 = q.get().unwrap();

    // The held key is never handed out a second time.
    assert_ne!(k1, k2);
    assert!(q.get().is_none());
}

#[test]
fn fifo_order_and_done_removes() {
    let mut q = DedupQueue::new();
    q.add(&"default/a".to_string());
    q.add(&"default/b".to_string());
    q.add(&"default/c".to_string());
    assert_eq!(q.pending_len(), 3);

    assert_eq!(q.get().unwrap(), "default/a".to_string());
    assert_eq!(q.get().unwrap(), "default/b".to_string());
    q.done(&"default/a".to_string());
    q.done(&"default/b".to_string());
    assert_eq!(q.get().unwrap(), "default/c".to_string());
    q.done(&"default/c".to_string());
    assert_eq!(q.pending_len(), 0);
}

#[test]
fn done_without_claim_is_a_no_op() {
    let mut q = DedupQueue::new();
    q.add(&"default/a".to_string());
    q.done(&"default/a".to_string());
    assert_eq!(q.pending_len(), 1);
    assert_eq!(q.get().unwrap(), "default/a".to_string());
}
