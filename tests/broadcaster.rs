use live_grid::broadcast::{Broadcaster, QUEUE_CAPACITY};

#[test]
fn subscribe_and_unsubscribe_counts() {
    let mut b = Broadcaster::new(QUEUE_CAPACITY);
    assert_eq!(b.live_count(), 0);
    assert_eq!(b.capacity(), 32);
    let h1 = b.subscribe().unwrap();
    assert_eq!(b.live_count(), 1);
    let h2 = b.subscribe().unwrap();
    assert_eq!(b.live_count(), 2);
    assert_ne!(h1, h2);
    b.unsubscribe(&h2);
    assert_eq!(b.live_count(), 1);
    assert!(b.is_live(&h1));
    assert!(!b.is_live(&h2));
    b.unsubscribe(&h2);
    assert_eq!(b.live_count(), 1);
}

#[test]
fn publish_reaches_current_subscribers_only() {
    let mut b = Broadcaster::new(4);
    let h1 = b.subscribe().unwrap();
    let h2 = b.subscribe().unwrap();
    b.publish("m");
    let late = b.subscribe().unwrap();
    assert_eq!(b.next_message(&h1).as_deref(), Some("m"));
    assert_eq!(b.next_message(&h2).as_deref(), Some("m"));
    assert_eq!(b.next_message(&late), None);
    assert_eq!(b.next_message(&h1), None);
}

#[test]
fn messages_arrive_in_publish_order() {
    let mut b = Broadcaster::new(4);
    let h = b.subscribe().unwrap();
    b.publish("a");
    b.publish("b");
    b.publish("c");
    assert_eq!(b.pending(&h), Some(3));
    assert_eq!(b.next_message(&h).as_deref(), Some("a"));
    assert_eq!(b.next_message(&h).as_deref(), Some("b"));
    assert_eq!(b.next_message(&h).as_deref(), Some("c"));
    assert_eq!(b.next_message(&h), None);
}

#[test]
fn closed_subscriber_is_gone_after_next_publish() {
    let mut b = Broadcaster::new(4);
    let h1 = b.subscribe().unwrap();
    let h2 = b.subscribe().unwrap();
    b.close(&h1);
    assert_eq!(b.live_count(), 2);
    b.publish("x");
    assert_eq!(b.live_count(), 1);
    assert!(!b.is_live(&h1));
    assert_eq!(b.next_message(&h2).as_deref(), Some("x"));
    assert_eq!(b.next_message(&h1), None);
}

#[test]
fn full_queue_drops_its_oldest_message() {
    let mut b = Broadcaster::new(2);
    let slow = b.subscribe().unwrap();
    b.publish("a");
    b.publish("b");
    let h2 = b.subscribe().unwrap();
    let h3 = b.subscribe().unwrap();
    assert_eq!(b.pending(&slow), Some(2));
    b.publish("x");
    assert_eq!(b.live_count(), 3);
    assert_eq!(b.next_message(&h2).as_deref(), Some("x"));
    assert_eq!(b.next_message(&h3).as_deref(), Some("x"));
    assert_eq!(b.pending(&slow), Some(2));
    assert_eq!(b.next_message(&slow).as_deref(), Some("b"));
    assert_eq!(b.next_message(&slow).as_deref(), Some("x"));
}

#[test]
fn unknown_handle_has_nothing_pending() {
    let mut b = Broadcaster::new(1);
    let h = b.subscribe().unwrap();
    b.unsubscribe(&h);
    assert_eq!(b.pending(&h), None);
    b.close(&h);
    assert_eq!(b.live_count(), 0);
}
