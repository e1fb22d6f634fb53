use snake_core::events::{Events, GameOverEvent};

#[test]
fn a_new_queue_is_empty() {
    let events: Events<GameOverEvent> = Events::new();
    assert!(events.is_empty());
    assert_eq!(events.len(), 0);
}

#[test]
fn events_come_out_in_the_order_they_were_sent() {
    let mut events: Events<u32> = Events::new();
    events.send(3);
    events.send(1);
    events.send(2);
    assert_eq!(events.len(), 3);
    assert!(!events.is_empty());
    assert_eq!(events.drain(), vec![3, 1, 2]);
}

#[test]
fn draining_leaves_the_queue_empty() {
    let mut events: Events<GameOverEvent> = Events::new();
    events.send(GameOverEvent);
    events.send(GameOverEvent);
    assert_eq!(events.drain().len(), 2);
    assert!(events.is_empty());
    assert_eq!(events.drain().len(), 0);
}

#[test]
fn events_sent_after_a_drain_are_read_by_the_next() {
    let mut events: Events<u32> = Events::new();
    events.send(1);
    assert_eq!(events.drain(), vec![1]);
    events.send(2);
    assert_eq!(events.drain(), vec![2]);
}
