use aud::ring::{AlertSlot, MessageRing};

#[test]
fn a_new_ring_is_empty() {
    let ring: MessageRing<u32> = MessageRing::new(3);
    assert_eq!(ring.capacity(), 3);
    assert_eq!(ring.len(), 0);
    assert!(ring.is_empty());
}

#[test]
fn a_ring_keeps_the_order_of_arrival() {
    let mut ring = MessageRing::new(3);
    ring.push(1);
    ring.push(2);
    ring.push(3);
    assert_eq!(ring.len(), 3);
    assert!(!ring.is_empty());
    assert_eq!(ring.take(), vec![1, 2, 3]);
}

#[test]
fn a_full_ring_drops_the_oldest() {
    let mut ring = MessageRing::new(3);
    for i in 1..=7 {
        ring.push(i);
    }
    assert_eq!(ring.len(), 3);
    assert_eq!(ring.take(), vec![5, 6, 7]);
}

#[test]
fn a_ring_without_room_keeps_nothing() {
    let mut ring = MessageRing::new(0);
    ring.push("x");
    assert!(ring.is_empty());
    assert_eq!(ring.take(), Vec::<&str>::new());
}

#[test]
fn a_ring_of_one_keeps_the_newest() {
    let mut ring = MessageRing::new(1);
    ring.push('a');
    ring.push('b');
    assert_eq!(ring.take(), vec!['b']);
}

#[test]
fn take_empties_the_ring_and_keeps_its_capacity() {
    let mut ring = MessageRing::new(2);
    ring.push(1);
    assert_eq!(ring.take(), vec![1]);
    assert_eq!(ring.take(), Vec::<i32>::new());
    assert_eq!(ring.capacity(), 2);
    ring.push(2);
    ring.push(3);
    ring.push(4);
    assert_eq!(ring.take(), vec![3, 4]);
}

#[test]
fn clear_forgets_the_history() {
    let mut ring = MessageRing::new(2);
    ring.push(1);
    ring.clear();
    assert!(ring.is_empty());
    assert_eq!(ring.capacity(), 2);
}

#[test]
fn an_alert_overwrites_the_one_that_waits() {
    let mut slot = AlertSlot::new();
    assert!(!slot.is_some());
    assert_eq!(slot.take(), None);
    slot.post("first".to_string());
    slot.post("second".to_string());
    assert!(slot.is_some());
    assert_eq!(slot.take(), Some("second".to_string()));
    assert!(!slot.is_some());
    assert_eq!(slot.take(), None);
}
