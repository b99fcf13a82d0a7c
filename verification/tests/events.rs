use std::time::{Duration, Instant};

use dim_core::publisher::{encode_event, LifecycleEvent, LifecycleEventType, Publisher};

fn removed(id: i64) -> LifecycleEvent {
    LifecycleEvent { resource_id: id, event_type: LifecycleEventType::Removed }
}

fn created(id: i64) -> LifecycleEvent {
    LifecycleEvent { resource_id: id, event_type: LifecycleEventType::Created }
}

#[test]
fn wire_form_is_the_two_field_json_object() {
    assert_eq!(encode_event(&created(1)), b"{\"id\":1,\"type\":\"created\"}".to_vec());
    assert_eq!(encode_event(&removed(1)), b"{\"id\":1,\"type\":\"removed\"}".to_vec());
    assert_eq!(encode_event(&created(0)), b"{\"id\":0,\"type\":\"created\"}".to_vec());
    assert_eq!(
        encode_event(&removed(9007199254740993)),
        b"{\"id\":9007199254740993,\"type\":\"removed\"}".to_vec()
    );
}

#[test]
fn publish_with_no_subscribers_completes() {
    let mut p = Publisher::new();
    let start = Instant::now();
    for i in 0..1000 {
        p.publish(created(i));
    }
    assert!(start.elapsed() < Duration::from_secs(5));
}

#[test]
fn publish_delivers_to_every_subscriber_with_room() {
    let mut p = Publisher::new();
    p.subscribe(4);
    p.subscribe(4);
    p.publish(created(7));
    assert_eq!(p.subscribers[0].queue, vec![b"{\"id\":7,\"type\":\"created\"}".to_vec()]);
    assert_eq!(p.subscribers[1].queue, vec![b"{\"id\":7,\"type\":\"created\"}".to_vec()]);
}

#[test]
fn full_buffer_drops_the_event_without_blocking() {
    let mut p = Publisher::new();
    p.subscribe(1);
    p.subscribe(2);
    let start = Instant::now();
    p.publish(created(1));
    p.publish(removed(1));
    p.publish(created(2));
    assert!(start.elapsed() < Duration::from_secs(5));
    // the one-slot buffer kept only the first event
    assert_eq!(p.subscribers[0].queue.len(), 1);
    assert_eq!(p.subscribers[0].queue[0], b"{\"id\":1,\"type\":\"created\"}".to_vec());
    // the two-slot buffer kept the first two
    assert_eq!(p.subscribers[1].queue.len(), 2);
}

#[test]
fn zero_capacity_subscriber_never_receives() {
    let mut p = Publisher::new();
    p.subscribe(0);
    p.publish(created(5));
    assert!(p.subscribers[0].queue.is_empty());
}
