//! The bounded fan-out queues: non-blocking publish, per-subscriber
//! delivery, and silent loss of the oldest item for a lagging subscriber.

use draw_guess::notify::{ChatQueue, SignalQueue};
use draw_guess::ChatMessage;

#[test]
fn publish_with_no_subscribers_is_a_no_op() {
    let mut q = SignalQueue::new();
    q.publish(true);
    let id = q.subscribe();
    assert_eq!(q.recv(id), None);
}

#[test]
fn each_subscriber_gets_each_signal_once() {
    let mut q = SignalQueue::new();
    let a = q.subscribe();
    let b = q.subscribe();
    q.publish(true);
    assert_eq!(q.recv(a), Some(true));
    assert_eq!(q.recv(a), None);
    assert_eq!(q.recv(b), Some(true));
    assert_eq!(q.recv(b), None);
}

#[test]
fn late_subscriber_misses_earlier_signals() {
    let mut q = SignalQueue::new();
    let a = q.subscribe();
    q.publish(true);
    let b = q.subscribe();
    assert_eq!(q.recv(a), Some(true));
    assert_eq!(q.recv(b), None);
}

fn line(n: usize) -> ChatMessage {
    ChatMessage { username: "ann".to_string(), text: format!("line {n}") }
}

#[test]
fn chat_lines_arrive_in_order_and_verbatim() {
    let mut q = ChatQueue::new();
    let a = q.subscribe();
    q.publish(&line(1));
    q.publish(&line(2));
    let first = q.recv(a).unwrap();
    assert_eq!(first.username, "ann");
    assert_eq!(first.text, "line 1");
    assert_eq!(q.recv(a).unwrap().text, "line 2");
    assert_eq!(q.recv(a), None);
}

#[test]
fn lagging_subscriber_loses_only_the_oldest() {
    let mut q = ChatQueue::new();
    let a = q.subscribe();
    for n in 0..130 {
        q.publish(&line(n));
    }
    // capacity is 128: lines 0 and 1 fell off the front
    assert_eq!(q.recv(a).unwrap().text, "line 2");
    let mut seen = 1;
    while q.recv(a).is_some() {
        seen += 1;
    }
    assert_eq!(seen, 128);
}
