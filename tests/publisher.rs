use lsmtp::message::Email;
use lsmtp::publisher::{Phase, Publisher, PublisherAction, PublisherEvent};

fn message(tag: &str) -> Email {
    Email::new(vec!["b@x.com".to_string()], format!("{}\n", tag), "a@x.com".to_string())
}

fn expect_overflow(a: PublisherAction) -> Email {
    match a {
        PublisherAction::Overflow(m) => m,
        other => panic!("expected Overflow, got {:?}", other),
    }
}

#[test]
fn unreachable_broker_sends_every_message_to_overflow_once() {
    let mut p = Publisher::new(5);
    let mut overflowed: Vec<String> = Vec::new();
    let mut ids: Vec<String> = Vec::new();
    for i in 0..3 {
        let m = message(&format!("m{}", i));
        ids.push(m.get_id().to_string());
        let mut a = p.step(PublisherEvent::Delivered(m));
        let mut connects = 0;
        loop {
            match a {
                PublisherAction::Connect => {
                    connects += 1;
                    a = p.step(PublisherEvent::ConnectFailed);
                }
                PublisherAction::Backoff => a = p.step(PublisherEvent::BackoffElapsed),
                PublisherAction::Overflow(m) => {
                    overflowed.push(m.get_id().to_string());
                    break;
                }
                other => panic!("unexpected {:?}", other),
            }
        }
        assert_eq!(connects, 5);
        assert!(!p.is_connected());
        assert!(matches!(p.step(PublisherEvent::Disposed), PublisherAction::Receive));
    }
    assert_eq!(overflowed, ids);
    assert!(matches!(p.step(PublisherEvent::QueueClosed), PublisherAction::Shutdown(false)));
    assert_eq!(p.phase(), Phase::Stopped);
}

#[test]
fn rejected_confirmation_overflows_once_then_next_message_publishes() {
    let mut p = Publisher::new(5);
    let first = message("first");
    let first_id = first.get_id().to_string();
    let payload = first.serialize();
    assert!(matches!(p.step(PublisherEvent::Delivered(first)), PublisherAction::Connect));
    match p.step(PublisherEvent::ConnectSucceeded) {
        PublisherAction::Publish(bytes) => assert_eq!(bytes, payload),
        other => panic!("unexpected {:?}", other),
    }
    let m = expect_overflow(p.step(PublisherEvent::Rejected));
    assert_eq!(m.get_id(), first_id);
    assert!(!p.is_connected());
    assert!(matches!(p.step(PublisherEvent::Disposed), PublisherAction::Receive));

    let second = message("second");
    let second_id = second.get_id().to_string();
    assert!(matches!(p.step(PublisherEvent::Delivered(second)), PublisherAction::Connect));
    assert!(matches!(p.step(PublisherEvent::ConnectSucceeded), PublisherAction::Publish(_)));
    match p.step(PublisherEvent::Confirmed) {
        PublisherAction::Published(m) => assert_eq!(m.get_id(), second_id),
        other => panic!("unexpected {:?}", other),
    }
    assert!(p.is_connected());
}

#[test]
fn held_connection_is_checked_and_reused() {
    let mut p = Publisher::new(2);
    p.step(PublisherEvent::Delivered(message("a")));
    p.step(PublisherEvent::ConnectSucceeded);
    p.step(PublisherEvent::Confirmed);
    p.step(PublisherEvent::Disposed);
    assert!(matches!(p.step(PublisherEvent::Delivered(message("b"))), PublisherAction::CheckConnection));
    assert!(matches!(p.step(PublisherEvent::ConnectionStatus(true)), PublisherAction::Publish(_)));
    assert!(matches!(p.step(PublisherEvent::Confirmed), PublisherAction::Published(_)));
    p.step(PublisherEvent::Disposed);
    assert!(matches!(p.step(PublisherEvent::QueueClosed), PublisherAction::Shutdown(true)));
    assert!(!p.is_connected());
}

#[test]
fn stale_connection_is_replaced() {
    let mut p = Publisher::new(2);
    p.step(PublisherEvent::Delivered(message("a")));
    p.step(PublisherEvent::ConnectSucceeded);
    p.step(PublisherEvent::Confirmed);
    p.step(PublisherEvent::Disposed);
    p.step(PublisherEvent::Delivered(message("b")));
    assert!(matches!(p.step(PublisherEvent::ConnectionStatus(false)), PublisherAction::Connect));
    assert!(!p.is_connected());
    assert!(matches!(p.step(PublisherEvent::ConnectFailed), PublisherAction::Backoff));
    assert_eq!(p.phase(), Phase::BackingOff(1));
    assert!(matches!(p.step(PublisherEvent::BackoffElapsed), PublisherAction::Connect));
    assert_eq!(p.phase(), Phase::Connecting(2));
    expect_overflow(p.step(PublisherEvent::ConnectFailed));
}

#[test]
fn zero_attempt_bound_still_tries_once() {
    let mut p = Publisher::new(0);
    assert!(matches!(p.step(PublisherEvent::Delivered(message("a"))), PublisherAction::Connect));
    expect_overflow(p.step(PublisherEvent::ConnectFailed));
}

#[test]
fn only_answers_to_the_last_action_are_accepted() {
    let mut p = Publisher::new(3);
    assert!(p.accepts(&PublisherEvent::QueueClosed));
    assert!(!p.accepts(&PublisherEvent::Confirmed));
    p.step(PublisherEvent::Delivered(message("a")));
    assert!(!p.accepts(&PublisherEvent::Delivered(message("b"))));
    assert!(p.accepts(&PublisherEvent::ConnectFailed));
    assert!(p.accepts(&PublisherEvent::ConnectSucceeded));
    p.step(PublisherEvent::ConnectSucceeded);
    assert!(p.accepts(&PublisherEvent::Rejected));
    assert!(!p.accepts(&PublisherEvent::Disposed));
}
