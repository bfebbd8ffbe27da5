use terminal_chat::hub::Hub;
use terminal_chat::hub::RecvOutcome;

fn expect_message(out: RecvOutcome) -> String {
    match out {
        RecvOutcome::Message(m) => m,
        other => panic!("expected a message, got {:?}", other),
    }
}

#[test]
fn publish_without_subscribers_succeeds() {
    let mut hub = Hub::new(100);
    hub.publish("nobody listens".to_string());
    let mut rx = hub.subscribe();
    assert_eq!(hub.try_receive(&mut rx), RecvOutcome::Empty);
}

#[test]
fn subscriber_sees_later_publishes_in_order() {
    let mut hub = Hub::new(100);
    let mut rx = hub.subscribe();
    hub.publish("one".to_string());
    hub.publish("two".to_string());
    hub.publish("three".to_string());
    assert_eq!(expect_message(hub.try_receive(&mut rx)), "one");
    assert_eq!(expect_message(hub.try_receive(&mut rx)), "two");
    assert_eq!(expect_message(hub.try_receive(&mut rx)), "three");
    assert_eq!(hub.try_receive(&mut rx), RecvOutcome::Empty);
}

#[test]
fn no_replay_for_late_subscriber() {
    let mut hub = Hub::new(100);
    hub.publish("before".to_string());
    let mut rx = hub.subscribe();
    assert_eq!(hub.try_receive(&mut rx), RecvOutcome::Empty);
    hub.publish("after".to_string());
    assert_eq!(expect_message(hub.try_receive(&mut rx)), "after");
}

#[test]
fn slow_subscriber_lags_then_recovers() {
    let mut hub = Hub::new(2);
    let mut rx = hub.subscribe();
    hub.publish("a".to_string());
    hub.publish("b".to_string());
    hub.publish("c".to_string());
    hub.publish("d".to_string());
    hub.publish("e".to_string());
    // Only the window of the two newest records is retained; the reader
    // is told once that it lost records, then reads on normally.
    assert_eq!(hub.try_receive(&mut rx), RecvOutcome::Lagged);
    assert_eq!(expect_message(hub.try_receive(&mut rx)), "d");
    assert_eq!(expect_message(hub.try_receive(&mut rx)), "e");
    assert_eq!(hub.try_receive(&mut rx), RecvOutcome::Empty);
}

#[test]
fn closed_hub_drains_then_reports_closed() {
    let mut hub = Hub::new(100);
    let mut rx = hub.subscribe();
    hub.publish("last words".to_string());
    hub.close();
    assert_eq!(expect_message(hub.try_receive(&mut rx)), "last words");
    assert_eq!(hub.try_receive(&mut rx), RecvOutcome::Closed);
    assert_eq!(hub.try_receive(&mut rx), RecvOutcome::Closed);
}

#[test]
fn drain_returns_everything_after_subscription_in_order() {
    let mut hub = Hub::new(100);
    hub.publish("before subscription".to_string());
    let mut rx = hub.subscribe();
    hub.publish("one".to_string());
    hub.publish("two".to_string());
    hub.publish("three".to_string());
    let msgs = hub.drain(&mut rx);
    assert_eq!(msgs, vec!["one", "two", "three"]);
    assert_eq!(hub.try_receive(&mut rx), RecvOutcome::Empty);
}

#[test]
fn subscribers_are_independent() {
    let mut hub = Hub::new(100);
    let mut rx1 = hub.subscribe();
    hub.publish("x".to_string());
    let mut rx2 = hub.subscribe();
    hub.publish("y".to_string());
    assert_eq!(expect_message(hub.try_receive(&mut rx1)), "x");
    assert_eq!(expect_message(hub.try_receive(&mut rx1)), "y");
    assert_eq!(expect_message(hub.try_receive(&mut rx2)), "y");
    assert_eq!(hub.try_receive(&mut rx2), RecvOutcome::Empty);
}
