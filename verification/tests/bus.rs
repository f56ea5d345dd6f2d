use caduceus::bus::{published, BroadcastBus, BusError, BusMessage};
use tokio::sync::broadcast::error::TryRecvError;

fn msg(from: &str, content: &str, channel: &str) -> BusMessage {
    BusMessage {
        from: from.into(),
        content: content.into(),
        timestamp: 0,
        channel: channel.into(),
    }
}

#[test]
fn publish_to_subscriber_delivers() {
    let mut bus = BroadcastBus::new();
    let mut rx = bus.subscribe("ch");
    let n = bus.publish(msg("a", "hi", "ch")).unwrap();
    assert_eq!(n, 1);
    let got = rx.try_recv().unwrap();
    assert_eq!(got.content, "hi");
}

#[test]
fn publish_with_no_subscribers_errs() {
    let mut bus = BroadcastBus::new();
    // Register channel via subscribe then drop the receiver.
    {
        let _ = bus.subscribe("ch");
    }
    let err = bus.publish(msg("a", "x", "ch")).unwrap_err();
    match err {
        BusError::NoSubscribers(c) => assert_eq!(c, "ch"),
    }
}

#[test]
fn publish_to_unknown_channel_errs() {
    let bus = BroadcastBus::new();
    let err = bus.publish(msg("a", "x", "missing")).unwrap_err();
    assert!(matches!(err, BusError::NoSubscribers(_)));
    assert_eq!(err.message(), "publish to channel `missing` had no subscribers");
}

#[test]
fn fanout_to_multiple_subscribers() {
    let mut bus = BroadcastBus::new();
    let mut r1 = bus.subscribe("ch");
    let mut r2 = bus.subscribe("ch");
    let n = bus.publish(msg("a", "hello", "ch")).unwrap();
    assert_eq!(n, 2);
    assert_eq!(r1.try_recv().unwrap().content, "hello");
    assert_eq!(r2.try_recv().unwrap().content, "hello");
}

#[test]
fn lagged_receiver_sees_lagged_error_then_resyncs() {
    let mut bus = BroadcastBus::with_capacity(2);
    let mut rx = bus.subscribe("ch");
    // Fill capacity + 1 → oldest should be dropped, lag flagged
    // on next recv.
    for i in 0..5 {
        bus.publish(msg("a", &format!("m{i}"), "ch")).unwrap();
    }
    let first = rx.try_recv();
    assert!(matches!(first, Err(TryRecvError::Lagged(_))));
    // Subsequent recvs deliver the most recent buffered messages.
    let next = rx.try_recv().unwrap();
    // We dropped 3 oldest; the next available is m3.
    assert_eq!(next.content, "m3");
}

#[test]
fn channel_count_and_receiver_count_track_state() {
    let mut bus = BroadcastBus::new();
    assert_eq!(bus.channel_count(), 0);
    let _r1 = bus.subscribe("a");
    let _r2 = bus.subscribe("a");
    let _r3 = bus.subscribe("b");
    assert_eq!(bus.channel_count(), 2);
    assert_eq!(bus.receiver_count("a"), 2);
    assert_eq!(bus.receiver_count("b"), 1);
    assert_eq!(bus.receiver_count("missing"), 0);
}

#[test]
fn close_evicts_channel_and_signals_receivers() {
    let mut bus = BroadcastBus::new();
    let mut rx = bus.subscribe("ch");
    assert!(bus.close("ch"));
    // Closed channel: recv eventually returns Closed.
    assert!(matches!(rx.try_recv(), Err(TryRecvError::Closed)));
    // Re-publishing the same channel name now errs (sender gone).
    let err = bus.publish(msg("a", "x", "ch")).unwrap_err();
    assert!(matches!(err, BusError::NoSubscribers(_)));
    assert!(!bus.close("ch"));
}

#[test]
fn channels_keep_apart() {
    let mut bus = BroadcastBus::with_capacity(0);
    let mut a = bus.subscribe("a");
    let mut b = bus.subscribe("b");
    bus.publish(msg("x", "for b", "b")).unwrap();
    assert!(matches!(a.try_recv(), Err(TryRecvError::Empty)));
    assert_eq!(b.try_recv().unwrap().content, "for b");
    bus.close("a");
    assert_eq!(bus.receiver_count("b"), 1);
}

#[test]
fn outcomes_are_told() {
    assert_eq!(published("c".to_string(), Some(3)), Ok(3));
    assert_eq!(published("c".to_string(), None), Err(BusError::NoSubscribers("c".to_string())));
}

#[test]
fn listeners_keep_their_channel() {
    let mut bus = BroadcastBus::new();
    let mut rx = bus.subscribe("ch");
    let _other = bus.subscribe("other");
    let mut third = bus.subscribe("third");
    assert!(bus.close("other"));
    assert_eq!(bus.publish(msg("a", "one", "ch")), Ok(1));
    assert_eq!(rx.try_recv().unwrap(), msg("a", "one", "ch"));
    assert!(matches!(third.try_recv(), Err(TryRecvError::Empty)));
    assert_eq!(bus.receiver_count("ch"), 1);
    assert_eq!(bus.receiver_count("other"), 0);
}
