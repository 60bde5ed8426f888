use pubsub_fanout::bus::Bus;
use pubsub_fanout::envelope::Message;
use pubsub_fanout::forwarder::{Forwarder, ForwarderState};
use pubsub_fanout::queue::BoundedQueue;
use pubsub_fanout::source::relay_fetched;

fn msg(channel: &str, payload: &str) -> Message {
    Message::new(channel.to_string(), payload.to_string())
}

fn drain(bus: &mut Bus, id: u64) -> Vec<(String, String)> {
    let mut out = Vec::new();
    while let Some(m) = bus.receive(id) {
        out.push((m.channel, m.payload));
    }
    out
}

#[test]
fn envelope_is_bit_exact() {
    let m = msg("news", "hello");
    assert_eq!(m.envelope(), r#"{"channel":"news","message":"hello"}"#);
}

#[test]
fn envelope_escapes_json_specials() {
    let m = msg("a\"b", "line\nnext\\tab\t\u{1}é");
    assert_eq!(
        m.envelope(),
        "{\"channel\":\"a\\\"b\",\"message\":\"line\\nnext\\\\tab\\t\\u0001é\"}"
    );
}

#[test]
fn envelope_of_empty_strings() {
    assert_eq!(msg("", "").envelope(), r#"{"channel":"","message":""}"#);
}

#[test]
fn one_client_receives_published_envelope() {
    let mut bus = Bus::new(10);
    let id = bus.register().unwrap();
    let fwd = Forwarder::new(id);
    assert!(relay_fetched(&mut bus, Some(("news".to_string(), "hello".to_string()))));
    assert_eq!(
        fwd.next_frame(&mut bus),
        Some(r#"{"channel":"news","message":"hello"}"#.to_string())
    );
    assert_eq!(fwd.next_frame(&mut bus), None);
}

#[test]
fn two_clients_receive_identical_envelopes() {
    let mut bus = Bus::new(10);
    let a = Forwarder::new(bus.register().unwrap());
    let b = Forwarder::new(bus.register().unwrap());
    bus.publish(msg("news", "hello"));
    let fa = a.next_frame(&mut bus).unwrap();
    let fb = b.next_frame(&mut bus).unwrap();
    assert_eq!(fa, fb);
    assert_eq!(fa, r#"{"channel":"news","message":"hello"}"#);
}

#[test]
fn disconnected_client_is_not_fed_later_messages() {
    let mut bus = Bus::new(10);
    let mut a = Forwarder::new(bus.register().unwrap());
    let b = Forwarder::new(bus.register().unwrap());
    bus.publish(msg("news", "one"));
    assert!(a.next_frame(&mut bus).is_some());
    a.on_write(false, &mut bus);
    assert_eq!(a.state, ForwarderState::Closed);
    assert!(!a.is_active());
    assert!(!bus.is_registered(a.handle));
    assert_eq!(bus.handle_count(), 1);
    bus.publish(msg("news", "two"));
    assert_eq!(a.next_frame(&mut bus), None);
    assert_eq!(bus.receive(a.handle).map(|m| m.payload), None);
    assert_eq!(
        b.next_frame(&mut bus),
        Some(r#"{"channel":"news","message":"one"}"#.to_string())
    );
    assert_eq!(
        b.next_frame(&mut bus),
        Some(r#"{"channel":"news","message":"two"}"#.to_string())
    );
}

#[test]
fn successful_write_keeps_forwarder_active() {
    let mut bus = Bus::new(10);
    let mut a = Forwarder::new(bus.register().unwrap());
    a.on_write(true, &mut bus);
    assert!(a.is_active());
    assert!(bus.is_registered(a.handle));
}

#[test]
fn each_handle_sees_publish_order() {
    let mut bus = Bus::new(10);
    let a = bus.register().unwrap();
    let b = bus.register().unwrap();
    for i in 0..5 {
        bus.publish(msg("c", &i.to_string()));
    }
    let expected: Vec<(String, String)> =
        (0..5).map(|i| ("c".to_string(), i.to_string())).collect();
    assert_eq!(drain(&mut bus, a), expected);
    assert_eq!(drain(&mut bus, b), expected);
}

#[test]
fn late_handle_gets_next_message_only() {
    let mut bus = Bus::new(10);
    bus.publish(msg("c", "m1"));
    let h = bus.register().unwrap();
    bus.publish(msg("c", "m2"));
    assert_eq!(drain(&mut bus, h), vec![("c".to_string(), "m2".to_string())]);
}

#[test]
fn overflow_drops_oldest() {
    let k: usize = 10;
    let mut bus = Bus::new(k);
    let h = bus.register().unwrap();
    for i in 0..=k {
        bus.publish(msg("c", &i.to_string()));
    }
    let expected: Vec<(String, String)> =
        (1..=k).map(|i| ("c".to_string(), i.to_string())).collect();
    assert_eq!(drain(&mut bus, h), expected);
}

#[test]
fn lagging_handle_does_not_affect_others() {
    let mut bus = Bus::new(2);
    let slow = bus.register().unwrap();
    let fast = bus.register().unwrap();
    let mut seen = Vec::new();
    for i in 0..4 {
        bus.publish(msg("c", &i.to_string()));
        seen.push(bus.receive(fast).unwrap().payload);
    }
    assert_eq!(seen, vec!["0", "1", "2", "3"]);
    let rest: Vec<String> = drain(&mut bus, slow).into_iter().map(|p| p.1).collect();
    assert_eq!(rest, vec!["2", "3"]);
}

#[test]
fn deregister_is_idempotent() {
    let mut bus = Bus::new(3);
    let a = bus.register().unwrap();
    let b = bus.register().unwrap();
    bus.deregister(a);
    bus.deregister(a);
    bus.deregister(99);
    assert!(!bus.is_registered(a));
    assert!(bus.is_registered(b));
    assert_eq!(bus.handle_count(), 1);
}

#[test]
fn handles_are_never_reused() {
    let mut bus = Bus::new(3);
    let a = bus.register().unwrap();
    bus.deregister(a);
    let b = bus.register().unwrap();
    assert_ne!(a, b);
    assert_eq!((a, b), (0, 1));
}

#[test]
fn receive_on_unknown_handle_is_none() {
    let mut bus = Bus::new(3);
    bus.publish(msg("c", "x"));
    assert!(bus.receive(7).is_none());
}

#[test]
fn failed_fetch_is_skipped() {
    let mut bus = Bus::new(3);
    let h = bus.register().unwrap();
    assert!(!relay_fetched(&mut bus, None));
    assert!(bus.receive(h).is_none());
    assert!(relay_fetched(&mut bus, Some(("ch".to_string(), "p".to_string()))));
    let m = bus.receive(h).unwrap();
    assert_eq!((m.channel.as_str(), m.payload.as_str()), ("ch", "p"));
}

#[test]
fn zero_capacity_keeps_nothing() {
    let mut bus = Bus::new(0);
    let h = bus.register().unwrap();
    bus.publish(msg("c", "x"));
    assert!(bus.receive(h).is_none());
    assert_eq!(bus.capacity(), 0);
}

#[test]
fn bounded_queue_push_and_pop() {
    let mut q = BoundedQueue::new(2);
    assert_eq!(q.capacity(), 2);
    q.push(msg("c", "a"));
    q.push(msg("c", "b"));
    q.push(msg("c", "c"));
    assert_eq!(q.len(), 2);
    assert_eq!(q.pop().unwrap().payload, "b");
    assert_eq!(q.pop().unwrap().payload, "c");
    assert!(q.pop().is_none());
}

#[test]
fn duplicate_copies_fields() {
    let m = msg("x", "y");
    let d = m.duplicate();
    assert_eq!((d.channel, d.payload), ("x".to_string(), "y".to_string()));
}
