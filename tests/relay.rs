use relay_chat::history::History;
use relay_chat::lifecycle::{Inbound, Outcome};
use relay_chat::registry::{Connection, Registry};
use relay_chat::relay::Relay;
use tokio::sync::mpsc::{unbounded_channel, UnboundedReceiver};
use warp::ws::Message;

fn drain(rx: &mut UnboundedReceiver<Message>) -> Vec<String> {
    let mut out = Vec::new();
    while let Ok(m) = rx.try_recv() {
        out.push(m.to_str().expect("a text frame").to_string());
    }
    out
}

fn texts(v: &[&str]) -> Vec<String> {
    v.iter().map(|s| s.to_string()).collect()
}

fn send_all(relay: &mut Relay, msgs: &[&str]) {
    for m in msgs {
        relay.broadcast(m.to_string());
    }
}

#[test]
fn history_keeps_the_most_recent() {
    let mut h = History::new(3);
    for m in ["a", "b", "c", "d"] {
        h.append(m.to_string());
        assert!(h.len() <= h.limit());
    }
    assert_eq!(h.snapshot(), texts(&["b", "c", "d"]));
}

#[test]
fn history_of_one() {
    let mut h = History::new(1);
    assert!(h.snapshot().is_empty());
    h.append("a".to_string());
    h.append("b".to_string());
    assert_eq!(h.snapshot(), texts(&["b"]));
}

#[test]
fn relay_history_is_bounded() {
    let mut relay = Relay::new(3);
    send_all(&mut relay, &["a", "b", "c", "d"]);
    assert_eq!(relay.history_snapshot(), texts(&["b", "c", "d"]));
}

#[test]
fn joiner_gets_history_then_live() {
    let mut relay = Relay::new(5);
    send_all(&mut relay, &["a", "b", "c"]);
    let (tx, mut rx) = unbounded_channel();
    let (id, refused) = relay.join(tx);
    assert_eq!(refused, 0);
    assert!(relay.is_registered(id));
    relay.broadcast("d".to_string());
    assert_eq!(drain(&mut rx), texts(&["a", "b", "c", "d"]));
}

#[test]
fn joiner_gets_only_the_window() {
    let mut relay = Relay::new(2);
    send_all(&mut relay, &["a", "b", "c"]);
    let (tx, mut rx) = unbounded_channel();
    relay.join(tx);
    assert_eq!(drain(&mut rx), texts(&["b", "c"]));
}

#[test]
fn nothing_is_delivered_twice() {
    let mut relay = Relay::new(3);
    let (tx_a, mut rx_a) = unbounded_channel();
    relay.join(tx_a);
    send_all(&mut relay, &["a", "b"]);
    let (tx_b, mut rx_b) = unbounded_channel();
    relay.join(tx_b);
    send_all(&mut relay, &["c", "d", "e"]);
    assert_eq!(drain(&mut rx_a), texts(&["a", "b", "c", "d", "e"]));
    assert_eq!(drain(&mut rx_b), texts(&["a", "b", "c", "d", "e"]));
}

#[test]
fn closed_queue_does_not_stop_others() {
    let mut relay = Relay::new(3);
    let (tx_a, rx_a) = unbounded_channel();
    let (tx_b, mut rx_b) = unbounded_channel();
    let (a, _) = relay.join(tx_a);
    let (b, _) = relay.join(tx_b);
    drop(rx_a);
    let refused = relay.broadcast("x".to_string());
    assert_eq!(refused, vec![a]);
    assert!(relay.is_registered(a));
    assert!(relay.is_registered(b));
    assert_eq!(drain(&mut rx_b), texts(&["x"]));
}

#[test]
fn broadcast_reaches_everyone_once() {
    let mut relay = Relay::new(4);
    let mut rxs = Vec::new();
    for _ in 0..3 {
        let (tx, rx) = unbounded_channel();
        relay.join(tx);
        rxs.push(rx);
    }
    assert_eq!(relay.connection_count(), 3);
    let refused = relay.broadcast("x".to_string());
    assert!(refused.is_empty());
    for rx in rxs.iter_mut() {
        assert_eq!(drain(rx), texts(&["x"]));
    }
    assert_eq!(relay.history_snapshot(), texts(&["x"]));
}

#[test]
fn closed_connection_is_deregistered() {
    let mut relay = Relay::new(3);
    let (tx_a, mut rx_a) = unbounded_channel();
    let (tx_b, mut rx_b) = unbounded_channel();
    let (a, _) = relay.join(tx_a);
    let (b, _) = relay.join(tx_b);
    assert!(relay.receive(a, Inbound::Closed).is_end());
    assert!(!relay.is_registered(a));
    assert_eq!(relay.connection_count(), 1);
    relay.broadcast("y".to_string());
    assert!(drain(&mut rx_a).is_empty());
    assert_eq!(drain(&mut rx_b), texts(&["y"]));
    assert!(relay.is_registered(b));
}

#[test]
fn read_error_deregisters() {
    let mut relay = Relay::new(3);
    let (tx, _rx) = unbounded_channel();
    let (a, _) = relay.join(tx);
    assert!(matches!(relay.receive(a, Inbound::ReadFailed), Outcome::Ended));
    assert!(!relay.is_registered(a));
    relay.leave(a);
    assert_eq!(relay.connection_count(), 0);
}

#[test]
fn text_is_relayed_and_other_frames_dropped() {
    let mut relay = Relay::new(3);
    let (tx_a, mut rx_a) = unbounded_channel();
    let (tx_b, mut rx_b) = unbounded_channel();
    let (a, _) = relay.join(tx_a);
    relay.join(tx_b);
    let out = relay.receive(a, Inbound::Text("hello".to_string()));
    assert!(matches!(out, Outcome::Relayed(ref r) if r.is_empty()));
    let out = relay.receive(a, Inbound::Other);
    assert!(matches!(out, Outcome::Dropped));
    assert!(!out.is_end());
    assert_eq!(drain(&mut rx_a), texts(&["hello"]));
    assert_eq!(drain(&mut rx_b), texts(&["hello"]));
    assert_eq!(relay.history_snapshot(), texts(&["hello"]));
}

#[test]
fn identities_are_distinct() {
    let mut relay = Relay::new(1);
    let (tx_a, _ra) = unbounded_channel();
    let (tx_b, _rb) = unbounded_channel();
    let (a, _) = relay.join(tx_a);
    let (b, _) = relay.join(tx_b);
    assert_ne!(a, b);
    assert_eq!(relay.connection_count(), 2);
}

#[test]
fn connection_offer_and_replay() {
    let (tx, mut rx) = unbounded_channel();
    let mut conn = Connection::with_id(7, tx);
    assert_eq!(conn.id(), 7);
    assert!(conn.offer("hi"));
    let mut h = History::new(2);
    h.append("p".to_string());
    h.append("q".to_string());
    assert_eq!(conn.replay(&h), 0);
    assert_eq!(drain(&mut rx), texts(&["hi", "p", "q"]));
    drop(rx);
    assert!(!conn.offer("gone"));
    assert_eq!(conn.replay(&h), 2);
}

#[test]
fn registry_register_broadcast_deregister() {
    let mut reg = Registry::new();
    let (tx1, mut rx1) = unbounded_channel();
    let (tx2, rx2) = unbounded_channel();
    reg.register(Connection::with_id(1, tx1));
    reg.register(Connection::with_id(2, tx2));
    assert_eq!(reg.len(), 2);
    drop(rx2);
    assert_eq!(reg.broadcast("m"), vec![2]);
    reg.deregister(2);
    reg.deregister(2);
    assert!(!reg.contains(2));
    assert!(reg.contains(1));
    assert!(reg.broadcast("n").is_empty());
    assert_eq!(drain(&mut rx1), texts(&["m", "n"]));
}
