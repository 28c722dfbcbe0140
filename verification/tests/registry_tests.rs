use orchid::err::OrchidError;
use orchid::manager::SubscriptionManager;
use orchid::ws::WebsocketCollection;
use orchid::ws::WebsocketState;
use orchid::ws::WsMessage;

type Rx = tokio::sync::mpsc::Receiver<WsMessage>;

fn conn(cap: usize) -> (WebsocketState, Rx) {
    let (tx, rx) = tokio::sync::mpsc::channel(cap);
    (WebsocketState::new(tx), rx)
}

fn text_of(m: WsMessage) -> String {
    match m {
        WsMessage::Text(s) => s,
        WsMessage::Binary(_) => panic!("expected a text message"),
    }
}

#[test]
fn unicast_reaches_the_client() {
    let mut reg = WebsocketCollection::new();
    let (st, mut rx) = conn(4);
    reg.add_handler("alice", "c1", st);
    reg.send_to_client("c1", WsMessage::Text(String::from("hi"))).unwrap();
    assert_eq!(text_of(rx.try_recv().unwrap()), "hi");
}

#[test]
fn unicast_to_unknown_id_fails() {
    let mut reg = WebsocketCollection::new();
    let r = reg.send_to_client("ghost", WsMessage::Text(String::from("hi")));
    assert!(matches!(r, Err(OrchidError::ConnectionNotFound(p)) if p == "ghost"));
}

#[test]
fn broadcast_attempts_every_connection_despite_failures() {
    let mut reg = WebsocketCollection::new();
    let (s1, mut r1) = conn(1);
    let (s2, mut r2) = conn(1);
    let (s3, mut r3) = conn(1);
    reg.add_handler("a", "c1", s1);
    reg.add_handler("b", "c2", s2);
    reg.add_handler("c", "c3", s3);
    // Fill the middle connection's queue so its delivery fails.
    reg.send_to_client("c2", WsMessage::Text(String::from("filler"))).unwrap();
    reg.broadcast_message(WsMessage::Text(String::from("all"))).unwrap();
    assert_eq!(text_of(r1.try_recv().unwrap()), "all");
    assert_eq!(text_of(r2.try_recv().unwrap()), "filler");
    assert!(r2.try_recv().is_err());
    assert_eq!(text_of(r3.try_recv().unwrap()), "all");
}

#[test]
fn multicast_stops_at_first_failure() {
    let mut reg = WebsocketCollection::new();
    let (s1, mut r1) = conn(1);
    let (s2, mut r2) = conn(4);
    reg.add_handler("alice", "a1", s1);
    reg.add_handler("alice", "a2", s2);
    // Fill the first connection's queue; its delivery fails and aborts
    // the fan-out before the second connection.
    reg.send_to_client("a1", WsMessage::Text(String::from("filler"))).unwrap();
    let r = reg.broadcast_message_to_user(&String::from("alice"), WsMessage::Text(String::from("m")));
    assert!(matches!(r, Err(OrchidError::TransportError(_))));
    assert_eq!(text_of(r1.try_recv().unwrap()), "filler");
    assert!(r2.try_recv().is_err());
}

#[test]
fn multicast_reaches_every_connection_of_the_name() {
    let mut reg = WebsocketCollection::new();
    let (s1, mut r1) = conn(4);
    let (s2, mut r2) = conn(4);
    reg.add_handler("alice", "a1", s1);
    reg.add_handler("alice", "a2", s2);
    reg.broadcast_message_to_user(&String::from("alice"), WsMessage::Text(String::from("m")))
        .unwrap();
    assert_eq!(text_of(r1.try_recv().unwrap()), "m");
    assert_eq!(text_of(r2.try_recv().unwrap()), "m");
}

#[test]
fn multicast_to_unknown_name_fails() {
    let mut reg = WebsocketCollection::new();
    let r = reg.broadcast_message_to_user(&String::from("ghost"), WsMessage::Text(String::new()));
    assert!(matches!(r, Err(OrchidError::UserNotFound(p)) if p == "ghost"));
}

#[test]
fn disconnect_tears_down_every_connection_of_the_name() {
    let mut reg = WebsocketCollection::new();
    let mut mgr = SubscriptionManager::new();
    let (s1, _r1) = conn(4);
    let (s2, _r2) = conn(4);
    let (s3, mut r3) = conn(4);
    reg.add_handler("alice", "a1", s1);
    reg.add_handler("alice", "a2", s2);
    reg.add_handler("bob", "b1", s3);
    mgr.subscribe(String::from("foo"), String::from("a1")).unwrap();
    mgr.subscribe(String::from("foo"), String::from("a2")).unwrap();
    mgr.subscribe(String::from("foo"), String::from("b1")).unwrap();
    mgr.subscribe(String::from("bar"), String::from("a2")).unwrap();

    reg.remove_handler(String::from("alice"), &mut mgr);

    // Both of alice's connections are gone from the registry...
    assert!(matches!(
        reg.send_to_client("a1", WsMessage::Text(String::new())),
        Err(OrchidError::ConnectionNotFound(_))
    ));
    assert!(matches!(
        reg.send_to_client("a2", WsMessage::Text(String::new())),
        Err(OrchidError::ConnectionNotFound(_))
    ));
    // ...and from every channel's subscriber set.
    assert_eq!(mgr.get_channel_subscribers("foo"), vec![String::from("b1")]);
    assert!(mgr.get_channel_subscribers("bar").is_empty());
    assert!(mgr.get_client_subscriptions("a1").is_empty());
    assert!(mgr.get_client_subscriptions("a2").is_empty());
    // The other user's connection still works.
    reg.send_to_client("b1", WsMessage::Text(String::from("still here"))).unwrap();
    assert_eq!(text_of(r3.try_recv().unwrap()), "still here");
}

#[test]
fn removing_an_unknown_name_changes_nothing() {
    let mut reg = WebsocketCollection::new();
    let mut mgr = SubscriptionManager::new();
    let (s1, mut r1) = conn(4);
    reg.add_handler("alice", "a1", s1);
    reg.remove_handler(String::from("ghost"), &mut mgr);
    reg.send_to_client("a1", WsMessage::Text(String::from("ok"))).unwrap();
    assert_eq!(text_of(r1.try_recv().unwrap()), "ok");
}
