use orchid::err::OrchidError;
use orchid::manager::ChatClient;
use orchid::manager::SubscriptionManager;

fn has(v: &Vec<String>, x: &str) -> bool {
    v.iter().any(|s| s == x)
}

#[test]
fn subscribe_registers_both_directions() {
    let mut m = SubscriptionManager::new();
    m.subscribe(String::from("chan"), String::from("c1")).unwrap();
    assert!(has(&m.get_channel_subscribers("chan"), "c1"));
    assert!(has(&m.get_client_subscriptions("c1"), "chan"));
}

#[test]
fn subscribe_is_idempotent() {
    let mut m = SubscriptionManager::new();
    m.subscribe(String::from("chan"), String::from("c1")).unwrap();
    m.subscribe(String::from("chan"), String::from("c1")).unwrap();
    assert_eq!(m.get_channel_subscribers("chan").len(), 1);
    assert_eq!(m.get_client_subscriptions("c1").len(), 1);
}

#[test]
fn unsubscribe_removes_and_is_idempotent() {
    let mut m = SubscriptionManager::new();
    m.subscribe(String::from("chan"), String::from("c1")).unwrap();
    m.subscribe(String::from("chan"), String::from("c2")).unwrap();
    m.unsubscribe("chan", "c1");
    m.unsubscribe("chan", "c1");
    assert!(!has(&m.get_channel_subscribers("chan"), "c1"));
    assert!(has(&m.get_channel_subscribers("chan"), "c2"));
    assert!(m.get_client_subscriptions("c1").is_empty());
}

#[test]
fn unknown_channel_yields_empty_snapshot() {
    let m = SubscriptionManager::new();
    assert!(m.get_channel_subscribers("nope").is_empty());
    assert!(m.get_client_subscriptions("nobody").is_empty());
}

#[test]
fn remove_subscriber_clears_every_channel() {
    let mut m = SubscriptionManager::new();
    m.subscribe(String::from("a"), String::from("c1")).unwrap();
    m.subscribe(String::from("b"), String::from("c1")).unwrap();
    m.subscribe(String::from("b"), String::from("c2")).unwrap();
    m.remove_client("c1");
    assert!(m.get_client_subscriptions("c1").is_empty());
    assert!(m.get_channel_subscribers("a").is_empty());
    assert_eq!(m.get_channel_subscribers("b"), vec![String::from("c2")]);
}

#[test]
fn global_is_a_subscriber_like_any_other() {
    let mut m = SubscriptionManager::new();
    m.subscribe(String::from("somebody"), String::from("global")).unwrap();
    assert!(has(&m.get_channel_subscribers("somebody"), "global"));
    assert!(has(&m.get_client_subscriptions("global"), "somebody"));
}

#[test]
fn join_is_validated_by_the_transport() {
    let rt = tokio::runtime::Runtime::new().unwrap();
    let guard = rt.enter();
    let config = twitch_irc::ClientConfig::default();
    let (_incoming, client) = twitch_irc::TwitchIRCClient::<
        twitch_irc::SecureTCPTransport,
        twitch_irc::login::StaticLoginCredentials,
    >::new(config);
    let mut m = SubscriptionManager::new();
    m.set_chat_client(ChatClient { inner: client });
    // A fresh channel with a valid login name is joined without error.
    assert!(m.subscribe(String::from("validchannel"), String::from("c1")).is_ok());
    // A second subscriber causes no second join and no error.
    assert!(m.subscribe(String::from("validchannel"), String::from("c2")).is_ok());
    // An invalid channel login surfaces the transport error, yet the
    // subscription stays registered.
    let r = m.subscribe(String::from("Bad Channel!"), String::from("c1"));
    assert!(matches!(r, Err(OrchidError::TransportError(_))));
    assert!(has(&m.get_channel_subscribers("Bad Channel!"), "c1"));
    // Emptying a channel issues the best-effort part without error.
    m.unsubscribe("validchannel", "c1");
    m.unsubscribe("validchannel", "c2");
    assert!(m.get_channel_subscribers("validchannel").is_empty());
    drop(guard);
}
