use orchid::chat::handle_chat_event;
use orchid::chat::to_chat_message;
use orchid::chat::ChatEvent;
use orchid::chat::ClearAction;
use orchid::chat::PrivmsgEvent;
use orchid::emote::EmoteHandler;
use orchid::manager::SubscriptionManager;
use orchid::ws::WebsocketCollection;
use orchid::ws::WebsocketState;
use orchid::ws::WsMessage;

type Rx = tokio::sync::mpsc::Receiver<WsMessage>;

fn conn(cap: usize) -> (WebsocketState, Rx) {
    let (tx, rx) = tokio::sync::mpsc::channel(cap);
    (WebsocketState::new(tx), rx)
}

fn text_of(m: WsMessage) -> String {
    match m {
        WsMessage::Text(s) => s,
        WsMessage::Binary(_) => panic!("expected a text message"),
    }
}

fn privmsg(channel: &str, body: &str) -> PrivmsgEvent {
    PrivmsgEvent {
        channel: String::from(channel),
        channel_id: String::from("42"),
        sender_id: String::from("u9"),
        sender_login: String::from("alice"),
        sender_name: String::from("Alice"),
        badges: vec![(String::from("vip"), String::from("1"))],
        name_color: None,
        message_text: String::from(body),
        message_id: String::from("m1"),
        server_timestamp: String::from("ts"),
    }
}

#[test]
fn conversion_fills_fields_and_derives_color() {
    let m = to_chat_message(&privmsg("chan", "hello"));
    assert_eq!(m.msg_type, "PRIVMSG");
    assert_eq!(m.channel, "chan");
    assert_eq!(m.user.display_name, "Alice");
    // No explicit color: the deterministic color of the login name.
    assert_eq!(m.nickname_color, (232, 98, 98));
    assert_eq!(m.user_badges, vec![(String::from("vip"), String::from("1"))]);
}

#[test]
fn conversion_keeps_an_explicit_color() {
    let mut ev = privmsg("chan", "hello");
    ev.name_color = Some((9, 8, 7));
    assert_eq!(to_chat_message(&ev).nickname_color, (9, 8, 7));
}

#[test]
fn global_subscriber_widens_delivery_to_everyone() {
    let mut reg = WebsocketCollection::new();
    let mut mgr = SubscriptionManager::new();
    let mut emotes = EmoteHandler::new();
    let (s1, mut r1) = conn(4);
    let (s2, mut r2) = conn(4);
    reg.add_handler("alice", "a1", s1);
    reg.add_handler("bob", "b1", s2);
    mgr.subscribe(String::from("ch1"), String::from("global")).unwrap();

    handle_chat_event(&ChatEvent::Privmsg(privmsg("ch1", "hey")), &mgr, &mut emotes, &mut reg);

    let j1 = text_of(r1.try_recv().unwrap());
    let j2 = text_of(r2.try_recv().unwrap());
    assert_eq!(j1, j2);
    let v: serde_json::Value = serde_json::from_str(&j1).unwrap();
    assert_eq!(v["msgType"], "PRIVMSG");
    assert_eq!(v["channel"], "ch1");
    assert_eq!(v["message"], "hey");
}

#[test]
fn unrelated_channels_are_never_delivered() {
    let mut reg = WebsocketCollection::new();
    let mut mgr = SubscriptionManager::new();
    let mut emotes = EmoteHandler::new();
    let (s1, mut r1) = conn(4);
    let (s2, mut r2) = conn(4);
    reg.add_handler("alice", "a1", s1);
    reg.add_handler("bob", "b1", s2);
    mgr.subscribe(String::from("bar"), String::from("a1")).unwrap();
    mgr.subscribe(String::from("foo"), String::from("b1")).unwrap();

    handle_chat_event(&ChatEvent::Privmsg(privmsg("bar", "only a")), &mgr, &mut emotes, &mut reg);

    let v: serde_json::Value = serde_json::from_str(&text_of(r1.try_recv().unwrap())).unwrap();
    assert_eq!(v["channel"], "bar");
    // b1 subscribes only "foo": a message on "bar" never reaches it.
    assert!(r2.try_recv().is_err());
}

#[test]
fn clear_chat_ban_becomes_an_instruction() {
    let mut reg = WebsocketCollection::new();
    let mut mgr = SubscriptionManager::new();
    let mut emotes = EmoteHandler::new();
    let (s1, mut r1) = conn(4);
    reg.add_handler("alice", "a1", s1);
    mgr.subscribe(String::from("ch"), String::from("a1")).unwrap();

    let ev = ChatEvent::ClearChat {
        channel: String::from("ch"),
        action: ClearAction::UserBanned { user_id: String::from("u77") },
    };
    handle_chat_event(&ev, &mgr, &mut emotes, &mut reg);

    let j = text_of(r1.try_recv().unwrap());
    assert_eq!(
        j,
        "{\"msgType\":\"CLEARCHAT\",\"msgSubtype\":\"REMOVE_USER_MESSAGES\",\"associatedId\":\"u77\"}"
    );
}

#[test]
fn clear_chat_all_becomes_a_clear_all_instruction() {
    let mut reg = WebsocketCollection::new();
    let mut mgr = SubscriptionManager::new();
    let mut emotes = EmoteHandler::new();
    let (s1, mut r1) = conn(4);
    reg.add_handler("alice", "a1", s1);
    mgr.subscribe(String::from("ch"), String::from("a1")).unwrap();

    let ev = ChatEvent::ClearChat { channel: String::from("ch"), action: ClearAction::ChatCleared };
    handle_chat_event(&ev, &mgr, &mut emotes, &mut reg);

    let j = text_of(r1.try_recv().unwrap());
    assert_eq!(
        j,
        "{\"msgType\":\"CLEARCHAT\",\"msgSubtype\":\"CLEAR_CHAT\",\"associatedId\":\"\"}"
    );
}

#[test]
fn clear_msg_names_the_deleted_message() {
    let mut reg = WebsocketCollection::new();
    let mut mgr = SubscriptionManager::new();
    let mut emotes = EmoteHandler::new();
    let (s1, mut r1) = conn(4);
    reg.add_handler("alice", "a1", s1);
    mgr.subscribe(String::from("ch"), String::from("a1")).unwrap();

    let ev = ChatEvent::ClearMsg { channel: String::from("ch"), message_id: String::from("m9") };
    handle_chat_event(&ev, &mgr, &mut emotes, &mut reg);

    let j = text_of(r1.try_recv().unwrap());
    assert_eq!(j, "{\"msgType\":\"CLEARMSG\",\"msgSubtype\":\"SINGLE\",\"associatedId\":\"m9\"}");
}

#[test]
fn notices_are_never_dispatched() {
    let mut reg = WebsocketCollection::new();
    let mgr = SubscriptionManager::new();
    let mut emotes = EmoteHandler::new();
    let (s1, mut r1) = conn(4);
    reg.add_handler("alice", "a1", s1);

    let ev = ChatEvent::Notice { channel: String::from("ch"), text: String::from("maintenance") };
    handle_chat_event(&ev, &mgr, &mut emotes, &mut reg);
    handle_chat_event(&ChatEvent::Other, &mgr, &mut emotes, &mut reg);
    assert!(r1.try_recv().is_err());
}
