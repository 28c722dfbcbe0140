use orchid::message::TwitchChatMessage;
use orchid::message::TwitchChatUser;
use orchid::message::TwitchInstructionMessage;

fn sample_message() -> TwitchChatMessage {
    TwitchChatMessage {
        msg_type: String::from("PRIVMSG"),
        channel: String::from("chan"),
        channel_id: String::from("123"),
        user: TwitchChatUser {
            user_id: String::from("u1"),
            user_name: String::from("login"),
            display_name: String::from("Disp"),
        },
        user_badges: vec![
            (String::from("subscriber"), String::from("1")),
            (String::from("vip"), String::from("2")),
        ],
        nickname_color: (1, 22, 255),
        message: String::from("hi \"there\"\n"),
        message_id: String::from("m1"),
        server_timestamp: String::from("ts"),
    }
}

#[test]
fn chat_message_json_exact() {
    let j = sample_message().to_json();
    assert_eq!(
        j,
        "{\"msgType\":\"PRIVMSG\",\"channel\":\"chan\",\"channelId\":\"123\",\
         \"user\":{\"userId\":\"u1\",\"userName\":\"login\",\"displayName\":\"Disp\"},\
         \"userBadges\":[[\"subscriber\",\"1\"],[\"vip\",\"2\"]],\
         \"nicknameColor\":[1,22,255],\"message\":\"hi \\\"there\\\"\\n\",\
         \"messageId\":\"m1\",\"serverTimestamp\":\"ts\"}"
    );
}

#[test]
fn chat_message_json_parses_back() {
    let j = sample_message().to_json();
    let v: serde_json::Value = serde_json::from_str(&j).unwrap();
    assert_eq!(v["msgType"], "PRIVMSG");
    assert_eq!(v["channel"], "chan");
    assert_eq!(v["user"]["displayName"], "Disp");
    assert_eq!(v["userBadges"][1][0], "vip");
    assert_eq!(v["nicknameColor"][2], 255);
    assert_eq!(v["message"], "hi \"there\"\n");
    assert_eq!(v["serverTimestamp"], "ts");
}

#[test]
fn json_escapes_control_characters() {
    let mut m = sample_message();
    m.message = String::from("a\tb\u{1}c\\d");
    m.user_badges = vec![];
    let j = m.to_json();
    assert!(j.contains("\"message\":\"a\\tb\\u0001c\\\\d\""));
    assert!(j.contains("\"userBadges\":[]"));
    let v: serde_json::Value = serde_json::from_str(&j).unwrap();
    assert_eq!(v["message"], "a\tb\u{1}c\\d");
}

#[test]
fn instruction_json_exact() {
    let m = TwitchInstructionMessage {
        msg_type: String::from("CLEARCHAT"),
        msg_subtype: String::from("REMOVE_USER_MESSAGES"),
        associated_id: String::from("42"),
    };
    assert_eq!(
        m.to_json(),
        "{\"msgType\":\"CLEARCHAT\",\"msgSubtype\":\"REMOVE_USER_MESSAGES\",\"associatedId\":\"42\"}"
    );
}

#[test]
fn instruction_json_parses_back() {
    let m = TwitchInstructionMessage {
        msg_type: String::from("CLEARMSG"),
        msg_subtype: String::from("SINGLE"),
        associated_id: String::from("mid"),
    };
    let v: serde_json::Value = serde_json::from_str(&m.to_json()).unwrap();
    assert_eq!(v["msgSubtype"], "SINGLE");
    assert_eq!(v["associatedId"], "mid");
}
