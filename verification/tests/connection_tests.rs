use orchid::connection::echo_reply;
use orchid::connection::ConnectionPhase;
use orchid::err::OrchidError;

#[test]
fn echo_command_yields_the_remainder() {
    assert_eq!(echo_reply("echo hi"), Some(String::from(" hi")));
    assert_eq!(echo_reply("echoecho"), Some(String::from("echo")));
    assert_eq!(echo_reply("echo"), Some(String::from("")));
}

#[test]
fn other_text_yields_nothing() {
    assert_eq!(echo_reply("hello"), None);
    assert_eq!(echo_reply("ech"), None);
    assert_eq!(echo_reply(" echo x"), None);
    assert_eq!(echo_reply(""), None);
}

#[test]
fn lifecycle_moves_forward_only() {
    let p = ConnectionPhase::Upgrading;
    let p = p.step();
    assert_eq!(p, ConnectionPhase::Active);
    let p = p.step();
    assert_eq!(p, ConnectionPhase::Closed);
    assert_eq!(p.step(), ConnectionPhase::Closed);
}

#[test]
fn error_status_codes() {
    assert_eq!(OrchidError::TransportError(String::new()).http_status(), 502);
    assert_eq!(OrchidError::ConnectionNotFound(String::new()).http_status(), 503);
    assert_eq!(OrchidError::ChannelError(String::new()).http_status(), 400);
    assert_eq!(OrchidError::AuthError(String::new()).http_status(), 401);
    assert_eq!(OrchidError::UserNotFound(String::new()).http_status(), 500);
    assert_eq!(OrchidError::ConfigError(String::new()).http_status(), 500);
    assert_eq!(OrchidError::Unknown(String::new()).http_status(), 500);
}

#[test]
fn error_messages() {
    let e = OrchidError::UserNotFound(String::from("alice"));
    assert_eq!(e.summary(), "Internal server error");
    assert_eq!(e.detail(), "User not found: alice");
    let e = OrchidError::TransportError(String::from("boom"));
    assert_eq!(e.summary(), "Failed to validate with Twitch");
    assert_eq!(e.detail(), "Chat transport error: boom");
}
