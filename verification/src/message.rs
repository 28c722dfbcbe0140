//! The message types delivered to clients, and their JSON wire form,
//! produced by a verified serializer: camelCase field names in declaration
//! order, strings escaped as `serde_json` escapes them.

use vstd::prelude::*;

use crate::emote::spec_join_comma;
use crate::emote::lemma_join_push;
use crate::text::push_all;
use crate::text::chars_to_string;
use crate::text::spec_dec_nat;
use crate::text::str_to_chars;
use crate::text::u64_to_chars;

verus! {

/// The hexadecimal digit character for `d`, lower case.
pub open spec fn spec_hex_digit(d: int) -> char {
    if d == 0 {
        '0'
    } else if d == 1 {
        '1'
    } else if d == 2 {
        '2'
    } else if d == 3 {
        '3'
    } else if d == 4 {
        '4'
    } else if d == 5 {
        '5'
    } else if d == 6 {
        '6'
    } else if d == 7 {
        '7'
    } else if d == 8 {
        '8'
    } else if d == 9 {
        '9'
    } else if d == 10 {
        'a'
    } else if d == 11 {
        'b'
    } else if d == 12 {
        'c'
    } else if d == 13 {
        'd'
    } else if d == 14 {
        'e'
    } else {
        'f'
    }
}

/// How one character appears inside a JSON string literal: quote,
/// backslash and the named control characters get two-character escapes,
/// any other control character a `\u00xx` escape, everything else stands
/// as itself.
pub open spec fn spec_esc_char(c: char) -> Seq<char> {
    if c == '"' {
        seq!['\\', '"']
    } else if c == '\\' {
        seq!['\\', '\\']
    } else if c == '\u{8}' {
        seq!['\\', 'b']
    } else if c == '\u{c}' {
        seq!['\\', 'f']
    } else if c == '\n' {
        seq!['\\', 'n']
    } else if c == '\r' {
        seq!['\\', 'r']
    } else if c == '\t' {
        seq!['\\', 't']
    } else if (c as u32) < 0x20 {
        seq!['\\', 'u', '0', '0', spec_hex_digit((c as u32 / 16) as int), spec_hex_digit(
            (c as u32 % 16) as int,
        )]
    } else {
        seq![c]
    }
}

/// A string's characters, each escaped for a JSON string literal.
pub open spec fn spec_json_escape(s: Seq<char>) -> Seq<char>
    decreases s.len(),
{
    if s.len() == 0 {
        Seq::empty()
    } else {
        spec_esc_char(s[0]) + spec_json_escape(s.drop_first())
    }
}

/// Escaping one more character appends its escape.
proof fn lemma_escape_push(s: Seq<char>, c: char)
    ensures
        spec_json_escape(s.push(c)) == spec_json_escape(s) + spec_esc_char(c),
    decreases s.len(),
{
    if s.len() == 0 {
        assert(s.push(c).drop_first() =~= Seq::<char>::empty());
        assert(spec_json_escape(Seq::<char>::empty()) == Seq::<char>::empty());
        assert(spec_json_escape(s.push(c)) =~= spec_json_escape(s) + spec_esc_char(c));
    } else {
        assert(s.push(c).drop_first() =~= s.drop_first().push(c));
        lemma_escape_push(s.drop_first(), c);
        assert(spec_json_escape(s.push(c)) =~= spec_json_escape(s) + spec_esc_char(c));
    }
}

/// A JSON string literal: the escaped characters between quotes.
pub open spec fn spec_json_string(s: Seq<char>) -> Seq<char> {
    "\""@ + spec_json_escape(s) + "\""@
}

fn hex_digit_char(d: u32) -> (c: char)
    requires
        d < 16,
    ensures
        c == spec_hex_digit(d as int),
{
    if d == 0 {
        '0'
    } else if d == 1 {
        '1'
    } else if d == 2 {
        '2'
    } else if d == 3 {
        '3'
    } else if d == 4 {
        '4'
    } else if d == 5 {
        '5'
    } else if d == 6 {
        '6'
    } else if d == 7 {
        '7'
    } else if d == 8 {
        '8'
    } else if d == 9 {
        '9'
    } else if d == 10 {
        'a'
    } else if d == 11 {
        'b'
    } else if d == 12 {
        'c'
    } else if d == 13 {
        'd'
    } else if d == 14 {
        'e'
    } else {
        'f'
    }
}

/// Appends one character's JSON escape.
fn push_escaped_char(out: &mut Vec<char>, c: char)
    ensures
        final(out)@ == old(out)@ + spec_esc_char(c),
{
    let u = c as u32;
    if c == '"' {
        out.push('\\');
        out.push('"');
    } else if c == '\\' {
        out.push('\\');
        out.push('\\');
    } else if u == 0x8 {
        out.push('\\');
        out.push('b');
    } else if u == 0xc {
        out.push('\\');
        out.push('f');
    } else if c == '\n' {
        out.push('\\');
        out.push('n');
    } else if c == '\r' {
        out.push('\\');
        out.push('r');
    } else if c == '\t' {
        out.push('\\');
        out.push('t');
    } else if u < 0x20 {
        out.push('\\');
        out.push('u');
        out.push('0');
        out.push('0');
        out.push(hex_digit_char(u / 16));
        out.push(hex_digit_char(u % 16));
    } else {
        out.push(c);
    }
    proof {
        assert(out@ =~= old(out)@ + spec_esc_char(c));
    }
}

/// Appends a string's characters unescaped.
fn push_str_chars(out: &mut Vec<char>, s: &str)
    ensures
        final(out)@ == old(out)@ + s@,
{
    let cs = str_to_chars(s);
    push_all(out, &cs);
}

/// Appends a string as a JSON string literal.
#[verifier::loop_isolation(false)]
fn push_json_string(out: &mut Vec<char>, s: &str)
    ensures
        final(out)@ == old(out)@ + spec_json_string(s@),
{
    proof {
        reveal_strlit("\"");
    }
    out.push('"');
    let cs = str_to_chars(s);
    let mut i: usize = 0;
    while i < cs.len()
        invariant
            i <= cs@.len(),
            out@ == old(out)@ + "\""@ + spec_json_escape(cs@.take(i as int)),
        decreases cs@.len() - i,
    {
        push_escaped_char(out, cs[i]);
        proof {
            assert(cs@.take(i + 1) =~= cs@.take(i as int).push(cs@[i as int]));
            lemma_escape_push(cs@.take(i as int), cs@[i as int]);
            assert(out@ =~= old(out)@ + "\""@ + spec_json_escape(cs@.take(i + 1)));
        }
        i = i + 1;
    }
    out.push('"');
    proof {
        assert(cs@.take(cs@.len() as int) =~= s@);
        assert(out@ =~= old(out)@ + spec_json_string(s@));
    }
}

/// Appends a byte's decimal digits.
fn push_u8_dec(out: &mut Vec<char>, n: u8)
    ensures
        final(out)@ == old(out)@ + spec_dec_nat(n as nat),
{
    let d = u64_to_chars(n as u64);
    push_all(out, &d);
}

/// One user's identity as delivered to clients.
#[derive(Debug, Clone)]
pub struct TwitchChatUser {
    pub user_id: String,
    /// The user's login name.
    pub user_name: String,
    /// The user's display name.
    pub display_name: String,
}

/// The mathematical value of a [`TwitchChatUser`].
#[verifier::ext_equal]
pub struct TwitchChatUserView {
    pub user_id: Seq<char>,
    pub user_name: Seq<char>,
    pub display_name: Seq<char>,
}

impl View for TwitchChatUser {
    type V = TwitchChatUserView;

    open spec fn view(&self) -> TwitchChatUserView {
        TwitchChatUserView {
            user_id: self.user_id@,
            user_name: self.user_name@,
            display_name: self.display_name@,
        }
    }
}

/// A normalized chat message as delivered to clients.
#[derive(Debug)]
pub struct TwitchChatMessage {
    pub msg_type: String,
    /// The channel name the message was sent in.
    pub channel: String,
    /// The channel id the message was sent in.
    pub channel_id: String,
    /// The user that sent the message.
    pub user: TwitchChatUser,
    /// The user's badges, as (name, version) pairs, in order.
    pub user_badges: Vec<(String, String)>,
    /// The sender's nickname color.
    pub nickname_color: (u8, u8, u8),
    /// The message body, emote tags inlined.
    pub message: String,
    pub message_id: String,
    pub server_timestamp: String,
}

/// The mathematical value of a [`TwitchChatMessage`].
#[verifier::ext_equal]
pub struct TwitchChatMessageView {
    pub msg_type: Seq<char>,
    pub channel: Seq<char>,
    pub channel_id: Seq<char>,
    pub user: TwitchChatUserView,
    pub user_badges: Seq<(Seq<char>, Seq<char>)>,
    pub nickname_color: (u8, u8, u8),
    pub message: Seq<char>,
    pub message_id: Seq<char>,
    pub server_timestamp: Seq<char>,
}

impl View for TwitchChatMessage {
    type V = TwitchChatMessageView;

    open spec fn view(&self) -> TwitchChatMessageView {
        TwitchChatMessageView {
            msg_type: self.msg_type@,
            channel: self.channel@,
            channel_id: self.channel_id@,
            user: self.user@,
            user_badges: Seq::new(
                self.user_badges@.len(),
                |i: int| (self.user_badges@[i].0@, self.user_badges@[i].1@),
            ),
            nickname_color: self.nickname_color,
            message: self.message@,
            message_id: self.message_id@,
            server_timestamp: self.server_timestamp@,
        }
    }
}

/// An out-of-band chat state change as delivered to clients.
#[derive(Debug, Clone)]
pub struct TwitchInstructionMessage {
    pub msg_type: String,
    pub msg_subtype: String,
    pub associated_id: String,
}

/// The mathematical value of a [`TwitchInstructionMessage`].
#[verifier::ext_equal]
pub struct TwitchInstructionMessageView {
    pub msg_type: Seq<char>,
    pub msg_subtype: Seq<char>,
    pub associated_id: Seq<char>,
}

impl View for TwitchInstructionMessage {
    type V = TwitchInstructionMessageView;

    open spec fn view(&self) -> TwitchInstructionMessageView {
        TwitchInstructionMessageView {
            msg_type: self.msg_type@,
            msg_subtype: self.msg_subtype@,
            associated_id: self.associated_id@,
        }
    }
}

/// The JSON form of a user: `{"userId":…,"userName":…,"displayName":…}`.
pub open spec fn spec_user_json(u: TwitchChatUserView) -> Seq<char> {
    "{\"userId\":"@ + spec_json_string(u.user_id) + ",\"userName\":"@ + spec_json_string(
        u.user_name,
    ) + ",\"displayName\":"@ + spec_json_string(u.display_name) + "}"@
}

/// The JSON form of one badge: a two-element array of name and version.
pub open spec fn spec_badge_json(b: (Seq<char>, Seq<char>)) -> Seq<char> {
    "["@ + spec_json_string(b.0) + ","@ + spec_json_string(b.1) + "]"@
}

/// The JSON form of a badge list: an array of two-element arrays.
pub open spec fn spec_badges_json(bs: Seq<(Seq<char>, Seq<char>)>) -> Seq<char> {
    "["@ + spec_join_comma(Seq::new(bs.len(), |i: int| spec_badge_json(bs[i]))) + "]"@
}

/// The JSON form of an RGB triple: a three-element array of decimals.
pub open spec fn spec_color_json(c: (u8, u8, u8)) -> Seq<char> {
    "["@ + spec_dec_nat(c.0 as nat) + ","@ + spec_dec_nat(c.1 as nat) + ","@ + spec_dec_nat(
        c.2 as nat,
    ) + "]"@
}

/// The JSON payload of a chat message, fields in declaration order.
pub open spec fn spec_chat_message_json(m: TwitchChatMessageView) -> Seq<char> {
    "{\"msgType\":"@ + spec_json_string(m.msg_type) + ",\"channel\":"@ + spec_json_string(m.channel)
        + ",\"channelId\":"@ + spec_json_string(m.channel_id) + ",\"user\":"@ + spec_user_json(
        m.user,
    ) + ",\"userBadges\":"@ + spec_badges_json(m.user_badges) + ",\"nicknameColor\":"@
        + spec_color_json(m.nickname_color) + ",\"message\":"@ + spec_json_string(m.message)
        + ",\"messageId\":"@ + spec_json_string(m.message_id) + ",\"serverTimestamp\":"@
        + spec_json_string(m.server_timestamp) + "}"@
}

/// The JSON payload of an instruction message.
pub open spec fn spec_instruction_json(m: TwitchInstructionMessageView) -> Seq<char> {
    "{\"msgType\":"@ + spec_json_string(m.msg_type) + ",\"msgSubtype\":"@ + spec_json_string(
        m.msg_subtype,
    ) + ",\"associatedId\":"@ + spec_json_string(m.associated_id) + "}"@
}

/// Appends a user's JSON object.
fn push_user_json(out: &mut Vec<char>, u: &TwitchChatUser)
    ensures
        final(out)@ == old(out)@ + spec_user_json(u@),
{
    push_str_chars(out, "{\"userId\":");
    push_json_string(out, u.user_id.as_str());
    push_str_chars(out, ",\"userName\":");
    push_json_string(out, u.user_name.as_str());
    push_str_chars(out, ",\"displayName\":");
    push_json_string(out, u.display_name.as_str());
    push_str_chars(out, "}");
    proof {
        assert(out@ =~= old(out)@ + spec_user_json(u@));
    }
}

/// Appends a badge list's JSON array.
#[verifier::loop_isolation(false)]
fn push_badges_json(out: &mut Vec<char>, badges: &Vec<(String, String)>)
    ensures
        final(out)@ == old(out)@ + spec_badges_json(
            Seq::new(badges@.len(), |i: int| (badges@[i].0@, badges@[i].1@)),
        ),
{
    let ghost bs = Seq::new(badges@.len(), |i: int| (badges@[i].0@, badges@[i].1@));
    let ghost items = Seq::new(bs.len(), |i: int| spec_badge_json(bs[i]));
    push_str_chars(out, "[");
    let mut i: usize = 0;
    while i < badges.len()
        invariant
            i <= bs.len(),
            bs.len() == badges@.len(),
            out@ == old(out)@ + "["@ + (if i == 0 {
                Seq::<char>::empty()
            } else {
                spec_join_comma(items.take(i as int))
            }),
        decreases bs.len() - i,
    {
        if i > 0 {
            push_str_chars(out, ",");
        }
        push_str_chars(out, "[");
        push_json_string(out, badges[i].0.as_str());
        push_str_chars(out, ",");
        push_json_string(out, badges[i].1.as_str());
        push_str_chars(out, "]");
        proof {
            assert(items.take(i + 1) =~= items.take(i as int).push(items[i as int]));
            lemma_join_push(items.take(i as int), items[i as int]);
            assert(items[i as int] == spec_badge_json(bs[i as int]));
            assert(bs[i as int] == (badges@[i as int].0@, badges@[i as int].1@));
            assert(out@ =~= old(out)@ + "["@ + spec_join_comma(items.take(i + 1)));
        }
        i = i + 1;
    }
    push_str_chars(out, "]");
    proof {
        assert(items.take(items.len() as int) =~= items);
        assert(out@ =~= old(out)@ + spec_badges_json(bs));
    }
}

/// Appends an RGB triple's JSON array.
fn push_color_json(out: &mut Vec<char>, c: (u8, u8, u8))
    ensures
        final(out)@ == old(out)@ + spec_color_json(c),
{
    push_str_chars(out, "[");
    push_u8_dec(out, c.0);
    push_str_chars(out, ",");
    push_u8_dec(out, c.1);
    push_str_chars(out, ",");
    push_u8_dec(out, c.2);
    push_str_chars(out, "]");
    proof {
        assert(out@ =~= old(out)@ + spec_color_json(c));
    }
}

impl TwitchChatMessage {
    /// Serializes the message to its JSON payload.
    pub fn to_json(&self) -> (r: String)
        ensures
            r@ == spec_chat_message_json(self@),
    {
        let mut out: Vec<char> = Vec::new();
        push_str_chars(&mut out, "{\"msgType\":");
        push_json_string(&mut out, self.msg_type.as_str());
        push_str_chars(&mut out, ",\"channel\":");
        push_json_string(&mut out, self.channel.as_str());
        push_str_chars(&mut out, ",\"channelId\":");
        push_json_string(&mut out, self.channel_id.as_str());
        push_str_chars(&mut out, ",\"user\":");
        push_user_json(&mut out, &self.user);
        push_str_chars(&mut out, ",\"userBadges\":");
        push_badges_json(&mut out, &self.user_badges);
        push_str_chars(&mut out, ",\"nicknameColor\":");
        push_color_json(&mut out, self.nickname_color);
        push_str_chars(&mut out, ",\"message\":");
        push_json_string(&mut out, self.message.as_str());
        push_str_chars(&mut out, ",\"messageId\":");
        push_json_string(&mut out, self.message_id.as_str());
        push_str_chars(&mut out, ",\"serverTimestamp\":");
        push_json_string(&mut out, self.server_timestamp.as_str());
        push_str_chars(&mut out, "}");
        proof {
            assert(out@ =~= spec_chat_message_json(self@));
        }
        chars_to_string(&out)
    }
}

impl TwitchInstructionMessage {
    /// Serializes the instruction to its JSON payload.
    pub fn to_json(&self) -> (r: String)
        ensures
            r@ == spec_instruction_json(self@),
    {
        let mut out: Vec<char> = Vec::new();
        push_str_chars(&mut out, "{\"msgType\":");
        push_json_string(&mut out, self.msg_type.as_str());
        push_str_chars(&mut out, ",\"msgSubtype\":");
        push_json_string(&mut out, self.msg_subtype.as_str());
        push_str_chars(&mut out, ",\"associatedId\":");
        push_json_string(&mut out, self.associated_id.as_str());
        push_str_chars(&mut out, "}");
        proof {
            assert(out@ =~= spec_instruction_json(self@));
        }
        chars_to_string(&out)
    }
}

} // verus!
