//! The ingestion pipeline: normalized chat events arrive from the
//! transport, are converted to the relay's message types, enriched, and
//! dispatched to the channel's subscribers — a global subscriber widens
//! delivery to every registered connection. The registry's attempt log
//! records the payload each attempt carried, so the contracts here pin
//! both the audience and the serialized message delivered to it.

use vstd::prelude::*;

use crate::color::spec_username_color;
use crate::color::username_to_color;
use crate::emote::spec_enrichment_of;
use crate::emote::EmoteHandler;
use crate::manager::SubscriptionManager;
use crate::message::spec_chat_message_json;
use crate::message::spec_instruction_json;
use crate::message::TwitchChatMessage;
use crate::message::TwitchChatMessageView;
use crate::message::TwitchChatUser;
use crate::message::TwitchChatUserView;
use crate::message::TwitchInstructionMessage;
use crate::message::TwitchInstructionMessageView;
use crate::text::seq_unique;
use crate::text::vec_contains_str;
use crate::ws::attempt_ids;
use crate::ws::paired;
use crate::ws::WebsocketCollection;
use crate::ws::WsMessage;
use crate::ws::WsMessageView;

verus! {

/// A chat text event, as the transport reports it, in plain values.
#[derive(Debug, Clone)]
pub struct PrivmsgEvent {
    /// The channel name the message was sent in.
    pub channel: String,
    /// The channel id the message was sent in.
    pub channel_id: String,
    pub sender_id: String,
    /// The sender's login name.
    pub sender_login: String,
    /// The sender's display name.
    pub sender_name: String,
    /// The sender's badges, as (name, version) pairs.
    pub badges: Vec<(String, String)>,
    /// The sender's color, when the transport supplies one.
    pub name_color: Option<(u8, u8, u8)>,
    /// The raw message text.
    pub message_text: String,
    pub message_id: String,
    /// The server timestamp, already rendered as text.
    pub server_timestamp: String,
}

/// The mathematical value of a [`PrivmsgEvent`].
#[verifier::ext_equal]
pub struct PrivmsgEventView {
    pub channel: Seq<char>,
    pub channel_id: Seq<char>,
    pub sender_id: Seq<char>,
    pub sender_login: Seq<char>,
    pub sender_name: Seq<char>,
    pub badges: Seq<(Seq<char>, Seq<char>)>,
    pub name_color: Option<(u8, u8, u8)>,
    pub message_text: Seq<char>,
    pub message_id: Seq<char>,
    pub server_timestamp: Seq<char>,
}

impl View for PrivmsgEvent {
    type V = PrivmsgEventView;

    open spec fn view(&self) -> PrivmsgEventView {
        PrivmsgEventView {
            channel: self.channel@,
            channel_id: self.channel_id@,
            sender_id: self.sender_id@,
            sender_login: self.sender_login@,
            sender_name: self.sender_name@,
            badges: Seq::new(self.badges@.len(), |i: int| (self.badges@[i].0@, self.badges@[i].1@)),
            name_color: self.name_color,
            message_text: self.message_text@,
            message_id: self.message_id@,
            server_timestamp: self.server_timestamp@,
        }
    }
}

/// What a chat-cleared event clears.
#[derive(Debug, Clone)]
pub enum ClearAction {
    /// The whole chat was cleared.
    ChatCleared,
    /// A user was banned; their messages are to be removed.
    UserBanned { user_id: String },
    /// A user was timed out; their messages are to be removed.
    UserTimedOut { user_id: String },
}

/// The mathematical value of a [`ClearAction`].
pub enum ClearActionView {
    ChatCleared,
    UserBanned { user_id: Seq<char> },
    UserTimedOut { user_id: Seq<char> },
}

impl View for ClearAction {
    type V = ClearActionView;

    open spec fn view(&self) -> ClearActionView {
        match self {
            ClearAction::ChatCleared => ClearActionView::ChatCleared,
            ClearAction::UserBanned { user_id } => ClearActionView::UserBanned {
                user_id: user_id@,
            },
            ClearAction::UserTimedOut { user_id } => ClearActionView::UserTimedOut {
                user_id: user_id@,
            },
        }
    }
}

/// One normalized event from the chat transport.
#[derive(Debug, Clone)]
pub enum ChatEvent {
    /// A chat text message.
    Privmsg(PrivmsgEvent),
    /// Chat state was cleared in a channel.
    ClearChat { channel: String, action: ClearAction },
    /// A single message was deleted in a channel.
    ClearMsg { channel: String, message_id: String },
    /// A server notice; logged by the caller, never dispatched.
    Notice { channel: String, text: String },
    /// Any other event; ignored.
    Other,
}

/// The normalized message for a chat text event, with `body` as its
/// message text: fields carried over, and a sender without an explicit
/// color colored deterministically from their login name.
pub open spec fn spec_normalized(ev: PrivmsgEventView, body: Seq<char>) -> TwitchChatMessageView {
    TwitchChatMessageView {
        msg_type: "PRIVMSG"@,
        channel: ev.channel,
        channel_id: ev.channel_id,
        user: TwitchChatUserView {
            user_id: ev.sender_id,
            user_name: ev.sender_login,
            display_name: ev.sender_name,
        },
        user_badges: ev.badges,
        nickname_color: match ev.name_color {
            Some(c) => c,
            None => spec_username_color(ev.sender_login),
        },
        message: body,
        message_id: ev.message_id,
        server_timestamp: ev.server_timestamp,
    }
}

/// The instruction a chat-cleared event turns into: clear-all for a
/// cleared chat, remove-user-messages (with the user's id) for both a ban
/// and a timeout.
pub open spec fn spec_clear_instruction(a: ClearActionView) -> TwitchInstructionMessageView {
    match a {
        ClearActionView::ChatCleared => TwitchInstructionMessageView {
            msg_type: "CLEARCHAT"@,
            msg_subtype: "CLEAR_CHAT"@,
            associated_id: ""@,
        },
        ClearActionView::UserBanned { user_id } => TwitchInstructionMessageView {
            msg_type: "CLEARCHAT"@,
            msg_subtype: "REMOVE_USER_MESSAGES"@,
            associated_id: user_id,
        },
        ClearActionView::UserTimedOut { user_id } => TwitchInstructionMessageView {
            msg_type: "CLEARCHAT"@,
            msg_subtype: "REMOVE_USER_MESSAGES"@,
            associated_id: user_id,
        },
    }
}

/// The instruction a single-message deletion turns into.
pub open spec fn spec_clearmsg_instruction(message_id: Seq<char>) -> TwitchInstructionMessageView {
    TwitchInstructionMessageView {
        msg_type: "CLEARMSG"@,
        msg_subtype: "SINGLE"@,
        associated_id: message_id,
    }
}

/// Copies a badge list.
fn clone_badges(badges: &Vec<(String, String)>) -> (r: Vec<(String, String)>)
    ensures
        r@.len() == badges@.len(),
        forall|i: int|
            0 <= i < badges@.len() ==> (#[trigger] r@[i].0)@ == badges@[i].0@ && r@[i].1@
                == badges@[i].1@,
{
    let mut r: Vec<(String, String)> = Vec::new();
    let mut i: usize = 0;
    while i < badges.len()
        invariant
            i <= badges@.len(),
            r@.len() == i,
            forall|j: int|
                0 <= j < i ==> (#[trigger] r@[j].0)@ == badges@[j].0@ && r@[j].1@ == badges@[j].1@,
        decreases badges@.len() - i,
    {
        r.push((badges[i].0.clone(), badges[i].1.clone()));
        i = i + 1;
    }
    r
}

/// Normalizes a chat text event into the relay's message type; the body
/// is still the raw text, enrichment happens afterwards.
pub fn to_chat_message(ev: &PrivmsgEvent) -> (m: TwitchChatMessage)
    ensures
        m@ == spec_normalized(ev@, ev.message_text@),
{
    let nickname_color: (u8, u8, u8) = match &ev.name_color {
        Some(c) => (c.0, c.1, c.2),
        None => username_to_color(ev.sender_login.as_str()),
    };
    let m = TwitchChatMessage {
        msg_type: String::from_str("PRIVMSG"),
        channel: ev.channel.clone(),
        channel_id: ev.channel_id.clone(),
        user: TwitchChatUser {
            user_id: ev.sender_id.clone(),
            user_name: ev.sender_login.clone(),
            display_name: ev.sender_name.clone(),
        },
        user_badges: clone_badges(&ev.badges),
        nickname_color,
        message: ev.message_text.clone(),
        message_id: ev.message_id.clone(),
        server_timestamp: ev.server_timestamp.clone(),
    };
    proof {
        assert(m@.user_badges =~= ev@.badges);
        assert(m@ =~~= spec_normalized(ev@, ev.message_text@));
    }
    m
}

/// The subscriber ids, in order, that have a live connection: the ids a
/// non-global dispatch attempts delivery to.
pub open spec fn spec_delivered(subs: Seq<Seq<char>>, conns: Seq<Seq<char>>) -> Seq<Seq<char>>
    decreases subs.len(),
{
    if subs.len() == 0 {
        Seq::empty()
    } else {
        (if conns.contains(subs[0]) {
            seq![subs[0]]
        } else {
            Seq::empty()
        }) + spec_delivered(subs.drop_first(), conns)
    }
}

/// What the delivery list holds: exactly the listed subscribers that are
/// connected, without duplicates when the subscriber list has none.
pub proof fn lemma_delivered_props(subs: Seq<Seq<char>>, conns: Seq<Seq<char>>)
    ensures
        forall|x: Seq<char>|
            #[trigger] spec_delivered(subs, conns).contains(x) <==> (subs.contains(x)
                && conns.contains(x)),
        seq_unique(subs) ==> seq_unique(spec_delivered(subs, conns)),
    decreases subs.len(),
{
    if subs.len() == 0 {
    } else {
        let rest = subs.drop_first();
        lemma_delivered_props(rest, conns);
        let head = if conns.contains(subs[0]) {
            seq![subs[0]]
        } else {
            Seq::<Seq<char>>::empty()
        };
        let d = spec_delivered(subs, conns);
        assert(d == head + spec_delivered(rest, conns));
        assert forall|x: Seq<char>| #[trigger] d.contains(x) implies (subs.contains(x)
            && conns.contains(x)) by {
            let k = choose|k: int| 0 <= k < d.len() && d[k] == x;
            if k < head.len() {
                assert(x == subs[0]);
            } else {
                assert(spec_delivered(rest, conns)[k - head.len()] == x);
                assert(spec_delivered(rest, conns).contains(x));
                let k2 = choose|k2: int| 0 <= k2 < rest.len() && rest[k2] == x;
                assert(subs[k2 + 1] == x);
            }
        }
        assert forall|x: Seq<char>| subs.contains(x) && conns.contains(x) implies #[trigger] d.contains(
            x,
        ) by {
            let k = choose|k: int| 0 <= k < subs.len() && subs[k] == x;
            if k == 0 {
                assert(d[0] == x);
            } else {
                assert(rest[k - 1] == x);
                assert(rest.contains(x));
                assert(spec_delivered(rest, conns).contains(x));
                let k2 = choose|k2: int|
                    0 <= k2 < spec_delivered(rest, conns).len() && spec_delivered(rest, conns)[k2]
                        == x;
                assert(d[head.len() + k2] == x);
            }
        }
        if seq_unique(subs) {
            assert(seq_unique(rest)) by {
                assert forall|a: int, b: int| 0 <= a < b < rest.len() implies rest[a] != rest[b] by {
                    assert(subs[a + 1] == rest[a] && subs[b + 1] == rest[b]);
                }
            }
            assert forall|a: int, b: int| 0 <= a < b < d.len() implies d[a] != d[b] by {
                if a < head.len() {
                    assert(d[a] == subs[0]);
                    assert(spec_delivered(rest, conns)[b - head.len()] == d[b]);
                    assert(spec_delivered(rest, conns).contains(d[b]));
                    assert(rest.contains(d[b]));
                    let k2 = choose|k2: int| 0 <= k2 < rest.len() && rest[k2] == d[b];
                    assert(subs[k2 + 1] == d[b]);
                } else {
                    assert(spec_delivered(rest, conns)[a - head.len()] == d[a]);
                    assert(spec_delivered(rest, conns)[b - head.len()] == d[b]);
                }
            }
        }
    }
}

/// Appending one subscriber extends the delivery list by it exactly when
/// it is connected.
proof fn lemma_delivered_push(subs: Seq<Seq<char>>, conns: Seq<Seq<char>>, x: Seq<char>)
    ensures
        spec_delivered(subs.push(x), conns) == spec_delivered(subs, conns) + (if conns.contains(x) {
            seq![x]
        } else {
            Seq::<Seq<char>>::empty()
        }),
    decreases subs.len(),
{
    if subs.len() == 0 {
        assert(subs.push(x).drop_first() =~= Seq::<Seq<char>>::empty());
        assert(spec_delivered(Seq::<Seq<char>>::empty(), conns) == Seq::<Seq<char>>::empty());
        assert(subs =~= Seq::<Seq<char>>::empty());
        assert(spec_delivered(subs.push(x), conns) =~= spec_delivered(subs, conns) + (
        if conns.contains(x) {
            seq![x]
        } else {
            Seq::<Seq<char>>::empty()
        }));
    } else {
        assert(subs.push(x).drop_first() =~= subs.drop_first().push(x));
        lemma_delivered_push(subs.drop_first(), conns, x);
        assert(spec_delivered(subs.push(x), conns) =~= spec_delivered(subs, conns) + (
        if conns.contains(x) {
            seq![x]
        } else {
            Seq::<Seq<char>>::empty()
        }));
    }
}

/// Dispatches one serialized payload to a resolved subscriber list: the
/// reserved subscriber `"global"` widens delivery to every registered
/// connection; otherwise each listed subscriber with a live connection
/// gets a delivery attempt, in list order. Per-client failures are
/// swallowed. Every attempt carries the given payload.
#[verifier::loop_isolation(false)]
pub fn send_twitchchat_msg_to_subscribers(
    state: &mut WebsocketCollection,
    subscribers: &Vec<String>,
    json: String,
)
    requires
        old(state).wf(),
    ensures
        final(state).wf(),
        final(state).ids() == old(state).ids(),
        forall|n: Seq<char>|
            #[trigger] final(state).ids_of_name(n) == old(state).ids_of_name(n),
        forall|n: Seq<char>| #[trigger] final(state).knows_name(n) == old(state).knows_name(n),
        subscribers.deep_view().contains("global"@) ==> final(state).attempts_log() == old(
            state,
        ).attempts_log() + paired(old(state).ids(), WsMessageView::Text(json@)),
        !subscribers.deep_view().contains("global"@) ==> final(state).attempts_log() == old(
            state,
        ).attempts_log() + paired(
            spec_delivered(subscribers.deep_view(), old(state).ids()),
            WsMessageView::Text(json@),
        ),
{
    let ghost payload = WsMessageView::Text(json@);
    if vec_contains_str(subscribers, "global") {
        let _ = state.broadcast_message(WsMessage::Text(json));
    } else {
        let ghost subs_v = subscribers.deep_view();
        let mut i: usize = 0;
        proof {
            assert(paired(spec_delivered(subs_v.take(0), old(state).ids()), payload) =~= Seq::<(
                Seq<char>,
                WsMessageView,
            )>::empty());
            assert(state.attempts_log() =~= old(state).attempts_log() + paired(
                spec_delivered(subs_v.take(0), old(state).ids()),
                payload,
            ));
        }
        while i < subscribers.len()
            invariant
                i <= subs_v.len(),
                subs_v.len() == subscribers@.len(),
                state.wf(),
                state.ids() == old(state).ids(),
                forall|n: Seq<char>|
                    #[trigger] state.ids_of_name(n) == old(state).ids_of_name(n),
                forall|n: Seq<char>| #[trigger] state.knows_name(n) == old(state).knows_name(n),
                state.attempts_log() == old(state).attempts_log() + paired(
                    spec_delivered(subs_v.take(i as int), old(state).ids()),
                    payload,
                ),
            decreases subs_v.len() - i,
        {
            let ghost id = subs_v[i as int];
            let ghost pre = state.attempts_log();
            let m = WsMessage::Text(json.clone());
            proof {
                assert(m@ == payload);
            }
            let _ = state.send_to_client(subscribers[i].as_str(), m);
            proof {
                assert(subs_v.take(i + 1) =~= subs_v.take(i as int).push(id));
                lemma_delivered_push(subs_v.take(i as int), old(state).ids(), id);
                if old(state).ids().contains(id) {
                    assert(state.attempts_log() =~= pre.push((id, payload)));
                    assert(old(state).attempts_log() + paired(
                        spec_delivered(subs_v.take(i + 1), old(state).ids()),
                        payload,
                    ) =~= pre.push((id, payload)));
                } else {
                    assert(old(state).attempts_log() + paired(
                        spec_delivered(subs_v.take(i + 1), old(state).ids()),
                        payload,
                    ) =~= pre);
                }
            }
            i = i + 1;
        }
        proof {
            assert(subs_v.take(subs_v.len() as int) =~= subs_v);
        }
    }
}

/// The state after a dispatch of `payload` for a channel: when the
/// channel has the global subscriber, every registered connection got one
/// attempt carrying the payload, in registration order; otherwise exactly
/// the channel's connected subscribers each got one attempt carrying the
/// payload.
pub open spec fn dispatched_to_channel(
    pre_log: Seq<(Seq<char>, WsMessageView)>,
    post_log: Seq<(Seq<char>, WsMessageView)>,
    conns: Seq<Seq<char>>,
    targets: Set<Seq<char>>,
    payload: Seq<char>,
) -> bool {
    if targets.contains("global"@) {
        post_log == pre_log + paired(conns, WsMessageView::Text(payload))
    } else {
        post_log.len() >= pre_log.len() && post_log.take(pre_log.len() as int) == pre_log
            && seq_unique(attempt_ids(post_log.skip(pre_log.len() as int))) && (forall|x: Seq<char>|
            #[trigger] attempt_ids(post_log.skip(pre_log.len() as int)).contains(x) <==> (
            targets.contains(x) && conns.contains(x))) && (forall|k: int|
            0 <= k < post_log.skip(pre_log.len() as int).len() ==> (#[trigger] post_log.skip(
                pre_log.len() as int,
            )[k]).1 == WsMessageView::Text(payload))
    }
}

/// Consumes one normalized chat event. A text message is normalized,
/// enriched and serialized, and that payload is dispatched to the
/// originating channel's subscribers; clear events become instruction
/// payloads for the same audience; notices and unknown events are not
/// dispatched.
pub fn handle_chat_event(
    event: &ChatEvent,
    subs: &SubscriptionManager,
    emotes: &mut EmoteHandler,
    state: &mut WebsocketCollection,
)
    requires
        subs.wf(),
        old(state).wf(),
    ensures
        final(state).wf(),
        final(state).ids() == old(state).ids(),
        forall|n: Seq<char>|
            #[trigger] final(state).ids_of_name(n) == old(state).ids_of_name(n),
        forall|n: Seq<char>| #[trigger] final(state).knows_name(n) == old(state).knows_name(n),
        match event {
            ChatEvent::Privmsg(p) => (exists|body: Seq<char>|
                #[trigger] spec_enrichment_of(body, p.message_text@) && dispatched_to_channel(
                    old(state).attempts_log(),
                    final(state).attempts_log(),
                    old(state).ids(),
                    subs.subscribers_of(p.channel@),
                    spec_chat_message_json(spec_normalized(p@, body)),
                )),
            ChatEvent::ClearChat { channel, action } => dispatched_to_channel(
                old(state).attempts_log(),
                final(state).attempts_log(),
                old(state).ids(),
                subs.subscribers_of(channel@),
                spec_instruction_json(spec_clear_instruction(action@)),
            ),
            ChatEvent::ClearMsg { channel, message_id } => dispatched_to_channel(
                old(state).attempts_log(),
                final(state).attempts_log(),
                old(state).ids(),
                subs.subscribers_of(channel@),
                spec_instruction_json(spec_clearmsg_instruction(message_id@)),
            ),
            ChatEvent::Notice { .. } => final(state).attempts_log() == old(state).attempts_log(),
            ChatEvent::Other => final(state).attempts_log() == old(state).attempts_log(),
        },
{
    match event {
        ChatEvent::Privmsg(p) => {
            let subscribers = subs.get_channel_subscribers(p.channel.as_str());
            let mut msg = to_chat_message(p);
            let enriched = emotes.process_message_with_emotes(
                msg.message.as_str(),
                msg.user.user_name.as_str(),
                msg.channel.as_str(),
            );
            let ghost body = enriched@;
            proof {
                assert(spec_enrichment_of(body, p.message_text@));
            }
            msg.message = enriched;
            proof {
                assert(msg@ =~~= spec_normalized(p@, body));
            }
            let json = msg.to_json();
            dispatch_for_channel(state, &subscribers, json, Ghost(subs.subscribers_of(p.channel@)));
        },
        ChatEvent::ClearChat { channel, action } => {
            let obj = match action {
                ClearAction::ChatCleared => TwitchInstructionMessage {
                    msg_type: String::from_str("CLEARCHAT"),
                    msg_subtype: String::from_str("CLEAR_CHAT"),
                    associated_id: String::from_str(""),
                },
                ClearAction::UserBanned { user_id } => TwitchInstructionMessage {
                    msg_type: String::from_str("CLEARCHAT"),
                    msg_subtype: String::from_str("REMOVE_USER_MESSAGES"),
                    associated_id: user_id.clone(),
                },
                ClearAction::UserTimedOut { user_id } => TwitchInstructionMessage {
                    msg_type: String::from_str("CLEARCHAT"),
                    msg_subtype: String::from_str("REMOVE_USER_MESSAGES"),
                    associated_id: user_id.clone(),
                },
            };
            proof {
                assert(obj@ =~~= spec_clear_instruction(action@));
            }
            let subscribers = subs.get_channel_subscribers(channel.as_str());
            let json = obj.to_json();
            dispatch_for_channel(state, &subscribers, json, Ghost(subs.subscribers_of(channel@)));
        },
        ChatEvent::ClearMsg { channel, message_id } => {
            let obj = TwitchInstructionMessage {
                msg_type: String::from_str("CLEARMSG"),
                msg_subtype: String::from_str("SINGLE"),
                associated_id: message_id.clone(),
            };
            proof {
                assert(obj@ =~~= spec_clearmsg_instruction(message_id@));
            }
            let subscribers = subs.get_channel_subscribers(channel.as_str());
            let json = obj.to_json();
            dispatch_for_channel(state, &subscribers, json, Ghost(subs.subscribers_of(channel@)));
        },
        ChatEvent::Notice { .. } => {},
        ChatEvent::Other => {},
    }
}

/// Dispatches a payload to a subscriber snapshot known to name exactly
/// the channel's subscribers.
#[verifier::loop_isolation(false)]
fn dispatch_for_channel(
    state: &mut WebsocketCollection,
    subscribers: &Vec<String>,
    json: String,
    Ghost(targets): Ghost<Set<Seq<char>>>,
)
    requires
        old(state).wf(),
        seq_unique(subscribers.deep_view()),
        forall|s: Seq<char>|
            #[trigger] subscribers.deep_view().contains(s) <==> targets.contains(s),
    ensures
        final(state).wf(),
        final(state).ids() == old(state).ids(),
        forall|n: Seq<char>|
            #[trigger] final(state).ids_of_name(n) == old(state).ids_of_name(n),
        forall|n: Seq<char>| #[trigger] final(state).knows_name(n) == old(state).knows_name(n),
        dispatched_to_channel(
            old(state).attempts_log(),
            final(state).attempts_log(),
            old(state).ids(),
            targets,
            json@,
        ),
{
    let ghost subs_v = subscribers.deep_view();
    let ghost payload = WsMessageView::Text(json@);
    send_twitchchat_msg_to_subscribers(state, subscribers, json);
    proof {
        if targets.contains("global"@) {
            assert(subs_v.contains("global"@));
        } else {
            assert(!subs_v.contains("global"@));
            let d = spec_delivered(subs_v, old(state).ids());
            lemma_delivered_props(subs_v, old(state).ids());
            assert(state.attempts_log() == old(state).attempts_log() + paired(d, payload));
            assert(state.attempts_log().take(old(state).attempts_log().len() as int)
                =~= old(state).attempts_log());
            assert(state.attempts_log().skip(old(state).attempts_log().len() as int) =~= paired(
                d,
                payload,
            ));
            assert(attempt_ids(paired(d, payload)) =~= d);
        }
    }
}

} // verus!
