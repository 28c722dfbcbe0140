//! The subscription manager: a bidirectional channel ⟷ subscriber index
//! whose empty/non-empty transitions drive join and part requests against
//! the external chat transport.
//!
//! A subscriber is a client id, or the reserved name `"global"` standing
//! for every connected client. The two index directions are kept
//! consistent, entries are dropped as soon as their sets empty, and a
//! ghost log of the join and part requests handed to the transport client
//! witnesses that each channel is joined exactly once per empty→non-empty
//! transition and parted exactly once per non-empty→empty transition.

use vstd::prelude::*;

use vstd::hash_map::StringHashMap;

use crate::err::OrchidError;
use crate::text::clone_string_vec;
use crate::text::lemma_push_contains;
use crate::text::lemma_push_unique;
use crate::text::lemma_unique_remove_contains;
use crate::text::seq_unique;
use crate::text::vec_contains_str;
use crate::text::vec_find_str;

verus! {

/// One (channel, subscriber) association.
#[derive(Debug, Clone)]
pub struct ChannelSubscription {
    pub channel_name: String,
    /// A client id, or `"global"` if the subscription is global.
    pub client_id: String,
}

/// The chat transport handle the manager issues join and part requests
/// on: a `TwitchIRCClient` over a secure TCP transport. The crate's
/// generic client type cannot be declared to the verifier (its parameters
/// are bound by the crate's own traits), so the concrete handle is held
/// opaquely.
#[verifier::external_body]
pub struct ChatClient {
    /// The underlying transport client.
    pub inner: twitch_irc::TwitchIRCClient<
        twitch_irc::transport::tcp::TCPTransport<twitch_irc::transport::tcp::TLS>,
        twitch_irc::login::StaticLoginCredentials,
    >,
}

/// A character allowed in a Twitch channel login: `a-z`, `0-9` or `_`.
pub open spec fn valid_login_char(c: char) -> bool {
    let u = c as u32;
    (0x61 <= u && u <= 0x7a) || (0x30 <= u && u <= 0x39) || u == 0x5f
}

/// A well-formed Twitch channel login: 1 to 25 allowed characters.
pub open spec fn valid_channel_login(s: Seq<char>) -> bool {
    1 <= s.len() <= 25 && (forall|i: int| 0 <= i < s.len() ==> valid_login_char(s[i]))
}

/// Relies on `TwitchIRCClient::join`: it returns an error exactly when the
/// channel login fails validation (it must be 1 to 25 characters of
/// `a-z`, `0-9`, `_`), and otherwise queues a JOIN request.
#[verifier::external_body]
fn chat_join(client: &ChatClient, channel: String) -> (r: Result<(), OrchidError>)
    ensures
        r is Ok <==> valid_channel_login(channel@),
        r is Err ==> (match r {
            Err(OrchidError::TransportError(_)) => true,
            _ => false,
        }),
{
    match client.inner.join(channel) {
        Ok(()) => Ok(()),
        Err(e) => Err(OrchidError::TransportError(e.to_string())),
    }
}

/// Relies on `TwitchIRCClient::part`: it queues a PART request and cannot
/// fail, so nothing is promised.
#[verifier::external_body]
fn chat_part(client: &ChatClient, channel: String) {
    client.inner.part(channel);
}

/// The bidirectional subscription index together with the chat transport
/// handle it drives.
pub struct SubscriptionManager {
    /// channel → subscriber ids, each entry non-empty and duplicate-free.
    subscriptions: StringHashMap<Vec<String>>,
    /// subscriber id → channels, each entry non-empty and duplicate-free.
    client_channels: StringHashMap<Vec<String>>,
    /// The transport to join and part channels on, once attached.
    chat_client: Option<ChatClient>,
    /// The channels named in join requests issued so far, in order.
    joins: Ghost<Seq<Seq<char>>>,
    /// The channels named in part requests issued so far, in order.
    parts: Ghost<Seq<Seq<char>>>,
}

/// The map holds key `k` and its entry contains `v`.
pub open spec fn map_has(m: Map<Seq<char>, Vec<String>>, k: Seq<char>, v: Seq<char>) -> bool {
    m.contains_key(k) && m[k].deep_view().contains(v)
}

/// Every entry of the index is non-empty and free of duplicates.
pub open spec fn entries_ok(m: Map<Seq<char>, Vec<String>>) -> bool {
    forall|k: Seq<char>|
        #[trigger] m.contains_key(k) ==> m[k].deep_view().len() > 0 && seq_unique(
            m[k].deep_view(),
        )
}

/// How often channel `c` occurs in a request log.
pub open spec fn count_of(log: Seq<Seq<char>>, c: Seq<char>) -> nat
    decreases log.len(),
{
    if log.len() == 0 {
        0
    } else {
        count_of(log.drop_last(), c) + (if log.last() == c {
            1nat
        } else {
            0nat
        })
    }
}

/// Appending one request to a log raises exactly that channel's count.
pub proof fn lemma_count_push(log: Seq<Seq<char>>, x: Seq<char>, c: Seq<char>)
    ensures
        count_of(log.push(x), c) == count_of(log, c) + (if x == c {
            1int
        } else {
            0int
        }),
{
    assert(log.push(x).drop_last() =~= log);
}

/// After inserting an entry whose members are the old entry's members
/// plus `x`, the map's associations grow by exactly (k, x).
proof fn lemma_insert_extends(m: Map<Seq<char>, Vec<String>>, k: Seq<char>, v: Vec<String>, x: Seq<char>)
    requires
        forall|y: Seq<char>|
            #[trigger] v.deep_view().contains(y) <==> ((m.contains_key(k)
                && m[k].deep_view().contains(y)) || y == x),
    ensures
        forall|c: Seq<char>, s: Seq<char>|
            #![trigger map_has(m.insert(k, v), c, s)]
            map_has(m.insert(k, v), c, s) <==> (map_has(m, c, s) || (c == k && s == x)),
{
    assert forall|c: Seq<char>, s: Seq<char>|
        #![trigger map_has(m.insert(k, v), c, s)]
        map_has(m.insert(k, v), c, s) <==> (map_has(m, c, s) || (c == k && s == x)) by {
        if c == k {
            assert(m.insert(k, v)[c] == v);
        } else {
            assert(m.insert(k, v).contains_key(c) == m.contains_key(c));
            if m.contains_key(c) {
                assert(m.insert(k, v)[c] == m[c]);
            }
        }
    }
}

/// After inserting an entry whose members are the old entry's members
/// except `x`, the map's associations shrink by exactly (k, x).
proof fn lemma_insert_shrinks(m: Map<Seq<char>, Vec<String>>, k: Seq<char>, v: Vec<String>, x: Seq<char>)
    requires
        forall|y: Seq<char>|
            #[trigger] v.deep_view().contains(y) <==> (m.contains_key(k)
                && m[k].deep_view().contains(y) && y != x),
    ensures
        forall|c: Seq<char>, s: Seq<char>|
            #![trigger map_has(m.insert(k, v), c, s)]
            map_has(m.insert(k, v), c, s) <==> (map_has(m, c, s) && !(c == k && s == x)),
{
    assert forall|c: Seq<char>, s: Seq<char>|
        #![trigger map_has(m.insert(k, v), c, s)]
        map_has(m.insert(k, v), c, s) <==> (map_has(m, c, s) && !(c == k && s == x)) by {
        if c == k {
            assert(m.insert(k, v)[c] == v);
        } else {
            assert(m.insert(k, v).contains_key(c) == m.contains_key(c));
            if m.contains_key(c) {
                assert(m.insert(k, v)[c] == m[c]);
            }
        }
    }
}

/// After removing key `k` whose entry held exactly `x`, the map's
/// associations shrink by exactly (k, x).
proof fn lemma_remove_sole(m: Map<Seq<char>, Vec<String>>, k: Seq<char>, x: Seq<char>)
    requires
        m.contains_key(k),
        forall|y: Seq<char>| #[trigger] m[k].deep_view().contains(y) <==> y == x,
    ensures
        forall|c: Seq<char>, s: Seq<char>|
            #![trigger map_has(m.remove(k), c, s)]
            map_has(m.remove(k), c, s) <==> (map_has(m, c, s) && !(c == k && s == x)),
{
    assert forall|c: Seq<char>, s: Seq<char>|
        #![trigger map_has(m.remove(k), c, s)]
        map_has(m.remove(k), c, s) <==> (map_has(m, c, s) && !(c == k && s == x)) by {
        if c != k {
            assert(m.remove(k).contains_key(c) == m.contains_key(c));
            if m.contains_key(c) {
                assert(m.remove(k)[c] == m[c]);
            }
        }
    }
}

/// After a subscribe — which adds the pair (c, s) to the registered
/// associations — channel `c`'s subscriber set contains `s`, subscriber
/// `s`'s channel set contains `c`, and no other association moves.
pub proof fn lemma_subscribe_registers(
    before: SubscriptionManager,
    after: SubscriptionManager,
    c: Seq<char>,
    s: Seq<char>,
)
    requires
        after.pairs() == before.pairs().insert((c, s)),
    ensures
        after.subscribers_of(c).contains(s),
        after.channels_of(s).contains(c),
        forall|c2: Seq<char>, s2: Seq<char>|
            (c2, s2) != (c, s) ==> (#[trigger] after.pairs().contains((c2, s2))
                <==> before.pairs().contains((c2, s2))),
{
}

/// After an unsubscribe — which removes the pair (c, s) from the
/// registered associations — channel `c`'s subscriber set no longer
/// contains `s`, nor `s`'s channel set `c`, and no other association
/// moves.
pub proof fn lemma_unsubscribe_deregisters(
    before: SubscriptionManager,
    after: SubscriptionManager,
    c: Seq<char>,
    s: Seq<char>,
)
    requires
        after.pairs() == before.pairs().remove((c, s)),
    ensures
        !after.subscribers_of(c).contains(s),
        !after.channels_of(s).contains(c),
        forall|c2: Seq<char>, s2: Seq<char>|
            (c2, s2) != (c, s) ==> (#[trigger] after.pairs().contains((c2, s2))
                <==> before.pairs().contains((c2, s2))),
{
}

/// Subscribing, or unsubscribing, the same pair twice leaves the same
/// associations as doing it once: both operations are idempotent.
pub proof fn lemma_subscription_idempotent(m: SubscriptionManager, c: Seq<char>, s: Seq<char>)
    ensures
        m.pairs().insert((c, s)).insert((c, s)) == m.pairs().insert((c, s)),
        m.pairs().remove((c, s)).remove((c, s)) == m.pairs().remove((c, s)),
{
    assert(m.pairs().insert((c, s)).insert((c, s)) =~= m.pairs().insert((c, s)));
    assert(m.pairs().remove((c, s)).remove((c, s)) =~= m.pairs().remove((c, s)));
}

/// While a channel keeps subscribers, exactly one join request for it is
/// outstanding: the join count exceeds the part count by one exactly when
/// the channel has subscribers, and matches it otherwise.
pub proof fn lemma_join_part_balance(m: SubscriptionManager, c: Seq<char>)
    requires
        m.wf(),
        m.has_client(),
    ensures
        m.has_subscribers(c) ==> m.join_count(c) == m.part_count(c) + 1,
        !m.has_subscribers(c) ==> m.join_count(c) == m.part_count(c),
{
}

/// A channel counts as having subscribers exactly when some subscriber is
/// in its set.
pub proof fn lemma_has_subscribers_iff(m: SubscriptionManager, c: Seq<char>)
    requires
        m.wf(),
    ensures
        m.has_subscribers(c) <==> (exists|y: Seq<char>| #[trigger] m.subscribers_of(c).contains(y)),
{
    if m.has_subscribers(c) {
        assert(m.subscriptions@.contains_key(c));
        assert(m.subscriptions@[c].deep_view().len() > 0);
        let y0 = m.subscriptions@[c].deep_view()[0];
        assert(m.subscriptions@[c].deep_view().contains(y0));
        assert(map_has(m.subscriptions@, c, y0));
        assert(m.subscribers_of(c).contains(y0));
    }
    if exists|y: Seq<char>| #[trigger] m.subscribers_of(c).contains(y) {
        let y = choose|y: Seq<char>| #[trigger] m.subscribers_of(c).contains(y);
        assert(map_has(m.subscriptions@, c, y));
    }
}

/// Removing a subscriber leaves its channel set empty and removes it from
/// every channel's subscriber set, touching no other subscriber.
pub proof fn lemma_remove_subscriber_clears(
    before: SubscriptionManager,
    after: SubscriptionManager,
    s: Seq<char>,
)
    requires
        after.pairs() == Set::new(
            |p: (Seq<char>, Seq<char>)| before.pairs().contains(p) && p.1 != s,
        ),
    ensures
        after.channels_of(s) == Set::<Seq<char>>::empty(),
        forall|c: Seq<char>| !(#[trigger] after.subscribers_of(c).contains(s)),
        forall|c: Seq<char>, s2: Seq<char>|
            s2 != s ==> (#[trigger] after.subscribers_of(c).contains(s2)
                <==> before.subscribers_of(c).contains(s2)),
{
    assert(after.channels_of(s) =~= Set::<Seq<char>>::empty());
}

/// Removes `member` from the entry of `key`, dropping the entry when it
/// empties. Returns whether the entry was dropped.
fn index_remove(map: &mut StringHashMap<Vec<String>>, key: &str, member: &str) -> (became_empty:
    bool)
    requires
        entries_ok(old(map)@),
    ensures
        entries_ok(final(map)@),
        forall|a: Seq<char>, b: Seq<char>|
            #![trigger map_has(final(map)@, a, b)]
            map_has(final(map)@, a, b) <==> (map_has(old(map)@, a, b) && !(a == key@ && b
                == member@)),
        forall|a: Seq<char>|
            #[trigger] final(map)@.contains_key(a) <==> (old(map)@.contains_key(a) && !(a == key@
                && became_empty)),
        became_empty <==> (map_has(old(map)@, key@, member@) && (forall|y: Seq<char>|
            #[trigger] old(map)@[key@].deep_view().contains(y) ==> y == member@)),
{
    let ghost m_old = map@;
    let entry_opt: Option<Vec<String>> = match map.get(key) {
        Some(v) => Some(clone_string_vec(v)),
        None => None,
    };
    match entry_opt {
        None => {
            proof {
                assert(!m_old.contains_key(key@));
                assert forall|a: Seq<char>, b: Seq<char>|
                    #![trigger map_has(map@, a, b)]
                    map_has(map@, a, b) <==> (map_has(m_old, a, b) && !(a == key@ && b
                        == member@)) by {
                    if a == key@ {
                        assert(!map_has(m_old, a, b));
                    }
                }
            }
            false
        },
        Some(mut subs) => {
            let ghost entry_old = subs.deep_view();
            proof {
                assert(m_old.contains_key(key@) && entry_old == m_old[key@].deep_view());
            }
            match vec_find_str(&subs, member) {
                None => {
                    proof {
                        assert(!entry_old.contains(member@));
                        assert forall|a: Seq<char>, b: Seq<char>|
                            #![trigger map_has(map@, a, b)]
                            map_has(map@, a, b) <==> (map_has(m_old, a, b) && !(a == key@ && b
                                == member@)) by {}
                    }
                    false
                },
                Some(i) => {
                    proof {
                        assert(entry_old[i as int] == member@);
                        lemma_unique_remove_contains(entry_old, i as int, member@);
                    }
                    subs.remove(i);
                    proof {
                        assert(subs.deep_view() =~= entry_old.remove(i as int));
                    }
                    if subs.len() == 0 {
                        map.remove(key);
                        proof {
                            assert forall|y: Seq<char>| #[trigger]
                                entry_old.contains(y) implies y == member@ by {
                                assert(entry_old.remove(i as int).len() == 0);
                                let k = choose|k: int| 0 <= k < entry_old.len() && entry_old[k]
                                    == y;
                                assert(entry_old.len() == 1);
                                assert(k == i);
                            }
                            assert(entry_old.contains(member@));
                            lemma_remove_sole(m_old, key@, member@);
                        }
                        true
                    } else {
                        map.insert(String::from_str(key), subs);
                        proof {
                            lemma_insert_shrinks(m_old, key@, subs, member@);
                            assert(map_has(m_old, key@, member@));
                            assert(entry_old.remove(i as int).len() > 0);
                            let y0 = entry_old.remove(i as int)[0];
                            assert(entry_old.remove(i as int).contains(y0));
                            assert(entry_old.contains(y0) && y0 != member@);
                        }
                        false
                    }
                },
            }
        },
    }
}

impl SubscriptionManager {
    /// The channel has subscriber `s`, per the forward index.
    pub closed spec fn fwd_has(self, c: Seq<char>, s: Seq<char>) -> bool {
        map_has(self.subscriptions@, c, s)
    }

    /// Subscriber `s` has channel `c`, per the reverse index.
    pub closed spec fn rev_has(self, s: Seq<char>, c: Seq<char>) -> bool {
        map_has(self.client_channels@, s, c)
    }

    /// Every (channel, subscriber) association currently registered.
    pub closed spec fn pairs(self) -> Set<(Seq<char>, Seq<char>)> {
        Set::new(|p: (Seq<char>, Seq<char>)| map_has(self.subscriptions@, p.0, p.1))
    }

    /// The subscribers of a channel.
    pub open spec fn subscribers_of(self, c: Seq<char>) -> Set<Seq<char>> {
        Set::new(|s: Seq<char>| self.pairs().contains((c, s)))
    }

    /// The channels a subscriber is part of.
    pub open spec fn channels_of(self, s: Seq<char>) -> Set<Seq<char>> {
        Set::new(|c: Seq<char>| self.pairs().contains((c, s)))
    }

    /// The channel currently has at least one subscriber.
    pub closed spec fn has_subscribers(self, c: Seq<char>) -> bool {
        self.subscriptions@.contains_key(c)
    }

    /// A chat transport handle is attached.
    pub closed spec fn has_client(self) -> bool {
        self.chat_client is Some
    }

    /// The channels named by the join requests issued so far, in order.
    pub closed spec fn joins_log(self) -> Seq<Seq<char>> {
        self.joins@
    }

    /// The channels named by the part requests issued so far, in order.
    pub closed spec fn parts_log(self) -> Seq<Seq<char>> {
        self.parts@
    }

    /// How many join requests have been issued for channel `c`.
    pub open spec fn join_count(self, c: Seq<char>) -> nat {
        count_of(self.joins_log(), c)
    }

    /// How many part requests have been issued for channel `c`.
    pub open spec fn part_count(self, c: Seq<char>) -> nat {
        count_of(self.parts_log(), c)
    }

    /// `s` is the only subscriber of `c`.
    pub open spec fn sole_subscriber(self, c: Seq<char>, s: Seq<char>) -> bool {
        self.subscribers_of(c) =~= Set::empty().insert(s)
    }

    /// The two index directions agree, entries are non-empty and
    /// duplicate-free, and the join/part log balances against the set of
    /// currently subscribed channels.
    pub closed spec fn wf(self) -> bool {
        &&& entries_ok(self.subscriptions@)
        &&& entries_ok(self.client_channels@)
        &&& (forall|c: Seq<char>, s: Seq<char>|
            #![trigger map_has(self.subscriptions@, c, s)]
            #![trigger map_has(self.client_channels@, s, c)]
            (map_has(self.subscriptions@, c, s) <==> map_has(self.client_channels@, s, c)))
        &&& (self.has_client() ==> forall|c: Seq<char>|
            #![trigger count_of(self.joins@, c)]
            #![trigger count_of(self.parts@, c)]
            #![trigger self.subscriptions@.contains_key(c)]
            count_of(self.joins@, c) == count_of(self.parts@, c) + (
            if self.subscriptions@.contains_key(c) {
                1int
            } else {
                0int
            }))
        &&& (!self.has_client() ==> self.joins@.len() == 0 && self.parts@.len() == 0)
    }

    /// A fresh manager: no subscriptions, no transport, no requests issued.
    pub fn new() -> (m: SubscriptionManager)
        ensures
            m.wf(),
            !m.has_client(),
            m.pairs() == Set::<(Seq<char>, Seq<char>)>::empty(),
            forall|c: Seq<char>| !(#[trigger] m.has_subscribers(c)),
            m.joins_log() == Seq::<Seq<char>>::empty(),
            m.parts_log() == Seq::<Seq<char>>::empty(),
    {
        let m = SubscriptionManager {
            subscriptions: StringHashMap::new(),
            client_channels: StringHashMap::new(),
            chat_client: None,
            joins: Ghost(Seq::empty()),
            parts: Ghost(Seq::empty()),
        };
        proof {
            assert(m.pairs() =~= Set::<(Seq<char>, Seq<char>)>::empty());
            assert forall|c: Seq<char>| !(#[trigger] m.has_subscribers(c)) by {
                assert(!m.subscriptions@.contains_key(c));
            }
        }
        m
    }

    /// Attaches the chat transport handle. Must happen before any
    /// subscription exists, so that join requests are never skipped.
    pub fn set_chat_client(&mut self, client: ChatClient)
        requires
            old(self).wf(),
            !old(self).has_client(),
            forall|c: Seq<char>| !(#[trigger] old(self).has_subscribers(c)),
        ensures
            final(self).wf(),
            final(self).has_client(),
            final(self).pairs() == old(self).pairs(),
            forall|c: Seq<char>| !(#[trigger] final(self).has_subscribers(c)),
            final(self).joins_log() == old(self).joins_log(),
            final(self).parts_log() == old(self).parts_log(),
    {
        self.chat_client = Some(client);
        proof {
            assert(self.pairs() =~= old(self).pairs());
            assert forall|c: Seq<char>|
                count_of(self.joins@, c) == count_of(self.parts@, c) + (
                if self.subscriptions@.contains_key(c) {
                    1int
                } else {
                    0int
                }) by {
                assert(self.joins@ =~= Seq::<Seq<char>>::empty());
                assert(self.parts@ =~= Seq::<Seq<char>>::empty());
                assert(!old(self).has_subscribers(c));
            }
            assert forall|c: Seq<char>| !(#[trigger] self.has_subscribers(c)) by {
                assert(!old(self).has_subscribers(c));
            }
        }
    }

    /// Adds the pair (channel, subscriber) to both index directions,
    /// idempotently. When this takes the channel from empty to non-empty
    /// and a transport is attached, one join request is issued; a join
    /// refused for an invalid channel login is surfaced as a transport
    /// error without rolling the registered subscription back.
    pub fn subscribe(&mut self, channel: String, client_id: String) -> (r: Result<(), OrchidError>)
        requires
            old(self).wf(),
        ensures
            final(self).wf(),
            final(self).has_client() == old(self).has_client(),
            final(self).pairs() == old(self).pairs().insert((channel@, client_id@)),
            forall|c: Seq<char>|
                #[trigger] final(self).has_subscribers(c) <==> (old(self).has_subscribers(c) || c
                    == channel@),
            final(self).parts_log() == old(self).parts_log(),
            final(self).joins_log() == (if old(self).has_client() && !old(self).has_subscribers(
                channel@,
            ) {
                old(self).joins_log().push(channel@)
            } else {
                old(self).joins_log()
            }),
            (r is Ok) <==> !(old(self).has_client() && !old(self).has_subscribers(channel@)
                && !valid_channel_login(channel@)),
            (match r {
                Err(OrchidError::TransportError(_)) => true,
                Err(_) => false,
                Ok(_) => true,
            }),
    {
        let ghost fm_old = self.subscriptions@;
        let ghost rm_old = self.client_channels@;
        let was_new = !self.subscriptions.contains_key(channel.as_str());

        // Forward index: channel -> subscribers.
        let mut subs: Vec<String> = match self.subscriptions.get(channel.as_str()) {
            Some(v) => clone_string_vec(v),
            None => Vec::new(),
        };
        let ghost entry_old = subs.deep_view();
        proof {
            lemma_push_contains(entry_old, client_id@);
            if fm_old.contains_key(channel@) {
                assert(entry_old == fm_old[channel@].deep_view());
            } else {
                assert(entry_old =~= Seq::<Seq<char>>::empty());
            }
        }
        if !vec_contains_str(&subs, client_id.as_str()) {
            proof {
                lemma_push_unique(entry_old, client_id@);
            }
            subs.push(client_id.clone());
            proof {
                assert(subs.deep_view() =~= entry_old.push(client_id@));
            }
        }
        proof {
            assert(forall|y: Seq<char>|
                #[trigger] subs.deep_view().contains(y) <==> ((fm_old.contains_key(channel@)
                    && fm_old[channel@].deep_view().contains(y)) || y == client_id@));
            assert(seq_unique(subs.deep_view()) && subs.deep_view().len() > 0);
            lemma_insert_extends(fm_old, channel@, subs, client_id@);
        }
        self.subscriptions.insert(channel.clone(), subs);
        let ghost fm_new = self.subscriptions@;
        proof {
            assert(fm_new == fm_old.insert(channel@, subs));
        }

        // Reverse index: subscriber -> channels.
        let mut chans: Vec<String> = match self.client_channels.get(client_id.as_str()) {
            Some(v) => clone_string_vec(v),
            None => Vec::new(),
        };
        let ghost rentry_old = chans.deep_view();
        proof {
            lemma_push_contains(rentry_old, channel@);
            if rm_old.contains_key(client_id@) {
                assert(rentry_old == rm_old[client_id@].deep_view());
            } else {
                assert(rentry_old =~= Seq::<Seq<char>>::empty());
            }
        }
        if !vec_contains_str(&chans, channel.as_str()) {
            proof {
                lemma_push_unique(rentry_old, channel@);
            }
            chans.push(channel.clone());
            proof {
                assert(chans.deep_view() =~= rentry_old.push(channel@));
            }
        }
        proof {
            assert(forall|y: Seq<char>|
                #[trigger] chans.deep_view().contains(y) <==> ((rm_old.contains_key(client_id@)
                    && rm_old[client_id@].deep_view().contains(y)) || y == channel@));
            assert(seq_unique(chans.deep_view()) && chans.deep_view().len() > 0);
            lemma_insert_extends(rm_old, client_id@, chans, channel@);
        }
        self.client_channels.insert(client_id.clone(), chans);
        let ghost rm_new = self.client_channels@;

        proof {
            // The two directions still agree.
            assert forall|c: Seq<char>, s: Seq<char>|
                #![trigger map_has(fm_new, c, s)]
                #![trigger map_has(rm_new, s, c)]
                (map_has(fm_new, c, s) <==> map_has(rm_new, s, c)) by {
                assert(map_has(fm_old, c, s) <==> map_has(rm_old, s, c));
                assert(map_has(fm_new, c, s) <==> (map_has(fm_old, c, s) || (c == channel@ && s
                    == client_id@)));
                assert(map_has(rm_new, s, c) <==> (map_has(rm_old, s, c) || (s == client_id@ && c
                    == channel@)));
            }
            // The registered associations grow by exactly the new pair.
            assert(self.pairs() =~= old(self).pairs().insert((channel@, client_id@)));
        }

        // Join the channel on its empty -> non-empty transition.
        let r: Result<(), OrchidError> = if was_new {
            match &self.chat_client {
                Some(client) => {
                    let jr = chat_join(client, channel.clone());
                    self.joins = Ghost(self.joins@.push(channel@));
                    jr
                },
                None => Ok(()),
            }
        } else {
            Ok(())
        };

        proof {
            // Join/part balance for every channel.
            if self.has_client() {
                assert forall|c: Seq<char>|
                    count_of(self.joins@, c) == count_of(self.parts@, c) + (
                    if self.subscriptions@.contains_key(c) {
                        1int
                    } else {
                        0int
                    }) by {
                    assert(count_of(old(self).joins@, c) == count_of(old(self).parts@, c) + (
                    if fm_old.contains_key(c) {
                        1int
                    } else {
                        0int
                    }));
                    if was_new {
                        lemma_count_push(old(self).joins@, channel@, c);
                    }
                }
            }
        }
        r
    }

    /// Removes the pair (channel, subscriber) from both index directions,
    /// idempotently. When this empties the channel's subscriber set and a
    /// transport is attached, one best-effort part request is issued.
    pub fn unsubscribe(&mut self, channel: &str, client_id: &str)
        requires
            old(self).wf(),
        ensures
            final(self).wf(),
            final(self).has_client() == old(self).has_client(),
            final(self).pairs() == old(self).pairs().remove((channel@, client_id@)),
            forall|c: Seq<char>|
                #[trigger] final(self).has_subscribers(c) <==> (old(self).has_subscribers(c) && !(c
                    == channel@ && old(self).sole_subscriber(channel@, client_id@))),
            final(self).joins_log() == old(self).joins_log(),
            final(self).parts_log() == (if old(self).has_client() && old(self).sole_subscriber(
                channel@,
                client_id@,
            ) {
                old(self).parts_log().push(channel@)
            } else {
                old(self).parts_log()
            }),
    {
        let ghost fm_old = self.subscriptions@;
        let ghost rm_old = self.client_channels@;
        let became_empty = index_remove(&mut self.subscriptions, channel, client_id);
        proof {
            // The entry emptied exactly when the subscriber was the sole one.
            assert(became_empty == old(self).sole_subscriber(channel@, client_id@)) by {
                if became_empty {
                    assert forall|y: Seq<char>| #[trigger]
                        old(self).subscribers_of(channel@).contains(y) implies y == client_id@ by {
                        assert(fm_old[channel@].deep_view().contains(y));
                    }
                    assert(old(self).subscribers_of(channel@).contains(client_id@));
                    assert(old(self).subscribers_of(channel@) =~= Set::empty().insert(client_id@));
                } else {
                    if old(self).sole_subscriber(channel@, client_id@) {
                        assert(old(self).subscribers_of(channel@).contains(client_id@));
                        assert(map_has(fm_old, channel@, client_id@));
                        assert forall|y: Seq<char>| #[trigger]
                            fm_old[channel@].deep_view().contains(y) implies y == client_id@ by {
                            assert(old(self).subscribers_of(channel@).contains(y));
                        }
                    }
                }
            }
        }
        if became_empty {
            match &self.chat_client {
                Some(client) => {
                    chat_part(client, String::from_str(channel));
                    self.parts = Ghost(self.parts@.push(channel@));
                },
                None => {},
            }
        }
        let ghost fm_new = self.subscriptions@;
        let _ = index_remove(&mut self.client_channels, client_id, channel);
        let ghost rm_new = self.client_channels@;
        proof {
            assert forall|c: Seq<char>, s: Seq<char>|
                #![trigger map_has(fm_new, c, s)]
                #![trigger map_has(rm_new, s, c)]
                (map_has(fm_new, c, s) <==> map_has(rm_new, s, c)) by {
                assert(map_has(fm_old, c, s) <==> map_has(rm_old, s, c));
                assert(map_has(fm_new, c, s) <==> (map_has(fm_old, c, s) && !(c == channel@ && s
                    == client_id@)));
                assert(map_has(rm_new, s, c) <==> (map_has(rm_old, s, c) && !(s == client_id@ && c
                    == channel@)));
            }
            assert(self.pairs() =~= old(self).pairs().remove((channel@, client_id@)));
            if self.has_client() {
                assert forall|c: Seq<char>|
                    count_of(self.joins@, c) == count_of(self.parts@, c) + (
                    if self.subscriptions@.contains_key(c) {
                        1int
                    } else {
                        0int
                    }) by {
                    assert(count_of(old(self).joins@, c) == count_of(old(self).parts@, c) + (
                    if fm_old.contains_key(c) {
                        1int
                    } else {
                        0int
                    }));
                    if became_empty {
                        lemma_count_push(old(self).parts@, channel@, c);
                    }
                }
            }
        }
    }

    /// A snapshot of the channel's subscribers; empty for an unknown
    /// channel.
    pub fn get_channel_subscribers(&self, channel: &str) -> (subs: Vec<String>)
        requires
            self.wf(),
        ensures
            seq_unique(subs.deep_view()),
            forall|s: Seq<char>|
                #[trigger] subs.deep_view().contains(s) <==> self.subscribers_of(
                    channel@,
                ).contains(s),
    {
        match self.subscriptions.get(channel) {
            Some(v) => {
                let r = clone_string_vec(v);
                proof {
                    assert forall|s: Seq<char>|
                        #[trigger] r.deep_view().contains(s) <==> self.subscribers_of(
                            channel@,
                        ).contains(s) by {
                        assert(r.deep_view().contains(s) == map_has(self.subscriptions@, channel@, s));
                    }
                }
                r
            },
            None => {
                let r = Vec::new();
                proof {
                    assert(r.deep_view() =~= Seq::<Seq<char>>::empty());
                }
                r
            },
        }
    }

    /// A snapshot of the channels the subscriber is part of; empty for an
    /// unknown subscriber.
    pub fn get_client_subscriptions(&self, client_id: &str) -> (chans: Vec<String>)
        requires
            self.wf(),
        ensures
            seq_unique(chans.deep_view()),
            forall|c: Seq<char>|
                #[trigger] chans.deep_view().contains(c) <==> self.channels_of(client_id@).contains(
                    c,
                ),
    {
        match self.client_channels.get(client_id) {
            Some(v) => {
                let r = clone_string_vec(v);
                proof {
                    assert forall|c: Seq<char>|
                        #[trigger] r.deep_view().contains(c) <==> self.channels_of(
                            client_id@,
                        ).contains(c) by {
                        assert(r.deep_view().contains(c) == map_has(
                            self.client_channels@,
                            client_id@,
                            c,
                        ));
                        assert(map_has(self.client_channels@, client_id@, c) == map_has(
                            self.subscriptions@,
                            c,
                            client_id@,
                        ));
                    }
                }
                r
            },
            None => {
                let r = Vec::new();
                proof {
                    assert(r.deep_view() =~= Seq::<Seq<char>>::empty());
                    assert forall|c: Seq<char>| !self.channels_of(client_id@).contains(c) by {
                        assert(map_has(self.subscriptions@, c, client_id@) == map_has(
                            self.client_channels@,
                            client_id@,
                            c,
                        ));
                    }
                }
                r
            },
        }
    }

    /// Removes the subscriber from every channel it was part of, issuing
    /// one best-effort part request for each channel this empties (when a
    /// transport is attached). Afterwards the subscriber is part of no
    /// channel and no channel's subscriber set contains it.
    #[verifier::loop_isolation(false)]
    pub fn remove_client(&mut self, client_id: &str)
        requires
            old(self).wf(),
        ensures
            final(self).wf(),
            final(self).has_client() == old(self).has_client(),
            final(self).pairs() == Set::new(
                |p: (Seq<char>, Seq<char>)| old(self).pairs().contains(p) && p.1 != client_id@,
            ),
            forall|c: Seq<char>| !(#[trigger] final(self).pairs().contains((c, client_id@))),
            forall|c: Seq<char>|
                #[trigger] final(self).has_subscribers(c) <==> (old(self).has_subscribers(c)
                    && !old(self).sole_subscriber(c, client_id@)),
            final(self).joins_log() == old(self).joins_log(),
            forall|c: Seq<char>|
                #[trigger] count_of(final(self).parts_log(), c) == count_of(
                    old(self).parts_log(),
                    c,
                ) + (if old(self).has_client() && old(self).sole_subscriber(c, client_id@) {
                    1int
                } else {
                    0int
                }),
    {
        let ghost fm_old = self.subscriptions@;
        let ghost rm_old = self.client_channels@;
        proof {
            // Membership in the reverse entry mirrors the forward index.
            assert forall|c: Seq<char>, s: Seq<char>|
                #![trigger map_has(fm_old, c, s)]
                #![trigger map_has(rm_old, s, c)]
                (map_has(fm_old, c, s) <==> map_has(rm_old, s, c)) by {}
            // Sole subscription is equivalent to a concrete entry shape.
            assert forall|c: Seq<char>|
                #[trigger] old(self).sole_subscriber(c, client_id@) <==> (map_has(
                    fm_old,
                    c,
                    client_id@,
                ) && (forall|y: Seq<char>|
                    map_has(fm_old, c, y) ==> y == client_id@)) by {
                if old(self).sole_subscriber(c, client_id@) {
                    assert(old(self).subscribers_of(c).contains(client_id@));
                    assert forall|y: Seq<char>| map_has(fm_old, c, y) implies y == client_id@ by {
                        assert(old(self).subscribers_of(c).contains(y));
                    }
                } else {
                    if map_has(fm_old, c, client_id@) && (forall|y: Seq<char>|
                        map_has(fm_old, c, y) ==> y == client_id@) {
                        assert(old(self).subscribers_of(c) =~= Set::empty().insert(client_id@));
                    }
                }
            }
        }
        let chans_opt: Option<Vec<String>> = match self.client_channels.get(client_id) {
            Some(v) => Some(clone_string_vec(v)),
            None => None,
        };
        match chans_opt {
            None => {
                proof {
                    assert forall|c: Seq<char>| !map_has(fm_old, c, client_id@) by {
                        assert(map_has(fm_old, c, client_id@) == map_has(rm_old, client_id@, c));
                    }
                    assert(self.pairs() =~= Set::new(
                        |p: (Seq<char>, Seq<char>)| old(self).pairs().contains(p) && p.1
                            != client_id@,
                    ));
                }
            },
            Some(chans) => {
                let ghost removed = chans.deep_view();
                proof {
                    assert(rm_old.contains_key(client_id@) && removed == rm_old[client_id@].deep_view());
                    assert(seq_unique(removed) && removed.len() > 0);
                    assert forall|c: Seq<char>|
                        #[trigger] removed.contains(c) <==> map_has(fm_old, c, client_id@) by {
                        assert(removed.contains(c) == map_has(rm_old, client_id@, c));
                    }
                }
                self.client_channels.remove(client_id);
                let mut j: usize = 0;
                while j < chans.len()
                    invariant
                        j <= chans.len(),
                        old(self).wf(),
                        chans.deep_view() == removed,
                        seq_unique(removed),
                        forall|c: Seq<char>|
                            #[trigger] removed.contains(c) <==> map_has(fm_old, c, client_id@),
                        self.client_channels@ == rm_old.remove(client_id@),
                        self.chat_client == old(self).chat_client,
                        self.joins@ == old(self).joins@,
                        !old(self).has_client() ==> self.parts@ == old(self).parts@,
                        entries_ok(self.subscriptions@),
                        forall|c: Seq<char>, s: Seq<char>|
                            #![trigger map_has(self.subscriptions@, c, s)]
                            map_has(self.subscriptions@, c, s) <==> (map_has(fm_old, c, s) && !(s
                                == client_id@ && removed.take(j as int).contains(c))),
                        forall|a: Seq<char>|
                            #[trigger] self.subscriptions@.contains_key(a) <==> (fm_old.contains_key(
                                a,
                            ) && !(removed.take(j as int).contains(a) && old(self).sole_subscriber(
                                a,
                                client_id@,
                            ))),
                        forall|c: Seq<char>|
                            #[trigger] count_of(self.parts@, c) == count_of(old(self).parts@, c) + (
                            if old(self).has_client() && old(self).sole_subscriber(c, client_id@)
                                && removed.take(j as int).contains(c) {
                                1int
                            } else {
                                0int
                            }),
                    decreases chans.len() - j,
                {
                    let ghost pre_subs = self.subscriptions@;
                    let ghost pre_parts = self.parts@;
                    let ghost ch = removed[j as int];
                    proof {
                        assert(removed.take(j + 1) =~= removed.take(j as int).push(ch));
                        lemma_push_contains(removed.take(j as int), ch);
                        assert(removed.contains(ch));
                        assert(!removed.take(j as int).contains(ch)) by {
                            if removed.take(j as int).contains(ch) {
                                let k = choose|k: int|
                                    0 <= k < j && removed.take(j as int)[k] == ch;
                                assert(removed[k] == removed[j as int]);
                            }
                        }
                    }
                    let became_empty = index_remove(
                        &mut self.subscriptions,
                        chans[j].as_str(),
                        client_id,
                    );
                    proof {
                        // The processed channel still held its original members.
                        assert forall|y: Seq<char>|
                            map_has(pre_subs, ch, y) <==> map_has(fm_old, ch, y) by {}
                        assert(became_empty == old(self).sole_subscriber(ch, client_id@)) by {
                            if became_empty {
                                assert(map_has(pre_subs, ch, client_id@));
                                assert forall|y: Seq<char>|
                                    map_has(fm_old, ch, y) implies y == client_id@ by {
                                    assert(map_has(pre_subs, ch, y));
                                    assert(pre_subs[ch].deep_view().contains(y));
                                }
                            } else {
                                if old(self).sole_subscriber(ch, client_id@) {
                                    assert(map_has(pre_subs, ch, client_id@));
                                    assert forall|y: Seq<char>| #[trigger]
                                        pre_subs[ch].deep_view().contains(y) implies y
                                        == client_id@ by {
                                        assert(map_has(pre_subs, ch, y));
                                        assert(map_has(fm_old, ch, y));
                                    }
                                }
                            }
                        }
                    }
                    if became_empty {
                        match &self.chat_client {
                            Some(client) => {
                                chat_part(client, String::from_str(chans[j].as_str()));
                                self.parts = Ghost(self.parts@.push(ch));
                            },
                            None => {},
                        }
                    }
                    proof {
                        // Parts counts advance exactly on the sole channel.
                        assert forall|c: Seq<char>|
                            #[trigger] count_of(self.parts@, c) == count_of(old(self).parts@, c) + (
                            if old(self).has_client() && old(self).sole_subscriber(c, client_id@)
                                && removed.take(j + 1).contains(c) {
                                1int
                            } else {
                                0int
                            }) by {
                            if became_empty && old(self).has_client() {
                                lemma_count_push(pre_parts, ch, c);
                            }
                            if c != ch {
                                assert(removed.take(j + 1).contains(c) == removed.take(
                                    j as int,
                                ).contains(c));
                            }
                        }
                        // Associations shrink exactly by the processed prefix.
                        assert forall|c: Seq<char>, s: Seq<char>|
                            #![trigger map_has(self.subscriptions@, c, s)]
                            map_has(self.subscriptions@, c, s) <==> (map_has(fm_old, c, s) && !(s
                                == client_id@ && removed.take(j + 1).contains(c))) by {
                            assert(map_has(self.subscriptions@, c, s) <==> (map_has(pre_subs, c, s)
                                && !(c == ch && s == client_id@)));
                        }
                        assert forall|a: Seq<char>|
                            #[trigger] self.subscriptions@.contains_key(a) <==> (fm_old.contains_key(
                                a,
                            ) && !(removed.take(j + 1).contains(a) && old(self).sole_subscriber(
                                a,
                                client_id@,
                            ))) by {
                            assert(self.subscriptions@.contains_key(a) <==> (pre_subs.contains_key(
                                a,
                            ) && !(a == ch && became_empty)));
                        }
                    }
                    j = j + 1;
                }
                proof {
                    assert(removed.take(removed.len() as int) =~= removed);
                }
            },
        }
        proof {
            let ghost fm_new = self.subscriptions@;
            let ghost rm_new = self.client_channels@;
            assert forall|s: Seq<char>| #[trigger]
                rm_new.contains_key(s) implies rm_new[s].deep_view().len() > 0 && seq_unique(
                rm_new[s].deep_view(),
            ) by {
                assert(rm_old.contains_key(s));
                assert(rm_new[s] == rm_old[s]);
            }
            assert forall|c: Seq<char>|
                #[trigger] self.has_subscribers(c) <==> (old(self).has_subscribers(c) && !old(
                    self,
                ).sole_subscriber(c, client_id@)) by {
                if old(self).sole_subscriber(c, client_id@) {
                    assert(old(self).subscribers_of(c).contains(client_id@));
                    assert(map_has(fm_old, c, client_id@));
                }
            }
            assert forall|c: Seq<char>, s: Seq<char>|
                #![trigger map_has(fm_new, c, s)]
                #![trigger map_has(rm_new, s, c)]
                (map_has(fm_new, c, s) <==> map_has(rm_new, s, c)) by {
                assert(map_has(fm_old, c, s) <==> map_has(rm_old, s, c));
                if s == client_id@ {
                    assert(!rm_new.contains_key(s));
                } else {
                    if rm_old.contains_key(s) {
                        assert(rm_new[s] == rm_old[s]);
                    }
                }
            }
            assert(self.pairs() =~= Set::new(
                |p: (Seq<char>, Seq<char>)| old(self).pairs().contains(p) && p.1 != client_id@,
            ));
            if self.has_client() {
                assert forall|c: Seq<char>|
                    count_of(self.joins@, c) == count_of(self.parts@, c) + (
                    if self.subscriptions@.contains_key(c) {
                        1int
                    } else {
                        0int
                    }) by {
                    assert(count_of(old(self).joins@, c) == count_of(old(self).parts@, c) + (
                    if fm_old.contains_key(c) {
                        1int
                    } else {
                        0int
                    }));
                    assert(count_of(self.parts@, c) == count_of(old(self).parts@, c) + (
                    if old(self).has_client() && old(self).sole_subscriber(c, client_id@) {
                        1int
                    } else {
                        0int
                    }));
                }
            }
        }
    }
}

} // verus!
