//! The connection registry: live client connections keyed by client id, a
//! display-name index over them, and the delivery operations (unicast,
//! multicast by name, broadcast) with their distinct failure policies.

use vstd::prelude::*;

use crate::err::OrchidError;
use crate::manager::count_of;
use crate::manager::lemma_has_subscribers_iff;
use crate::manager::SubscriptionManager;
use crate::text::lemma_push_contains;
use crate::text::lemma_push_unique;
use crate::text::lemma_unique_remove_contains;
use crate::text::seq_unique;
use crate::text::str_eq;

verus! {

/// The unit of delivery to one client connection.
#[derive(Debug, Clone)]
pub enum WsMessage {
    Text(String),
    Binary(Vec<u8>),
}

/// The mathematical value of a [`WsMessage`].
pub enum WsMessageView {
    Text(Seq<char>),
    Binary(Seq<u8>),
}

impl View for WsMessage {
    type V = WsMessageView;

    open spec fn view(&self) -> WsMessageView {
        match self {
            WsMessage::Text(s) => WsMessageView::Text(s@),
            WsMessage::Binary(b) => WsMessageView::Binary(b@),
        }
    }
}

impl WsMessage {
    /// A copy of the message carrying the same payload.
    pub fn duplicate(&self) -> (r: WsMessage)
        ensures
            r@ == self@,
    {
        match self {
            WsMessage::Text(s) => WsMessage::Text(s.clone()),
            WsMessage::Binary(b) => {
                let mut c: Vec<u8> = Vec::new();
                let mut i: usize = 0;
                while i < b.len()
                    invariant
                        i <= b.len(),
                        c@ == b@.take(i as int),
                    decreases b.len() - i,
                {
                    c.push(b[i]);
                    proof {
                        assert(b@.take(i + 1) =~= b@.take(i as int).push(b@[i as int]));
                    }
                    i = i + 1;
                }
                proof {
                    assert(b@.take(b@.len() as int) =~= b@);
                }
                WsMessage::Binary(c)
            },
        }
    }
}

/// Declares `tokio::sync::mpsc::Sender` to the verifier, so connection
/// handles can hold the sending end of their bounded outbound queue. The
/// type is opaque; only the trusted send wrapper touches it.
#[verifier::external_type_specification]
#[verifier::external_body]
#[verifier::reject_recursive_types(T)]
pub struct ExSender<T>(tokio::sync::mpsc::Sender<T>);

/// The outbound half of one client connection: the sending end of that
/// connection's bounded message queue.
pub struct WebsocketState {
    tx: tokio::sync::mpsc::Sender<WsMessage>,
}

impl WebsocketState {
    /// Wraps the sending end of a connection's outbound queue.
    pub fn new(tx: tokio::sync::mpsc::Sender<WsMessage>) -> WebsocketState {
        WebsocketState { tx }
    }

    /// Hands one message to the connection's outbound queue.
    ///
    /// Relies on `tokio::sync::mpsc::Sender::try_send`: it either enqueues
    /// the message or fails because the queue is full or closed; which of
    /// the two happens depends on the connection, so nothing is promised
    /// beyond the shape of the error.
    ///
    /// Delivery is deliberately a non-blocking enqueue: a full queue counts
    /// as a delivery failure instead of stalling the fan-out, so one slow
    /// client cannot hold up delivery to the connections after it.
    #[verifier::external_body]
    pub fn send_message(&self, message: WsMessage) -> (r: Result<(), OrchidError>)
        ensures
            r is Err ==> (match r {
                Err(OrchidError::TransportError(_)) => true,
                _ => false,
            }),
    {
        self.tx.try_send(message).map_err(|_e| {
            OrchidError::TransportError(String::from("failed to queue message for delivery"))
        })
    }
}

/// One connection's place in the display-name index.
pub struct WebsocketInfo {
    pub username: String,
    pub client_id: String,
}

/// The client ids of the registered connections, in registration order.
pub open spec fn conn_ids(ws: Seq<(String, WebsocketState)>) -> Seq<Seq<char>> {
    Seq::new(ws.len(), |i: int| ws[i].0@)
}

/// The client ids named by a display-name entry, in registration order.
pub open spec fn infos_ids(infos: Seq<WebsocketInfo>) -> Seq<Seq<char>> {
    Seq::new(infos.len(), |i: int| infos[i].client_id@)
}

/// The display names present in the index, in order of first registration.
pub open spec fn unames(users: Seq<(String, Vec<WebsocketInfo>)>) -> Seq<Seq<char>> {
    Seq::new(users.len(), |i: int| users[i].0@)
}

/// The index has an entry for this display name.
pub open spec fn has_name(users: Seq<(String, Vec<WebsocketInfo>)>, n: Seq<char>) -> bool {
    unames(users).contains(n)
}

/// The position of this display name's entry.
pub open spec fn name_index(users: Seq<(String, Vec<WebsocketInfo>)>, n: Seq<char>) -> int {
    choose|i: int| 0 <= i < users.len() && users[i].0@ == n
}

/// The client ids registered under this display name, in order; empty for
/// an unknown name.
pub open spec fn ids_for(users: Seq<(String, Vec<WebsocketInfo>)>, n: Seq<char>) -> Seq<Seq<char>> {
    if has_name(users, n) {
        infos_ids(users[name_index(users, n)].1@)
    } else {
        Seq::empty()
    }
}

/// The id list with every occurrence of a removed id deleted, order kept.
pub open spec fn ids_minus(ids: Seq<Seq<char>>, removed: Seq<Seq<char>>) -> Seq<Seq<char>>
    decreases ids.len(),
{
    if ids.len() == 0 {
        Seq::empty()
    } else {
        (if removed.contains(ids[0]) {
            Seq::empty()
        } else {
            seq![ids[0]]
        }) + ids_minus(ids.drop_first(), removed)
    }
}

/// Deleting ids that never occur leaves the list unchanged.
proof fn lemma_ids_minus_absent(ids: Seq<Seq<char>>, removed: Seq<Seq<char>>)
    requires
        forall|i: int| 0 <= i < ids.len() ==> !removed.contains(#[trigger] ids[i]),
    ensures
        ids_minus(ids, removed) == ids,
    decreases ids.len(),
{
    if ids.len() == 0 {
        assert(ids_minus(ids, removed) =~= ids);
    } else {
        assert forall|i: int| 0 <= i < ids.drop_first().len() implies !removed.contains(
            #[trigger] ids.drop_first()[i],
        ) by {
            assert(ids.drop_first()[i] == ids[i + 1]);
        }
        lemma_ids_minus_absent(ids.drop_first(), removed);
        assert(!removed.contains(ids[0]));
        assert(ids_minus(ids, removed) =~= ids);
    }
}

/// Deleting one more id is deleting it from the already-thinned list.
proof fn lemma_ids_minus_push(ids: Seq<Seq<char>>, removed: Seq<Seq<char>>, x: Seq<char>)
    ensures
        ids_minus(ids, removed.push(x)) == ids_minus(ids_minus(ids, removed), seq![x]),
    decreases ids.len(),
{
    lemma_push_contains(removed, x);
    if ids.len() == 0 {
        assert(ids_minus(ids, removed.push(x)) =~= ids_minus(ids_minus(ids, removed), seq![x]));
    } else {
        lemma_ids_minus_push(ids.drop_first(), removed, x);
        let inner = ids_minus(ids, removed);
        let tail_inner = ids_minus(ids.drop_first(), removed);
        if removed.contains(ids[0]) {
            assert(inner == tail_inner);
            assert(ids_minus(ids, removed.push(x)) =~= ids_minus(inner, seq![x]));
        } else if ids[0] == x {
            assert(inner =~= seq![ids[0]] + tail_inner);
            assert(inner.len() > 0 && inner[0] == ids[0]);
            assert(inner.drop_first() =~= tail_inner);
            assert(seq![x].contains(inner[0]));
            assert(ids_minus(inner, seq![x]) == ids_minus(tail_inner, seq![x]));
            assert(ids_minus(ids, removed.push(x)) =~= ids_minus(inner, seq![x]));
        } else {
            assert(inner =~= seq![ids[0]] + tail_inner);
            assert(inner.len() > 0 && inner[0] == ids[0]);
            assert(inner.drop_first() =~= tail_inner);
            assert(!seq![x].contains(inner[0])) by {
                if seq![x].contains(inner[0]) {
                    let k = choose|k: int| 0 <= k < 1 && seq![x][k] == inner[0];
                    assert(seq![x][0] == x);
                }
            }
            assert(ids_minus(ids, removed.push(x)) =~= ids_minus(inner, seq![x]));
        }
    }
}

/// In a duplicate-free list, deleting an id removes exactly its one slot.
proof fn lemma_ids_minus_single(ids: Seq<Seq<char>>, idx: int, x: Seq<char>)
    requires
        seq_unique(ids),
        0 <= idx < ids.len(),
        ids[idx] == x,
    ensures
        ids_minus(ids, seq![x]) == ids.remove(idx),
    decreases ids.len(),
{
    assert(seq![x][0] == x);
    if idx == 0 {
        assert(seq![x].contains(ids[0]));
        assert forall|i: int| 0 <= i < ids.drop_first().len() implies !seq![x].contains(
            #[trigger] ids.drop_first()[i],
        ) by {
            assert(ids.drop_first()[i] == ids[i + 1]);
            if seq![x].contains(ids[i + 1]) {
                let k = choose|k: int| 0 <= k < 1 && seq![x][k] == ids[i + 1];
                assert(ids[i + 1] == x);
                assert(ids[0] == ids[i + 1]);
            }
        }
        lemma_ids_minus_absent(ids.drop_first(), seq![x]);
        assert(ids_minus(ids, seq![x]) =~= ids.remove(0));
    } else {
        assert(!seq![x].contains(ids[0])) by {
            if seq![x].contains(ids[0]) {
                let k = choose|k: int| 0 <= k < 1 && seq![x][k] == ids[0];
                assert(ids[0] == ids[idx]);
            }
        }
        assert(seq_unique(ids.drop_first())) by {
            assert forall|a: int, b: int|
                0 <= a < b < ids.drop_first().len() implies ids.drop_first()[a]
                != ids.drop_first()[b] by {
                assert(ids.drop_first()[a] == ids[a + 1] && ids.drop_first()[b] == ids[b + 1]);
            }
        }
        assert(ids.drop_first()[idx - 1] == x);
        lemma_ids_minus_single(ids.drop_first(), idx - 1, x);
        assert(ids_minus(ids, seq![x]) =~= ids.remove(idx));
    }
}

/// Some entry of name `n` carries the client id `id`.
pub open spec fn user_has_id(
    users: Seq<(String, Vec<WebsocketInfo>)>,
    n: Seq<char>,
    id: Seq<char>,
) -> bool {
    exists|i: int|
        0 <= i < users.len() && users[i].0@ == n && (#[trigger] infos_ids(
            users[i].1@,
        )).contains(id)
}

/// The connection registry: live connections keyed by client id, in
/// registration order, with a display-name index over them and a ghost
/// log of every delivery attempt.
pub struct WebsocketCollection {
    /// client id -> connection state, in registration order.
    ws: Vec<(String, WebsocketState)>,
    /// display name -> that name's connections, in registration order.
    users: Vec<(String, Vec<WebsocketInfo>)>,
    /// Every delivery attempt so far, in order: the client id it went to
    /// and the payload it carried.
    attempts: Ghost<Seq<(Seq<char>, WsMessageView)>>,
}

impl WebsocketCollection {
    /// The delivery attempts so far, in order: (client id, payload).
    pub closed spec fn attempts_log(self) -> Seq<(Seq<char>, WsMessageView)> {
        self.attempts@
    }

    /// The registered client ids, in registration order.
    pub closed spec fn ids(self) -> Seq<Seq<char>> {
        conn_ids(self.ws@)
    }

    /// The client ids registered under a display name, in order.
    pub closed spec fn ids_of_name(self, n: Seq<char>) -> Seq<Seq<char>> {
        ids_for(self.users@, n)
    }

    /// The display name has at least one registered connection.
    pub closed spec fn knows_name(self, n: Seq<char>) -> bool {
        has_name(self.users@, n)
    }

    /// Client ids are unique, display names are unique, every name entry
    /// is non-empty and carries its own name, the name index and the
    /// connection list name exactly the same client ids, and no client id
    /// appears twice in the name index.
    pub closed spec fn wf(self) -> bool {
        &&& seq_unique(conn_ids(self.ws@))
        &&& seq_unique(unames(self.users@))
        &&& (forall|i: int| 0 <= i < self.users@.len() ==> (#[trigger] self.users@[i].1@.len()) > 0)
        &&& (forall|i: int, j: int|
            0 <= i < self.users@.len() && 0 <= j < self.users@[i].1@.len() ==> (
            #[trigger] self.users@[i].1@[j].username@) == self.users@[i].0@)
        &&& (forall|id: Seq<char>|
            #[trigger] conn_ids(self.ws@).contains(id) <==> user_carries(self.users@, id))
        &&& (forall|i1: int, j1: int, i2: int, j2: int|
            #![trigger self.users@[i1].1@[j1].client_id@, self.users@[i2].1@[j2].client_id@]
            0 <= i1 < self.users@.len() && 0 <= j1 < self.users@[i1].1@.len() && 0 <= i2
                < self.users@.len() && 0 <= j2 < self.users@[i2].1@.len() && (i1 != i2 || j1 != j2)
                ==> self.users@[i1].1@[j1].client_id@ != self.users@[i2].1@[j2].client_id@)
    }

    /// A display name the registry does not know has no client ids, so
    /// tearing it down is a no-op.
    pub proof fn lemma_unknown_name_no_ids(self, n: Seq<char>)
        requires
            !self.knows_name(n),
        ensures
            self.ids_of_name(n) == Seq::<Seq<char>>::empty(),
    {
        assert(self.ids_of_name(n) =~= Seq::<Seq<char>>::empty());
    }

    /// A fresh registry: no connections, no names, no attempts.
    pub fn new() -> (r: WebsocketCollection)
        ensures
            r.wf(),
            r.ids() == Seq::<Seq<char>>::empty(),
            r.attempts_log() == Seq::<(Seq<char>, WsMessageView)>::empty(),
            forall|n: Seq<char>| !(#[trigger] r.knows_name(n)),
    {
        let r = WebsocketCollection { ws: Vec::new(), users: Vec::new(), attempts: Ghost(Seq::empty()) };
        proof {
            assert(conn_ids(r.ws@) =~= Seq::<Seq<char>>::empty());
            assert forall|n: Seq<char>| !(#[trigger] r.knows_name(n)) by {
                assert(unames(r.users@) =~= Seq::<Seq<char>>::empty());
            }
            assert forall|id: Seq<char>| !user_carries(r.users@, id) by {}
        }
        r
    }

    /// Whether a connection with this client id is registered.
    pub fn has_connection(&self, client_id: &str) -> (b: bool)
        ensures
            b == self.ids().contains(client_id@),
    {
        match find_conn_index(&self.ws, client_id) {
            Some(k) => {
                proof {
                    assert(conn_ids(self.ws@)[k as int] == client_id@);
                }
                true
            },
            None => false,
        }
    }

    /// Registers a connection under a display name. Display names need not
    /// be unique — several connections may share one — but client ids are
    /// process-unique.
    #[verifier::loop_isolation(false)]
    pub fn add_handler(&mut self, username: &str, client_id: &str, ws: WebsocketState)
        requires
            old(self).wf(),
            !old(self).ids().contains(client_id@),
        ensures
            final(self).wf(),
            final(self).ids() == old(self).ids().push(client_id@),
            final(self).attempts_log() == old(self).attempts_log(),
            final(self).ids_of_name(username@) == old(self).ids_of_name(username@).push(
                client_id@,
            ),
            forall|n: Seq<char>|
                n != username@ ==> #[trigger] final(self).ids_of_name(n) == old(self).ids_of_name(
                    n,
                ),
            forall|n: Seq<char>|
                #[trigger] final(self).knows_name(n) <==> (old(self).knows_name(n) || n
                    == username@),
    {
        let ghost ws_old = self.ws@;
        let ghost users_old = self.users@;
        self.ws.push((String::from_str(client_id), ws));
        proof {
            assert(conn_ids(self.ws@) =~= conn_ids(ws_old).push(client_id@));
            lemma_push_unique(conn_ids(ws_old), client_id@);
            lemma_push_contains(conn_ids(ws_old), client_id@);
        }
        let info = WebsocketInfo {
            username: String::from_str(username),
            client_id: String::from_str(client_id),
        };
        let entry_index: usize;
        match find_name_index(&self.users, username) {
            Some(k) => {
                let (ename, mut infos) = self.users.remove(k);
                infos.push(info);
                self.users.insert(k, (ename, infos));
                entry_index = k;
                proof {
                    assert(self.users@ =~= users_old.update(
                        k as int,
                        (users_old[k as int].0, self.users@[k as int].1),
                    ));
                }
            },
            None => {
                let mut infos: Vec<WebsocketInfo> = Vec::new();
                infos.push(info);
                self.users.push((String::from_str(username), infos));
                entry_index = self.users.len() - 1;
            },
        }
        proof {
            let k = entry_index as int;
            let un = self.users@;
            // Shape of the updated index: entry `k` gained the one info,
            // every other entry is untouched.
            assert(0 <= k < un.len());
            assert(un[k].0@ == username@);
            assert(un.len() == users_old.len() || un.len() == users_old.len() + 1);
            assert(forall|i: int| 0 <= i < un.len() && i != k ==> un[i] == users_old[i]);
            let ghost infos_pre = if k < users_old.len() {
                users_old[k].1@
            } else {
                Seq::<WebsocketInfo>::empty()
            };
            assert(un[k].1@ =~= infos_pre.push(info));
            assert(infos_ids(un[k].1@) =~= infos_ids(infos_pre).push(client_id@));
            lemma_push_contains(infos_ids(infos_pre), client_id@);
            if k < users_old.len() {
                assert(unames(un) =~= unames(users_old));
                lemma_name_index_unique(users_old, username@, k);
            } else {
                assert(unames(un) =~= unames(users_old).push(username@));
                lemma_push_contains(unames(users_old), username@);
                assert(seq_unique(unames(un))) by {
                    lemma_push_unique(unames(users_old), username@);
                }
            }
            lemma_name_index_unique(un, username@, k);
            // The name's id list grew by exactly the new client id.
            assert(self.ids_of_name(username@) =~= old(self).ids_of_name(username@).push(
                client_id@,
            ));
            // Every other name's id list is untouched.
            assert forall|n: Seq<char>|
                n != username@ implies #[trigger] ids_for(un, n) == ids_for(users_old, n) by {
                if has_name(users_old, n) {
                    let j = choose|j: int| 0 <= j < users_old.len() && unames(users_old)[j] == n;
                    assert(users_old[j].0@ == n);
                    lemma_name_index_unique(users_old, n, j);
                    lemma_name_index_unique(un, n, j);
                    assert(ids_for(un, n) == ids_for(users_old, n));
                } else {
                    if has_name(un, n) {
                        let j = choose|j: int| 0 <= j < un.len() && unames(un)[j] == n;
                        assert(un[j].0@ == n);
                        assert(j != k);
                        assert(unames(users_old)[j] == n);
                    }
                    assert(!has_name(un, n));
                }
            }
            // Which names the index knows.
            assert forall|n: Seq<char>|
                #[trigger] has_name(un, n) <==> (has_name(users_old, n) || n == username@) by {
                if has_name(un, n) && n != username@ {
                    let j = choose|j: int| 0 <= j < un.len() && unames(un)[j] == n;
                    assert(un[j].0@ == n);
                    assert(j != k);
                    assert(unames(users_old)[j] == n);
                }
                if has_name(users_old, n) {
                    let j = choose|j: int| 0 <= j < users_old.len() && unames(users_old)[j] == n;
                    assert(un[j].0@ == users_old[j].0@);
                    assert(unames(un)[j] == n);
                }
            }
            // Connection list and name index still name the same ids.
            assert forall|id: Seq<char>|
                #[trigger] conn_ids(self.ws@).contains(id) <==> user_carries(un, id) by {
                if id == client_id@ {
                    assert(infos_ids(un[k].1@).contains(id));
                    assert(user_carries(un, id));
                } else {
                    if user_carries(users_old, id) {
                        let i = choose|i: int|
                            0 <= i < users_old.len() && (#[trigger] infos_ids(
                                users_old[i].1@,
                            )).contains(id);
                        if i == k {
                            assert(infos_ids(un[k].1@).contains(id));
                        } else {
                            assert(infos_ids(un[i].1@).contains(id));
                        }
                        assert(user_carries(un, id));
                    }
                    if user_carries(un, id) {
                        let i = choose|i: int|
                            0 <= i < un.len() && (#[trigger] infos_ids(un[i].1@)).contains(id);
                        if i == k {
                            assert(infos_ids(infos_pre).contains(id));
                            if k < users_old.len() {
                                assert(user_carries(users_old, id));
                            }
                        } else {
                            assert(infos_ids(users_old[i].1@).contains(id));
                            assert(user_carries(users_old, id));
                        }
                    }
                    assert(conn_ids(self.ws@).contains(id) == conn_ids(ws_old).contains(id));
                    assert(conn_ids(ws_old).contains(id) == user_carries(users_old, id));
                }
            }
            // No client id appears twice in the name index: the fresh slot
            // carries an id no old slot can carry.
            assert forall|i1: int, j1: int, i2: int, j2: int|
                #![trigger un[i1].1@[j1].client_id@, un[i2].1@[j2].client_id@]
                0 <= i1 < un.len() && 0 <= j1 < un[i1].1@.len() && 0 <= i2 < un.len() && 0 <= j2
                    < un[i2].1@.len() && (i1 != i2 || j1 != j2) implies un[i1].1@[j1].client_id@
                != un[i2].1@[j2].client_id@ by {
                let fresh = infos_pre.len() as int;
                if i1 == k && j1 == fresh && i2 == k && j2 == fresh {
                } else if i1 == k && j1 == fresh {
                    assert(un[i1].1@[j1].client_id@ == client_id@);
                    let oid = un[i2].1@[j2].client_id@;
                    assert(infos_ids(users_old[i2].1@)[j2] == oid);
                    assert(infos_ids(users_old[i2].1@).contains(oid));
                    assert(user_carries(users_old, oid));
                    assert(conn_ids(ws_old).contains(oid));
                } else if i2 == k && j2 == fresh {
                    assert(un[i2].1@[j2].client_id@ == client_id@);
                    let oid = un[i1].1@[j1].client_id@;
                    assert(infos_ids(users_old[i1].1@)[j1] == oid);
                    assert(infos_ids(users_old[i1].1@).contains(oid));
                    assert(user_carries(users_old, oid));
                    assert(conn_ids(ws_old).contains(oid));
                } else {
                    assert(un[i1].1@[j1] == users_old[i1].1@[j1]);
                    assert(un[i2].1@[j2] == users_old[i2].1@[j2]);
                    assert(users_old[i1].1@[j1].client_id@ != users_old[i2].1@[j2].client_id@);
                }
            }
        }
    }

    /// Attempts delivery of one message to one client. Fails with
    /// `ConnectionNotFound` when the client id names no live connection;
    /// otherwise the attempt is logged and the queue decides the outcome.
    pub fn send_to_client(&mut self, client_id: &str, message: WsMessage) -> (r: Result<
        (),
        OrchidError,
    >)
        requires
            old(self).wf(),
        ensures
            final(self).wf(),
            final(self).ids() == old(self).ids(),
            forall|n: Seq<char>|
                #[trigger] final(self).ids_of_name(n) == old(self).ids_of_name(n),
            forall|n: Seq<char>| #[trigger] final(self).knows_name(n) == old(self).knows_name(n),
            old(self).ids().contains(client_id@) ==> final(self).attempts_log() == old(
                self,
            ).attempts_log().push((client_id@, message@)) && (match r {
                Ok(_) => true,
                Err(OrchidError::TransportError(_)) => true,
                _ => false,
            }),
            !old(self).ids().contains(client_id@) ==> final(self).attempts_log() == old(
                self,
            ).attempts_log() && (match r {
                Err(OrchidError::ConnectionNotFound(p)) => p@ == client_id@,
                _ => false,
            }),
    {
        match find_conn_index(&self.ws, client_id) {
            Some(k) => {
                proof {
                    assert(conn_ids(self.ws@)[k as int] == client_id@);
                    assert(conn_ids(self.ws@).contains(client_id@));
                }
                let ghost payload = message@;
                self.attempts = Ghost(self.attempts@.push((client_id@, payload)));
                self.ws[k].1.send_message(message)
            },
            None => Err(OrchidError::ConnectionNotFound(String::from_str(client_id))),
        }
    }

    /// Attempts delivery of one message to every registered connection, in
    /// registration order; one connection's failure never prevents the
    /// attempt on the next, and the call itself always succeeds.
    #[verifier::loop_isolation(false)]
    pub fn broadcast_message(&mut self, message: WsMessage) -> (r: Result<(), OrchidError>)
        requires
            old(self).wf(),
        ensures
            final(self).wf(),
            final(self).ids() == old(self).ids(),
            forall|n: Seq<char>|
                #[trigger] final(self).ids_of_name(n) == old(self).ids_of_name(n),
            forall|n: Seq<char>| #[trigger] final(self).knows_name(n) == old(self).knows_name(n),
            final(self).attempts_log() == old(self).attempts_log() + paired(
                old(self).ids(),
                message@,
            ),
            r is Ok,
    {
        let n = self.ws.len();
        proof {
            assert(paired(conn_ids(self.ws@).take(0), message@) =~= Seq::<(
                Seq<char>,
                WsMessageView,
            )>::empty());
            assert(self.attempts@ =~= old(self).attempts@ + paired(
                conn_ids(self.ws@).take(0),
                message@,
            ));
        }
        let mut k: usize = 0;
        while k < n
            invariant
                n == self.ws@.len(),
                k <= n,
                self.ws == old(self).ws,
                self.users == old(self).users,
                self.attempts@ == old(self).attempts@ + paired(
                    conn_ids(self.ws@).take(k as int),
                    message@,
                ),
            decreases n - k,
        {
            let m = message.duplicate();
            proof {
                assert(conn_ids(self.ws@).take(k + 1) =~= conn_ids(self.ws@).take(k as int).push(
                    self.ws@[k as int].0@,
                ));
                assert(paired(conn_ids(self.ws@).take(k + 1), message@) =~= paired(
                    conn_ids(self.ws@).take(k as int),
                    message@,
                ).push((self.ws@[k as int].0@, message@)));
                assert(old(self).attempts@ + paired(conn_ids(self.ws@).take(k + 1), message@) =~= (
                old(self).attempts@ + paired(conn_ids(self.ws@).take(k as int), message@)).push((
                    self.ws@[k as int].0@,
                    message@,
                )));
            }
            self.attempts = Ghost(self.attempts@.push((self.ws@[k as int].0@, message@)));
            let _ = self.ws[k].1.send_message(m);
            k = k + 1;
        }
        proof {
            assert(conn_ids(self.ws@).take(n as int) =~= conn_ids(self.ws@));
        }
        Ok(())
    }

    /// Attempts delivery of one message to each connection registered
    /// under a display name, in registration order, stopping at — and
    /// surfacing — the first failure. Fails with `UserNotFound` when the
    /// name has no connections.
    #[verifier::loop_isolation(false)]
    pub fn broadcast_message_to_user(&mut self, username: &String, message: WsMessage) -> (r:
        Result<(), OrchidError>)
        requires
            old(self).wf(),
        ensures
            final(self).wf(),
            final(self).ids() == old(self).ids(),
            forall|n: Seq<char>|
                #[trigger] final(self).ids_of_name(n) == old(self).ids_of_name(n),
            forall|n: Seq<char>| #[trigger] final(self).knows_name(n) == old(self).knows_name(n),
            !old(self).knows_name(username@) ==> final(self).attempts_log() == old(
                self,
            ).attempts_log() && (match r {
                Err(OrchidError::UserNotFound(p)) => p@ == username@,
                _ => false,
            }),
            old(self).knows_name(username@) ==> ((exists|k: int|
                #[trigger] attempted_prefix(
                    old(self).attempts_log(),
                    final(self).attempts_log(),
                    old(self).ids_of_name(username@),
                    message@,
                    k,
                ) && (r is Ok ==> k == old(self).ids_of_name(username@).len()) && (r is Err ==> 1
                    <= k)) && (match r {
                Ok(_) => true,
                Err(OrchidError::TransportError(_)) => true,
                _ => false,
            })),
    {
        match find_name_index(&self.users, username.as_str()) {
            None => Err(OrchidError::UserNotFound(username.clone())),
            Some(u) => {
                proof {
                    lemma_name_index_unique(self.users@, username@, u as int);
                }
                let ghost ids = ids_for(self.users@, username@);
                let cnt = self.users[u].1.len();
                let mut j: usize = 0;
                while j < cnt
                    invariant
                        u < self.users@.len(),
                        cnt == self.users@[u as int].1@.len(),
                        j <= cnt,
                        self.ws == old(self).ws,
                        self.users == old(self).users,
                        self.attempts@ == old(self).attempts@ + paired(
                            ids.take(j as int),
                            message@,
                        ),
                    decreases cnt - j,
                {
                    let m = message.duplicate();
                    let ghost id = ids[j as int];
                    proof {
                        assert(id == self.users@[u as int].1@[j as int].client_id@);
                        assert(infos_ids(self.users@[u as int].1@).contains(id));
                        assert(user_carries(self.users@, id));
                        assert(conn_ids(self.ws@).contains(id));
                        assert(ids.take(j + 1) =~= ids.take(j as int).push(id));
                        assert(paired(ids.take(j + 1), message@) =~= paired(
                            ids.take(j as int),
                            message@,
                        ).push((id, message@)));
                        assert(old(self).attempts@ + paired(ids.take(j + 1), message@) =~= (old(
                            self,
                        ).attempts@ + paired(ids.take(j as int), message@)).push((id, message@)));
                    }
                    let sr = match find_conn_index(&self.ws, self.users[u].1[j].client_id.as_str()) {
                        Some(k) => {
                            self.attempts = Ghost(self.attempts@.push((id, message@)));
                            self.ws[k].1.send_message(m)
                        },
                        None => {
                            proof {
                                assert(false);
                            }
                            Err(OrchidError::ConnectionNotFound(String::new()))
                        },
                    };
                    if let Err(e) = sr {
                        proof {
                            assert(attempted_prefix(
                                old(self).attempts_log(),
                                self.attempts_log(),
                                old(self).ids_of_name(username@),
                                message@,
                                j + 1,
                            ));
                        }
                        return Err(e);
                    }
                    j = j + 1;
                }
                proof {
                    assert(ids.take(cnt as int) =~= ids);
                    assert(attempted_prefix(
                        old(self).attempts_log(),
                        self.attempts_log(),
                        old(self).ids_of_name(username@),
                        message@,
                        cnt as int,
                    ));
                }
                Ok(())
            },
        }
    }

    /// Tears down every connection registered under a display name — all
    /// of them, not just one — and drops each torn-down client's
    /// subscriptions from the subscription manager. A name with no
    /// connections is a no-op.
    #[verifier::loop_isolation(false)]
    pub fn remove_handler(&mut self, username: String, subs: &mut SubscriptionManager)
        requires
            old(self).wf(),
            old(subs).wf(),
        ensures
            final(self).wf(),
            final(subs).wf(),
            final(self).attempts_log() == old(self).attempts_log(),
            forall|id: Seq<char>|
                #[trigger] final(self).ids().contains(id) <==> (old(self).ids().contains(id)
                    && !old(self).ids_of_name(username@).contains(id)),
            forall|n: Seq<char>|
                #[trigger] final(self).knows_name(n) <==> (old(self).knows_name(n) && n
                    != username@),
            forall|n: Seq<char>|
                n != username@ ==> #[trigger] final(self).ids_of_name(n) == old(self).ids_of_name(
                    n,
                ),
            final(self).ids() == ids_minus(old(self).ids(), old(self).ids_of_name(username@)),
            !old(self).knows_name(username@) ==> (final(self).ids() == old(self).ids()
                && final(subs).pairs() == old(subs).pairs() && final(subs).parts_log() == old(
                subs,
            ).parts_log()),
            final(subs).pairs() == Set::new(
                |p: (Seq<char>, Seq<char>)|
                    old(subs).pairs().contains(p) && !old(self).ids_of_name(username@).contains(
                        p.1,
                    ),
            ),
            final(subs).has_client() == old(subs).has_client(),
            final(subs).joins_log() == old(subs).joins_log(),
            forall|c: Seq<char>|
                #[trigger] count_of(final(subs).parts_log(), c) == count_of(
                    old(subs).parts_log(),
                    c,
                ) + (if old(subs).has_client() && old(subs).has_subscribers(c) && (forall|
                    y: Seq<char>,
                |
                    #[trigger] old(subs).subscribers_of(c).contains(y) ==> old(self).ids_of_name(
                        username@,
                    ).contains(y)) {
                    1int
                } else {
                    0int
                }),
    {
        let ghost ws_old = self.ws@;
        let ghost users_old = self.users@;
        match find_name_index(&self.users, username.as_str()) {
            None => {
                proof {
                    assert(!has_name(users_old, username@));
                    assert(ids_for(users_old, username@) =~= Seq::<Seq<char>>::empty());
                    assert(subs.pairs() =~= Set::new(
                        |p: (Seq<char>, Seq<char>)|
                            old(subs).pairs().contains(p) && !ids_for(
                                users_old,
                                username@,
                            ).contains(p.1),
                    ));
                    assert forall|id: Seq<char>|
                        #[trigger] conn_ids(self.ws@).contains(id) <==> (conn_ids(
                            ws_old,
                        ).contains(id) && !ids_for(users_old, username@).contains(id)) by {}
                    lemma_ids_minus_absent(conn_ids(ws_old), ids_for(users_old, username@));
                    assert forall|c: Seq<char>|
                        #[trigger] count_of(subs.parts_log(), c) == count_of(
                            old(subs).parts_log(),
                            c,
                        ) + (if old(subs).has_client() && old(subs).has_subscribers(c) && (forall|
                            y: Seq<char>,
                        |
                            #[trigger] old(subs).subscribers_of(c).contains(y) ==> ids_for(
                                users_old,
                                username@,
                            ).contains(y)) {
                            1int
                        } else {
                            0int
                        }) by {
                        if old(subs).has_subscribers(c) {
                            lemma_has_subscribers_iff(*old(subs), c);
                            let y = choose|y: Seq<char>| #[trigger] old(subs).subscribers_of(
                                c,
                            ).contains(y);
                            assert(!ids_for(users_old, username@).contains(y));
                        }
                    }
                }
            },
            Some(k) => {
                proof {
                    lemma_name_index_unique(users_old, username@, k as int);
                }
                let ghost removed = ids_for(users_old, username@);
                let (_uname, infos) = self.users.remove(k);
                proof {
                    assert(infos@ == users_old[k as int].1@);
                    assert(removed == infos_ids(infos@));
                    assert(removed.len() == infos@.len());
                    // ids under one name never repeat
                    assert forall|a: int, b: int| 0 <= a < b < removed.len() implies removed[a]
                        != removed[b] by {
                        assert(users_old[k as int].1@[a].client_id@ != users_old[k as int].1@[b].client_id@);
                    }
                    assert(seq_unique(removed));
                    // each of them is a live connection
                    assert forall|a: int| 0 <= a < removed.len() implies conn_ids(ws_old).contains(
                        removed[a],
                    ) by {
                        assert(infos_ids(users_old[k as int].1@).contains(removed[a]));
                        assert(user_carries(users_old, removed[a]));
                    }
                    assert(subs.pairs() =~= Set::new(
                        |p: (Seq<char>, Seq<char>)|
                            old(subs).pairs().contains(p) && !removed.take(0).contains(p.1),
                    ));
                    assert(removed.take(0) =~= Seq::<Seq<char>>::empty());
                    lemma_ids_minus_absent(conn_ids(ws_old), removed.take(0));
                    assert forall|c: Seq<char>|
                        #[trigger] count_of(subs.parts_log(), c) == count_of(
                            old(subs).parts_log(),
                            c,
                        ) + (if old(subs).has_client() && old(subs).has_subscribers(c) && (forall|
                            y: Seq<char>,
                        |
                            #[trigger] old(subs).subscribers_of(c).contains(y) ==> removed.take(
                                0,
                            ).contains(y)) {
                            1int
                        } else {
                            0int
                        }) by {
                        if old(subs).has_subscribers(c) {
                            lemma_has_subscribers_iff(*old(subs), c);
                            let y = choose|y: Seq<char>| #[trigger] old(subs).subscribers_of(
                                c,
                            ).contains(y);
                            assert(!removed.take(0).contains(y));
                        }
                    }
                }
                let mut j: usize = 0;
                while j < infos.len()
                    invariant
                        j <= infos@.len(),
                        self.users@ == users_old.remove(k as int),
                        self.attempts@ == old(self).attempts@,
                        seq_unique(conn_ids(self.ws@)),
                        forall|id: Seq<char>|
                            #[trigger] conn_ids(self.ws@).contains(id) <==> (conn_ids(
                                ws_old,
                            ).contains(id) && !removed.take(j as int).contains(id)),
                        subs.wf(),
                        subs.has_client() == old(subs).has_client(),
                        subs.joins_log() == old(subs).joins_log(),
                        subs.pairs() == Set::new(
                            |p: (Seq<char>, Seq<char>)|
                                old(subs).pairs().contains(p) && !removed.take(
                                    j as int,
                                ).contains(p.1),
                        ),
                        conn_ids(self.ws@) == ids_minus(conn_ids(ws_old), removed.take(j as int)),
                        forall|c: Seq<char>|
                            #[trigger] count_of(subs.parts_log(), c) == count_of(
                                old(subs).parts_log(),
                                c,
                            ) + (if old(subs).has_client() && old(subs).has_subscribers(c) && (
                            forall|y: Seq<char>|
                                #[trigger] old(subs).subscribers_of(c).contains(y) ==> removed.take(
                                    j as int,
                                ).contains(y)) {
                                1int
                            } else {
                                0int
                            }),
                    decreases infos@.len() - j,
                {
                    let ghost id = removed[j as int];
                    let ghost pairs_pre = subs.pairs();
                    proof {
                        assert(id == infos@[j as int].client_id@);
                        assert(!removed.take(j as int).contains(id)) by {
                            if removed.take(j as int).contains(id) {
                                let a = choose|a: int|
                                    0 <= a < j && removed.take(j as int)[a] == id;
                                assert(removed[a] == removed[j as int]);
                            }
                        }
                        assert(conn_ids(self.ws@).contains(id));
                        assert(removed.take(j + 1) =~= removed.take(j as int).push(id));
                        lemma_push_contains(removed.take(j as int), id);
                    }
                    match find_conn_index(&self.ws, infos[j].client_id.as_str()) {
                        Some(c) => {
                            let ghost conns_pre = conn_ids(self.ws@);
                            proof {
                                assert(conns_pre[c as int] == id);
                                lemma_unique_remove_contains(conns_pre, c as int, id);
                            }
                            let _ = self.ws.remove(c);
                            proof {
                                assert(conn_ids(self.ws@) =~= conns_pre.remove(c as int));
                                lemma_ids_minus_push(conn_ids(ws_old), removed.take(j as int), id);
                                lemma_ids_minus_single(conns_pre, c as int, id);
                                assert(conn_ids(self.ws@) == ids_minus(
                                    conn_ids(ws_old),
                                    removed.take(j + 1),
                                ));
                            }
                        },
                        None => {
                            proof {
                                assert(false);
                            }
                        },
                    }
                    let ghost subs_pre = *subs;
                    subs.remove_client(infos[j].client_id.as_str());
                    proof {
                        assert(subs.pairs() =~= Set::new(
                            |p: (Seq<char>, Seq<char>)|
                                old(subs).pairs().contains(p) && !removed.take(
                                    j + 1,
                                ).contains(p.1),
                        )) by {
                            assert(subs.pairs() =~= Set::new(
                                |p: (Seq<char>, Seq<char>)| pairs_pre.contains(p) && p.1 != id,
                            ));
                        }
                        // Part counts advance by one exactly for the channel the
                        // removed id solely held, if any.
                        assert forall|c2: Seq<char>|
                            #[trigger] count_of(subs.parts_log(), c2) == count_of(
                                old(subs).parts_log(),
                                c2,
                            ) + (if old(subs).has_client() && old(subs).has_subscribers(c2) && (
                            forall|y: Seq<char>|
                                #[trigger] old(subs).subscribers_of(c2).contains(y)
                                    ==> removed.take(j + 1).contains(y)) {
                                1int
                            } else {
                                0int
                            }) by {
                            assert forall|y: Seq<char>|
                                #[trigger] subs_pre.subscribers_of(c2).contains(y) <==> (old(
                                subs,
                            ).subscribers_of(c2).contains(y) && !removed.take(j as int).contains(
                                y,
                            )) by {}
                            let cond_now = old(subs).has_client() && old(subs).has_subscribers(c2)
                                && (forall|y: Seq<char>|
                                #[trigger] old(subs).subscribers_of(c2).contains(y)
                                    ==> removed.take(j as int).contains(y));
                            if subs_pre.has_client() && subs_pre.sole_subscriber(c2, id) {
                                assert(Set::empty().insert(id).contains(id));
                                assert(subs_pre.subscribers_of(c2).contains(id));
                                assert(old(subs).subscribers_of(c2).contains(id));
                                lemma_has_subscribers_iff(*old(subs), c2);
                                assert(old(subs).has_subscribers(c2));
                                assert(!removed.take(j as int).contains(id));
                                assert(!cond_now);
                                assert forall|y: Seq<char>|
                                    #[trigger] old(subs).subscribers_of(c2).contains(y)
                                        implies removed.take(j + 1).contains(y) by {
                                    if !removed.take(j as int).contains(y) {
                                        assert(subs_pre.subscribers_of(c2).contains(y));
                                        assert(Set::empty().insert(id).contains(y));
                                        assert(y == id);
                                    }
                                }
                                assert(count_of(subs_pre.parts_log(), c2) == count_of(
                                    old(subs).parts_log(),
                                    c2,
                                ));
                                assert(count_of(subs.parts_log(), c2) == count_of(
                                    subs_pre.parts_log(),
                                    c2,
                                ) + 1);
                            } else {
                                assert(count_of(subs.parts_log(), c2) == count_of(
                                    subs_pre.parts_log(),
                                    c2,
                                ));
                                if cond_now {
                                    assert forall|y: Seq<char>|
                                        #[trigger] old(subs).subscribers_of(c2).contains(y)
                                            implies removed.take(j + 1).contains(y) by {}
                                } else {
                                    if old(subs).has_client() && old(subs).has_subscribers(c2) && (
                                    forall|y: Seq<char>|
                                        #[trigger] old(subs).subscribers_of(c2).contains(y)
                                            ==> removed.take(j + 1).contains(y)) {
                                        assert(exists|y0: Seq<char>|
                                            #[trigger] old(subs).subscribers_of(c2).contains(y0)
                                                && !removed.take(j as int).contains(y0));
                                        let y0 = choose|y0: Seq<char>|
                                            #[trigger] old(subs).subscribers_of(c2).contains(y0)
                                                && !removed.take(j as int).contains(y0);
                                        assert(removed.take(j + 1).contains(y0));
                                        assert(y0 == id);
                                        assert(subs_pre.subscribers_of(c2).contains(id));
                                        assert(subs_pre.subscribers_of(c2) =~= Set::empty().insert(
                                            id,
                                        )) by {
                                            assert forall|y: Seq<char>|
                                                #[trigger] subs_pre.subscribers_of(c2).contains(y)
                                                    implies y == id by {
                                                assert(old(subs).subscribers_of(c2).contains(y));
                                                assert(removed.take(j + 1).contains(y));
                                            }
                                        }
                                        assert(subs_pre.sole_subscriber(c2, id));
                                        assert(subs_pre.has_client());
                                        assert(false);
                                    }
                                }
                            }
                        }
                    }
                    j = j + 1;
                }
                proof {
                    assert(removed.take(removed.len() as int) =~= removed);
                    let un = self.users@;
                    // every surviving entry is an old entry
                    assert forall|i: int| 0 <= i < un.len() implies un[i] == (if i < k as int {
                        users_old[i]
                    } else {
                        users_old[i + 1]
                    }) by {}
                    assert(unames(un) =~= unames(users_old).remove(k as int));
                    lemma_unique_remove_contains(unames(users_old), k as int, username@);
                    // which names survive
                    assert forall|n: Seq<char>|
                        #[trigger] has_name(un, n) <==> (has_name(users_old, n) && n
                            != username@) by {}
                    // surviving names keep their id lists
                    assert forall|n: Seq<char>|
                        n != username@ implies #[trigger] ids_for(un, n) == ids_for(
                        users_old,
                        n,
                    ) by {
                        if has_name(users_old, n) {
                            let i = choose|i: int|
                                0 <= i < users_old.len() && unames(users_old)[i] == n;
                            assert(users_old[i].0@ == n);
                            lemma_name_index_unique(users_old, n, i);
                            assert(i != k as int);
                            let i2 = if i < k as int {
                                i
                            } else {
                                i - 1
                            };
                            assert(un[i2] == users_old[i]);
                            lemma_name_index_unique(un, n, i2);
                        } else {
                            assert(!has_name(un, n));
                        }
                    }
                    // the connection list and the name index agree again
                    assert forall|id: Seq<char>|
                        #[trigger] conn_ids(self.ws@).contains(id) <==> user_carries(un, id) by {
                        if conn_ids(self.ws@).contains(id) {
                            assert(conn_ids(ws_old).contains(id) && !removed.contains(id));
                            let i = choose|i: int|
                                0 <= i < users_old.len() && (#[trigger] infos_ids(
                                    users_old[i].1@,
                                )).contains(id);
                            assert(i != k as int);
                            let i2 = if i < k as int {
                                i
                            } else {
                                i - 1
                            };
                            assert(infos_ids(un[i2].1@).contains(id));
                            assert(user_carries(un, id));
                        }
                        if user_carries(un, id) {
                            let i2 = choose|i2: int|
                                0 <= i2 < un.len() && (#[trigger] infos_ids(un[i2].1@)).contains(
                                    id,
                                );
                            let i = if i2 < k as int {
                                i2
                            } else {
                                i2 + 1
                            };
                            assert(infos_ids(users_old[i].1@).contains(id));
                            assert(user_carries(users_old, id));
                            assert(conn_ids(ws_old).contains(id));
                            assert(!removed.contains(id)) by {
                                if removed.contains(id) {
                                    let a = choose|a: int|
                                        0 <= a < removed.len() && removed[a] == id;
                                    let b = choose|b: int|
                                        0 <= b < users_old[i].1@.len() && infos_ids(
                                            users_old[i].1@,
                                        )[b] == id;
                                    assert(users_old[k as int].1@[a].client_id@
                                        == users_old[i].1@[b].client_id@);
                                }
                            }
                        }
                    }
                    // no id appears twice among the survivors
                    assert forall|i1: int, j1: int, i2: int, j2: int|
                        #![trigger un[i1].1@[j1].client_id@, un[i2].1@[j2].client_id@]
                        0 <= i1 < un.len() && 0 <= j1 < un[i1].1@.len() && 0 <= i2 < un.len() && 0
                            <= j2 < un[i2].1@.len() && (i1 != i2 || j1 != j2) implies un[i1].1@[j1].client_id@
                        != un[i2].1@[j2].client_id@ by {
                        let a1 = if i1 < k as int {
                            i1
                        } else {
                            i1 + 1
                        };
                        let a2 = if i2 < k as int {
                            i2
                        } else {
                            i2 + 1
                        };
                        assert(un[i1].1@[j1].client_id@ == users_old[a1].1@[j1].client_id@);
                        assert(un[i2].1@[j2].client_id@ == users_old[a2].1@[j2].client_id@);
                    }
                }
            },
        }
    }
}

/// One delivery attempt each for the listed client ids, in order, all
/// carrying the same payload.
pub open spec fn paired(ids: Seq<Seq<char>>, m: WsMessageView) -> Seq<(Seq<char>, WsMessageView)> {
    Seq::new(ids.len(), |i: int| (ids[i], m))
}

/// The client ids of a stretch of the attempt log, in order.
pub open spec fn attempt_ids(log: Seq<(Seq<char>, WsMessageView)>) -> Seq<Seq<char>> {
    Seq::new(log.len(), |i: int| log[i].0)
}

/// The attempt log grew by exactly the first `k` of the listed ids, each
/// attempt carrying the payload `m`.
pub open spec fn attempted_prefix(
    pre: Seq<(Seq<char>, WsMessageView)>,
    post: Seq<(Seq<char>, WsMessageView)>,
    ids: Seq<Seq<char>>,
    m: WsMessageView,
    k: int,
) -> bool {
    0 <= k <= ids.len() && post == pre + paired(ids.take(k), m)
}

/// Some entry of the name index carries the client id.
pub open spec fn user_carries(users: Seq<(String, Vec<WebsocketInfo>)>, id: Seq<char>) -> bool {
    exists|i: int|
        0 <= i < users.len() && (#[trigger] infos_ids(users[i].1@)).contains(id)
}

/// With unique display names, any entry bearing name `n` is the entry the
/// name index points at.
proof fn lemma_name_index_unique(users: Seq<(String, Vec<WebsocketInfo>)>, n: Seq<char>, k: int)
    requires
        seq_unique(unames(users)),
        0 <= k < users.len(),
        users[k].0@ == n,
    ensures
        has_name(users, n),
        name_index(users, n) == k,
{
    assert(unames(users)[k] == n);
    assert(unames(users).contains(n));
    let i = name_index(users, n);
    assert(0 <= i < users.len() && users[i].0@ == n);
    if i != k {
        assert(unames(users)[i] == unames(users)[k]);
        assert(false);
    }
}

/// The position of the entry for `name`, if the index has one.
fn find_name_index(users: &Vec<(String, Vec<WebsocketInfo>)>, name: &str) -> (r: Option<usize>)
    ensures
        match r {
            Some(k) => k < users@.len() && users@[k as int].0@ == name@,
            None => !has_name(users@, name@),
        },
{
    let mut i: usize = 0;
    while i < users.len()
        invariant
            i <= users@.len(),
            forall|j: int| 0 <= j < i ==> users@[j].0@ != name@,
        decreases users@.len() - i,
    {
        if str_eq(users[i].0.as_str(), name) {
            return Some(i);
        }
        i = i + 1;
    }
    proof {
        assert forall|j: int| 0 <= j < unames(users@).len() implies unames(users@)[j] != name@ by {
            assert(users@[j].0@ != name@);
        }
    }
    None
}

/// The position of the connection with this client id, if registered.
fn find_conn_index(ws: &Vec<(String, WebsocketState)>, id: &str) -> (r: Option<usize>)
    ensures
        match r {
            Some(k) => k < ws@.len() && ws@[k as int].0@ == id@,
            None => !conn_ids(ws@).contains(id@),
        },
{
    let mut i: usize = 0;
    while i < ws.len()
        invariant
            i <= ws@.len(),
            forall|j: int| 0 <= j < i ==> ws@[j].0@ != id@,
        decreases ws@.len() - i,
    {
        if str_eq(ws[i].0.as_str(), id) {
            return Some(i);
        }
        i = i + 1;
    }
    proof {
        assert forall|j: int| 0 <= j < conn_ids(ws@).len() implies conn_ids(ws@)[j] != id@ by {
            assert(ws@[j].0@ != id@);
        }
    }
    None
}

} // verus!
