//! Bookkeeping of the P2P layer: the peers connected to us (each once, with
//! the name they go by), the room topics we are subscribed to, topic names,
//! and the chat messages we publish. Running the libp2p swarm is the
//! application's part; it reports connections, names and subscriptions here
//! and publishes the events these functions return.

use vstd::prelude::*;
use vstd::string::*;
use crate::chat::{Message, MessageView, User, UserView, users_view};
use crate::primitives::{new_uuid, now_micros, uuid_v4_text};
use crate::text::{byte_prefix, can_cut_at, cut_at};

verus! {

/// Gossipsub topic every node subscribes to.
pub const CHAT_TOPIC: &'static str = "wiretalk-chat";

/// Events the network layer reports to the application.
pub enum P2PEvent {
    MessageReceived(Message),
    PeerJoined { peer_id: String, username: Option<String> },
    PeerLeft { peer_id: String, username: String },
    PeerListUpdated { peers: Vec<User> },
    KeyExchangeReceived { peer_id: String, public_key: String, key_fingerprint: String },
    RoomInvitationReceived { room_id: String, inviter_peer_id: String, inviter_username: String },
    PeerSubscribed { peer_id: String },
}

/// The gossipsub topic of a room.
pub open spec fn room_topic_of(room_id: Seq<char>) -> Seq<char> {
    "wiretalk-room-"@ + room_id
}

pub fn room_topic(room_id: &str) -> (t: String)
    ensures
        t@ == room_topic_of(room_id@),
{
    String::from_str("wiretalk-room-").concat(room_id)
}

/// A chat message we publish: a fresh id (a random version-4 UUID), the current time, and the room
/// given or `default`.
pub fn chat_message(content: String, username: String, room_id: Option<String>) -> (m: Message)
    ensures
        uuid_v4_text(m.id@),
        m.content@ == content@,
        m.username@ == username@,
        m.room_id@ == match room_id {
            Some(r) => r@,
            None => "default"@,
        },
        !m.encrypted,
{
    let room = match room_id {
        Some(r) => r,
        None => String::from_str("default"),
    };
    Message {
        id: new_uuid(),
        username,
        content,
        timestamp: now_micros(),
        room_id: room,
        encrypted: false,
    }
}

// ─── Connected peers ─────────────────────────────────────────────────────

/// The name a newly connected peer goes by: `Peer_` and the first 8 bytes of its id.
pub open spec fn default_peer_name(peer_id: Seq<char>) -> Seq<char> {
    "Peer_"@ + byte_prefix(peer_id, 8)
}

pub open spec fn has_user(users: Seq<UserView>, id: Seq<char>) -> bool {
    exists|i: int| 0 <= i < users.len() && users[i].id == id
}

pub open spec fn ids_distinct(users: Seq<UserView>) -> bool {
    forall|i: int, j: int| 0 <= i < users.len() && 0 <= j < users.len() && i != j ==> users[i].id != users[j].id
}

/// The users without the one with id `id`.
pub open spec fn without_user(users: Seq<UserView>, id: Seq<char>) -> Seq<UserView>
    decreases users.len(),
{
    if users.len() == 0 {
        users
    } else if users.last().id == id {
        without_user(users.drop_last(), id)
    } else {
        without_user(users.drop_last(), id).push(users.last())
    }
}

/// The events, by value.
pub enum EventView {
    MessageReceived(MessageView),
    PeerJoined { peer_id: Seq<char>, username: Option<Seq<char>> },
    PeerLeft { peer_id: Seq<char>, username: Seq<char> },
    PeerListUpdated { peers: Seq<UserView> },
    KeyExchangeReceived { peer_id: Seq<char>, public_key: Seq<char>, key_fingerprint: Seq<char> },
    RoomInvitationReceived { room_id: Seq<char>, inviter_peer_id: Seq<char>, inviter_username: Seq<char> },
    PeerSubscribed { peer_id: Seq<char> },
}

impl View for P2PEvent {
    type V = EventView;

    open spec fn view(&self) -> EventView {
        match self {
            P2PEvent::MessageReceived(m) => EventView::MessageReceived(m@),
            P2PEvent::PeerJoined { peer_id, username } => EventView::PeerJoined {
                peer_id: peer_id@,
                username: crate::chat::opt_str(*username),
            },
            P2PEvent::PeerLeft { peer_id, username } => EventView::PeerLeft { peer_id: peer_id@, username: username@ },
            P2PEvent::PeerListUpdated { peers } => EventView::PeerListUpdated { peers: users_view(peers@) },
            P2PEvent::KeyExchangeReceived { peer_id, public_key, key_fingerprint } => EventView::KeyExchangeReceived {
                peer_id: peer_id@,
                public_key: public_key@,
                key_fingerprint: key_fingerprint@,
            },
            P2PEvent::RoomInvitationReceived { room_id, inviter_peer_id, inviter_username } => EventView::RoomInvitationReceived {
                room_id: room_id@,
                inviter_peer_id: inviter_peer_id@,
                inviter_username: inviter_username@,
            },
            P2PEvent::PeerSubscribed { peer_id } => EventView::PeerSubscribed { peer_id: peer_id@ },
        }
    }
}

pub open spec fn events_view(s: Seq<P2PEvent>) -> Seq<EventView> {
    s.map_values(|e: P2PEvent| e@)
}

/// The peers connected to us, each once.
pub struct PeerRegistry {
    peers: Vec<User>,
}

fn copy_users(users: &Vec<User>) -> (r: Vec<User>)
    ensures
        users_view(r@) == users_view(users@),
{
    let mut r: Vec<User> = Vec::new();
    let mut i: usize = 0;
    while i < users.len()
        invariant
            i <= users@.len(),
            r@.len() == i,
            forall|j: int| 0 <= j < i ==> #[trigger] r@[j]@ == users@[j]@,
        decreases users@.len() - i,
    {
        r.push(users[i].duplicate());
        i = i + 1;
    }
    assert(users_view(r@) =~= users_view(users@));
    r
}

impl PeerRegistry {
    /// The connected peers, in the order they connected.
    pub closed spec fn users(&self) -> Seq<UserView> {
        users_view(self.peers@)
    }

    /// No peer is listed twice.
    pub open spec fn wf(&self) -> bool {
        ids_distinct(self.users())
    }

    /// No peer connected.
    pub fn new() -> (r: PeerRegistry)
        ensures
            r.wf(),
            r.users() == Seq::<UserView>::empty(),
    {
        let r = PeerRegistry { peers: Vec::new() };
        assert(r.users() =~= Seq::<UserView>::empty());
        r
    }

    fn find(&self, id: &String) -> (r: Option<usize>)
        ensures
            match r {
                Some(i) => i < self.users().len() && self.users()[i as int].id == id@,
                None => !has_user(self.users(), id@),
            },
    {
        let mut i: usize = 0;
        while i < self.peers.len()
            invariant
                i <= self.peers@.len(),
                forall|j: int| 0 <= j < i ==> self.peers@[j]@.id != id@,
            decreases self.peers@.len() - i,
        {
            if self.peers[i].id == *id {
                assert(self.users()[i as int] == self.peers@[i as int]@);
                return Some(i);
            }
            i = i + 1;
        }
        assert forall|j: int| 0 <= j < self.users().len() implies self.users()[j].id != id@ by {
            assert(self.users()[j] == self.peers@[j]@);
        }
        None
    }

    /// Whether `peer_id` is listed.
    pub fn is_connected(&self, peer_id: &str) -> (b: bool)
        ensures
            b == has_user(self.users(), peer_id@),
    {
        let id = String::from_str(peer_id);
        self.find(&id).is_some()
    }

    /// The connected peers.
    pub fn list(&self) -> (r: Vec<User>)
        ensures
            users_view(r@) == self.users(),
    {
        copy_users(&self.peers)
    }

    /// A connection to `peer_id` was established at time `now`. A peer seen
    /// for the first time is listed under its default name and announced,
    /// followed by the new list; a further connection changes nothing.
    pub fn connection_established_at(&mut self, peer_id: String, now: i64) -> (events: Vec<P2PEvent>)
        requires
            old(self).wf(),
            has_user(old(self).users(), peer_id@) || can_cut_at(peer_id@, 8),
        ensures
            final(self).wf(),
            has_user(old(self).users(), peer_id@) ==> final(self).users() == old(self).users() && events@.len() == 0,
            !has_user(old(self).users(), peer_id@) ==> {
                let user = UserView { id: peer_id@, username: default_peer_name(peer_id@), connected_at: now };
                &&& final(self).users() == old(self).users().push(user)
                &&& events_view(events@) == seq![
                    EventView::PeerJoined { peer_id: peer_id@, username: Some(user.username) },
                    EventView::PeerListUpdated { peers: final(self).users() },
                ]
            },
    {
        match self.find(&peer_id) {
            Some(_) => Vec::new(),
            None => {
                let prefix = cut_at(peer_id.as_str(), 8);
                let name = String::from_str("Peer_").concat(prefix.as_str());
                let user = User { id: peer_id.clone(), username: name.clone(), connected_at: now };
                let ghost before = self.users();
                self.peers.push(user);
                assert(self.users() =~= before.push(self.peers@.last()@));
                proof {
                    let u = self.users();
                    assert forall|i: int, j: int| 0 <= i < u.len() && 0 <= j < u.len() && i != j implies u[i].id != u[j].id by {
                        if i < before.len() && j < before.len() {
                            assert(u[i] == before[i] && u[j] == before[j]);
                        } else if i < before.len() {
                            assert(u[i] == before[i]);
                        } else {
                            assert(u[j] == before[j]);
                        }
                    }
                }
                let mut events: Vec<P2PEvent> = Vec::new();
                events.push(P2PEvent::PeerJoined { peer_id, username: Some(name) });
                events.push(P2PEvent::PeerListUpdated { peers: self.list() });
                assert(events_view(events@) =~= seq![
                    events@[0]@,
                    events@[1]@,
                ]);
                events
            },
        }
    }

    /// A connection to `peer_id` was established now.
    pub fn connection_established(&mut self, peer_id: String) -> (events: Vec<P2PEvent>)
        requires
            old(self).wf(),
            has_user(old(self).users(), peer_id@) || can_cut_at(peer_id@, 8),
        ensures
            final(self).wf(),
            has_user(old(self).users(), peer_id@) ==> final(self).users() == old(self).users() && events@.len() == 0,
            !has_user(old(self).users(), peer_id@) ==> {
                &&& final(self).users().len() == old(self).users().len() + 1
                &&& final(self).users().drop_last() == old(self).users()
                &&& final(self).users().last().id == peer_id@
                &&& final(self).users().last().username == default_peer_name(peer_id@)
                &&& events_view(events@) == seq![
                    EventView::PeerJoined { peer_id: peer_id@, username: Some(default_peer_name(peer_id@)) },
                    EventView::PeerListUpdated { peers: final(self).users() },
                ]
            },
    {
        let now = now_micros();
        let events = self.connection_established_at(peer_id, now);
        proof {
            if !has_user(old(self).users(), peer_id@) {
                assert(self.users().drop_last() =~= old(self).users());
            }
        }
        events
    }

    /// A connection to `peer_id` closed. A listed peer is removed and its
    /// departure announced, followed by the new list; otherwise nothing changes.
    pub fn connection_closed(&mut self, peer_id: &str) -> (events: Vec<P2PEvent>)
        requires
            old(self).wf(),
        ensures
            final(self).wf(),
            !has_user(old(self).users(), peer_id@) ==> final(self).users() == old(self).users() && events@.len() == 0,
            forall|i: int| 0 <= i < old(self).users().len() && old(self).users()[i].id == peer_id@ ==> {
                &&& final(self).users() == without_user(old(self).users(), peer_id@)
                &&& events_view(events@) == seq![
                    EventView::PeerLeft { peer_id: peer_id@, username: #[trigger] old(self).users()[i].username },
                    EventView::PeerListUpdated { peers: final(self).users() },
                ]
            },
    {
        let id = String::from_str(peer_id);
        let i = match self.find(&id) {
            None => return Vec::new(),
            Some(i) => i,
        };
        let username = self.peers[i].username.clone();
        let ghost u = self.users();
        let mut kept: Vec<User> = Vec::new();
        let mut k: usize = 0;
        while k < self.peers.len()
            invariant
                k <= self.peers@.len(),
                u == users_view(self.peers@),
                users_view(kept@) == without_user(u.take(k as int), id@),
            decreases self.peers@.len() - k,
        {
            proof {
                assert(u.take(k + 1).drop_last() =~= u.take(k as int));
                assert(u.take(k + 1).last() == u[k as int]);
            }
            if self.peers[k].id != id {
                let ghost before = users_view(kept@);
                kept.push(self.peers[k].duplicate());
                assert(users_view(kept@) =~= before.push(u[k as int]));
            }
            k = k + 1;
        }
        assert(u.take(self.peers@.len() as int) =~= u);
        self.peers = kept;
        proof {
            lemma_without_user_distinct(u, id@);
        }
        let mut events: Vec<P2PEvent> = Vec::new();
        events.push(P2PEvent::PeerLeft { peer_id: id, username });
        events.push(P2PEvent::PeerListUpdated { peers: self.list() });
        proof {
            assert forall|j: int| 0 <= j < u.len() && u[j].id == peer_id@ implies u[j].username == u[i as int].username by {
                if j != i {
                    assert(u[j].id != u[i as int].id);
                }
            }
        }
        assert(events_view(events@) =~= seq![events@[0]@, events@[1]@]);
        events
    }

    /// `peer_id` goes by `username` (as its identify info or its latest chat
    /// message says). A listed peer whose name changes is renamed and the new
    /// list announced; otherwise nothing changes.
    pub fn rename(&mut self, peer_id: &str, username: String) -> (events: Vec<P2PEvent>)
        requires
            old(self).wf(),
        ensures
            final(self).wf(),
            forall|i: int| 0 <= i < old(self).users().len() && #[trigger] old(self).users()[i].id == peer_id@ ==> {
                if old(self).users()[i].username == username@ {
                    final(self).users() == old(self).users() && events@.len() == 0
                } else {
                    &&& final(self).users() == old(self).users().update(i, UserView { username: username@, ..old(self).users()[i] })
                    &&& events_view(events@) == seq![EventView::PeerListUpdated { peers: final(self).users() }]
                }
            },
            !has_user(old(self).users(), peer_id@) ==> final(self).users() == old(self).users() && events@.len() == 0,
    {
        let id = String::from_str(peer_id);
        let i = match self.find(&id) {
            None => return Vec::new(),
            Some(i) => i,
        };
        let ghost u = self.users();
        proof {
            assert forall|j: int| 0 <= j < u.len() && u[j].id == peer_id@ implies j == i by {
                if j != i {
                    assert(u[j].id != u[i as int].id);
                }
            }
        }
        if self.peers[i].username == username {
            return Vec::new();
        }
        let updated = User { id: self.peers[i].id.clone(), username, connected_at: self.peers[i].connected_at };
        self.peers.set(i, updated);
        assert(self.users() =~= u.update(i as int, UserView { username: self.peers@[i as int].username@, ..u[i as int] }));
        proof {
            let n = self.users();
            assert forall|a: int, b: int| 0 <= a < n.len() && 0 <= b < n.len() && a != b implies n[a].id != n[b].id by {
                assert(n[a].id == u[a].id && n[b].id == u[b].id);
            }
        }
        let mut events: Vec<P2PEvent> = Vec::new();
        events.push(P2PEvent::PeerListUpdated { peers: self.list() });
        assert(events_view(events@) =~= seq![events@[0]@]);
        events
    }
}

proof fn lemma_without_user_distinct(users: Seq<UserView>, id: Seq<char>)
    requires
        ids_distinct(users),
    ensures
        ids_distinct(without_user(users, id)),
        !has_user(without_user(users, id), id),
        forall|j: int| 0 <= j < without_user(users, id).len() ==> has_user(users, #[trigger] without_user(users, id)[j].id),
    decreases users.len(),
{
    if users.len() > 0 {
        let init = users.drop_last();
        assert(ids_distinct(init)) by {
            assert forall|i: int, j: int| 0 <= i < init.len() && 0 <= j < init.len() && i != j implies init[i].id != init[j].id by {
                assert(init[i] == users[i] && init[j] == users[j]);
            }
        }
        lemma_without_user_distinct(init, id);
        let wi = without_user(init, id);
        let w = without_user(users, id);
        assert forall|j: int| 0 <= j < w.len() implies has_user(users, #[trigger] w[j].id) by {
            if j < wi.len() {
                assert(w[j] == wi[j]);
                assert(has_user(init, wi[j].id));
                let k = choose|k: int| 0 <= k < init.len() && init[k].id == wi[j].id;
                assert(users[k] == init[k]);
            } else {
                assert(users[users.len() - 1].id == w[j].id);
            }
        }
        if has_user(w, id) {
            let j = choose|j: int| 0 <= j < w.len() && w[j].id == id;
            if j < wi.len() {
                assert(w[j] == wi[j]);
            }
        }
        if users.last().id != id {
            assert forall|a: int, b: int| 0 <= a < w.len() && 0 <= b < w.len() && a != b implies w[a].id != w[b].id by {
                if a < wi.len() && b < wi.len() {
                    assert(w[a] == wi[a] && w[b] == wi[b]);
                } else if a < wi.len() {
                    assert(w[a] == wi[a]);
                    let k = choose|k: int| 0 <= k < init.len() && init[k].id == wi[a].id;
                    assert(users[k] == init[k]);
                } else {
                    assert(w[b] == wi[b]);
                    let k = choose|k: int| 0 <= k < init.len() && init[k].id == wi[b].id;
                    assert(users[k] == init[k]);
                }
            }
        }
    }
}

proof fn lemma_without_user_absent(users: Seq<UserView>, id: Seq<char>)
    requires
        !has_user(users, id),
    ensures
        without_user(users, id) == users,
    decreases users.len(),
{
    if users.len() > 0 {
        let init = users.drop_last();
        assert(!has_user(init, id)) by {
            if has_user(init, id) {
                let i = choose|i: int| 0 <= i < init.len() && init[i].id == id;
                assert(users[i] == init[i]);
            }
        }
        lemma_without_user_absent(init, id);
        assert(users.last().id != id);
        assert(init.push(users.last()) =~= users);
    }
}

/// Whether a user is not the one with id `id`.
pub open spec fn user_other_than(id: Seq<char>) -> spec_fn(UserView) -> bool {
    |u: UserView| u.id != id
}

proof fn lemma_without_user_filter(users: Seq<UserView>, id: Seq<char>)
    ensures
        without_user(users, id) == users.filter(user_other_than(id)),
    decreases users.len(),
{
    reveal(Seq::filter);
    if users.len() > 0 {
        lemma_without_user_filter(users.drop_last(), id);
    }
}

proof fn lemma_without_user_len(users: Seq<UserView>, id: Seq<char>)
    requires
        ids_distinct(users),
        has_user(users, id),
    ensures
        without_user(users, id).len() == users.len() - 1,
    decreases users.len(),
{
    let init = users.drop_last();
    assert(ids_distinct(init)) by {
        assert forall|i: int, j: int| 0 <= i < init.len() && 0 <= j < init.len() && i != j implies init[i].id != init[j].id by {
            assert(init[i] == users[i] && init[j] == users[j]);
        }
    }
    if users.last().id == id {
        assert(!has_user(init, id)) by {
            if has_user(init, id) {
                let k = choose|k: int| 0 <= k < init.len() && init[k].id == id;
                assert(users[k] == init[k]);
                assert(users[users.len() - 1].id == id);
            }
        }
        lemma_without_user_absent(init, id);
    } else {
        assert(has_user(init, id)) by {
            let k = choose|k: int| 0 <= k < users.len() && users[k].id == id;
            assert(k != users.len() - 1);
            assert(init[k] == users[k]);
        }
        lemma_without_user_len(init, id);
    }
}

/// A disconnect removes only the peer that left: the list afterwards is the
/// list before without that peer, every other peer kept in order, one
/// shorter when the peer was listed and unchanged when it was not.
pub proof fn law_close_keeps_other_peers(users: Seq<UserView>, id: Seq<char>)
    requires
        ids_distinct(users),
    ensures
        without_user(users, id) == users.filter(user_other_than(id)),
        forall|i: int| 0 <= i < users.len() && users[i].id != id ==> without_user(users, id).contains(#[trigger] users[i]),
        !has_user(without_user(users, id), id),
        has_user(users, id) ==> without_user(users, id).len() == users.len() - 1,
        !has_user(users, id) ==> without_user(users, id) == users,
{
    lemma_without_user_filter(users, id);
    broadcast use vstd::seq_lib::group_filter_ensures;
    assert forall|i: int| 0 <= i < users.len() && users[i].id != id implies without_user(users, id).contains(#[trigger] users[i]) by {
        assert(user_other_than(id)(users[i]));
        users.lemma_filter_contains(user_other_than(id), i);
    }
    lemma_without_user_distinct(users, id);
    if has_user(users, id) {
        lemma_without_user_len(users, id);
    } else {
        lemma_without_user_absent(users, id);
    }
}

/// A peer that connects for the first time and then disconnects leaves the
/// list of connected peers as it was.
pub proof fn law_connect_then_close(users: Seq<UserView>, joined: UserView)
    requires
        ids_distinct(users),
        !has_user(users, joined.id),
    ensures
        without_user(users.push(joined), joined.id) == users,
{
    assert(users.push(joined).drop_last() =~= users);
    lemma_without_user_absent(users, joined.id);
}

// ─── Control messages on the chat topic ──────────────────────────────────

/// The string fields of a gossip message that reads as a JSON object, as
/// the application read them (`None` where a field is absent or not a string).
pub struct GossipFields {
    /// The `type` field.
    pub kind: Option<String>,
    /// The `target` field: the peer a control message is addressed to.
    pub target: Option<String>,
    pub peer_id: Option<String>,
    pub public_key: Option<String>,
    pub key_fingerprint: Option<String>,
    pub room_id: Option<String>,
    pub inviter_peer_id: Option<String>,
    pub inviter_username: Option<String>,
}

/// What to do with a gossip message.
pub enum GossipRoute {
    /// A control message for us: report this event.
    Deliver(P2PEvent),
    /// A control message not for us, or without the fields it needs: drop it.
    Drop,
    /// Not a control message: read it as a chat message.
    AsChatMessage,
}

/// A control message is for us when it names no target or names us.
pub open spec fn addressed_to(target: Option<Seq<char>>, me: Seq<char>) -> bool {
    match target {
        Some(t) => t == me,
        None => true,
    }
}

/// How a gossip message is routed: `fields` is `None` when the message is
/// not a JSON object.
pub open spec fn gossip_route(fields: Option<GossipFields>, me: Seq<char>, r: GossipRoute) -> bool {
    match fields {
        None => r is AsChatMessage,
        Some(f) => {
            let o = |x: Option<String>| crate::chat::opt_str(x);
            if o(f.kind) == Some("key_exchange"@) {
                if addressed_to(o(f.target), me) && f.peer_id is Some && f.public_key is Some && f.key_fingerprint is Some {
                    r matches GossipRoute::Deliver(e) && e@ == EventView::KeyExchangeReceived {
                        peer_id: f.peer_id.unwrap()@,
                        public_key: f.public_key.unwrap()@,
                        key_fingerprint: f.key_fingerprint.unwrap()@,
                    }
                } else {
                    r is Drop
                }
            } else if o(f.kind) == Some("room_invitation"@) {
                if addressed_to(o(f.target), me) && f.room_id is Some && f.inviter_peer_id is Some && f.inviter_username is Some {
                    r matches GossipRoute::Deliver(e) && e@ == EventView::RoomInvitationReceived {
                        room_id: f.room_id.unwrap()@,
                        inviter_peer_id: f.inviter_peer_id.unwrap()@,
                        inviter_username: f.inviter_username.unwrap()@,
                    }
                } else {
                    r is Drop
                }
            } else {
                r is AsChatMessage
            }
        },
    }
}

fn kind_is(kind: &Option<String>, name: &str) -> (b: bool)
    ensures
        b == (crate::chat::opt_str(*kind) == Some(name@)),
{
    match kind {
        Some(k) => {
            let n = String::from_str(name);
            *k == n
        },
        None => false,
    }
}

fn is_for(target: &Option<String>, me: &str) -> (b: bool)
    ensures
        b == addressed_to(crate::chat::opt_str(*target), me@),
{
    match target {
        Some(t) => {
            let m = String::from_str(me);
            *t == m
        },
        None => true,
    }
}

/// Route a gossip message received on the chat topic: key exchanges and
/// room invitations addressed to us (or to no one in particular) become
/// events, control messages for others or missing a field are dropped, and
/// anything else is read as a chat message.
pub fn route_gossip(fields: Option<GossipFields>, local_peer_id: &str) -> (r: GossipRoute)
    ensures
        gossip_route(fields, local_peer_id@, r),
{
    let f = match fields {
        None => return GossipRoute::AsChatMessage,
        Some(f) => f,
    };
    let for_us = is_for(&f.target, local_peer_id);
    if kind_is(&f.kind, "key_exchange") {
        match (f.peer_id, f.public_key, f.key_fingerprint) {
            (Some(peer_id), Some(public_key), Some(key_fingerprint)) => {
                if for_us {
                    GossipRoute::Deliver(P2PEvent::KeyExchangeReceived { peer_id, public_key, key_fingerprint })
                } else {
                    GossipRoute::Drop
                }
            },
            _ => GossipRoute::Drop,
        }
    } else if kind_is(&f.kind, "room_invitation") {
        match (f.room_id, f.inviter_peer_id, f.inviter_username) {
            (Some(room_id), Some(inviter_peer_id), Some(inviter_username)) => {
                if for_us {
                    GossipRoute::Deliver(P2PEvent::RoomInvitationReceived { room_id, inviter_peer_id, inviter_username })
                } else {
                    GossipRoute::Drop
                }
            },
            _ => GossipRoute::Drop,
        }
    } else {
        GossipRoute::AsChatMessage
    }
}

// ─── Room subscriptions ──────────────────────────────────────────────────

/// The rooms whose topic we are subscribed to.
pub struct RoomSubscriptions {
    rooms: Vec<String>,
}

impl RoomSubscriptions {
    /// The subscribed rooms.
    pub closed spec fn rooms(&self) -> Set<Seq<char>> {
        Set::new(|r: Seq<char>| exists|i: int| 0 <= i < self.rooms@.len() && self.rooms@[i]@ == r)
    }

    /// No room subscribed.
    pub fn new() -> (s: RoomSubscriptions)
        ensures
            s.rooms() == Set::<Seq<char>>::empty(),
    {
        let s = RoomSubscriptions { rooms: Vec::new() };
        assert(s.rooms() =~= Set::<Seq<char>>::empty());
        s
    }

    fn index_of(&self, room_id: &String) -> (r: Option<usize>)
        ensures
            match r {
                Some(i) => i < self.rooms@.len() && self.rooms@[i as int]@ == room_id@,
                None => !self.rooms().contains(room_id@),
            },
    {
        let mut i: usize = 0;
        while i < self.rooms.len()
            invariant
                i <= self.rooms@.len(),
                forall|j: int| 0 <= j < i ==> self.rooms@[j]@ != room_id@,
            decreases self.rooms@.len() - i,
        {
            if self.rooms[i] == *room_id {
                return Some(i);
            }
            i = i + 1;
        }
        None
    }

    /// Whether we are subscribed to a room's topic.
    pub fn is_subscribed(&self, room_id: &str) -> (b: bool)
        ensures
            b == self.rooms().contains(room_id@),
    {
        let id = String::from_str(room_id);
        match self.index_of(&id) {
            Some(i) => {
                assert(self.rooms().contains(room_id@));
                true
            },
            None => false,
        }
    }

    /// The topic to subscribe to for joining a room, or `None` when we
    /// already follow it (nothing is to be done).
    pub fn join_topic(&self, room_id: &str) -> (t: Option<String>)
        ensures
            self.rooms().contains(room_id@) ==> t is None,
            !self.rooms().contains(room_id@) ==> (t matches Some(topic) && topic@ == room_topic_of(room_id@)),
    {
        if self.is_subscribed(room_id) {
            None
        } else {
            Some(room_topic(room_id))
        }
    }

    /// The topic to unsubscribe from for leaving a room, or `None` when we
    /// do not follow it (nothing is to be done).
    pub fn leave_topic(&self, room_id: &str) -> (t: Option<String>)
        ensures
            !self.rooms().contains(room_id@) ==> t is None,
            self.rooms().contains(room_id@) ==> (t matches Some(topic) && topic@ == room_topic_of(room_id@)),
    {
        if self.is_subscribed(room_id) {
            Some(room_topic(room_id))
        } else {
            None
        }
    }

    /// Record a subscription that succeeded.
    pub fn record_joined(&mut self, room_id: String)
        ensures
            final(self).rooms() == old(self).rooms().insert(room_id@),
    {
        match self.index_of(&room_id) {
            Some(_) => {
                assert(old(self).rooms().insert(room_id@) =~= old(self).rooms());
            },
            None => {
                let ghost before = self.rooms@;
                self.rooms.push(room_id);
                assert forall|r: Seq<char>| self.rooms().contains(r) <==> old(self).rooms().insert(room_id@).contains(r) by {
                    if self.rooms().contains(r) {
                        let i = choose|i: int| 0 <= i < self.rooms@.len() && self.rooms@[i]@ == r;
                        if i < before.len() {
                            assert(before[i] == self.rooms@[i]);
                        }
                    }
                    if old(self).rooms().contains(r) {
                        let i = choose|i: int| 0 <= i < before.len() && before[i]@ == r;
                        assert(self.rooms@[i] == before[i]);
                    }
                    if r == room_id@ {
                        assert(self.rooms@[before.len() as int]@ == r);
                    }
                }
                assert(self.rooms() =~= old(self).rooms().insert(room_id@));
            },
        }
    }

    /// Record an unsubscription that succeeded.
    pub fn record_left(&mut self, room_id: &str)
        ensures
            final(self).rooms() == old(self).rooms().remove(room_id@),
    {
        let id = String::from_str(room_id);
        let ghost s = self.rooms@;
        let mut kept: Vec<String> = Vec::new();
        let mut i: usize = 0;
        while i < self.rooms.len()
            invariant
                i <= self.rooms@.len(),
                self.rooms@ == s,
                forall|j: int| 0 <= j < kept@.len() ==> kept@[j]@ != id@ && exists|k: int| 0 <= k < s.len() && s[k]@ == #[trigger] kept@[j]@,
                forall|k: int| 0 <= k < i && s[k]@ != id@ ==> exists|j: int| 0 <= j < kept@.len() && #[trigger] kept@[j]@ == s[k]@,
            decreases self.rooms@.len() - i,
        {
            if self.rooms[i] != id {
                let ghost k0 = kept@;
                kept.push(self.rooms[i].clone());
                proof {
                    assert(kept@[k0.len() as int]@ == s[i as int]@);
                    assert forall|j: int| 0 <= j < kept@.len() implies kept@[j]@ != id@ && exists|k: int| 0 <= k < s.len() && s[k]@ == #[trigger] kept@[j]@ by {
                        if j < k0.len() {
                            assert(kept@[j] == k0[j]);
                        }
                    }
                    assert forall|k: int| 0 <= k < i + 1 && s[k]@ != id@ implies exists|j: int| 0 <= j < kept@.len() && #[trigger] kept@[j]@ == s[k]@ by {
                        if k < i {
                            let j = choose|j: int| 0 <= j < k0.len() && k0[j]@ == s[k]@;
                            assert(kept@[j] == k0[j]);
                        }
                    }
                }
            }
            i = i + 1;
        }
        self.rooms = kept;
        assert forall|r: Seq<char>| self.rooms().contains(r) <==> old(self).rooms().remove(id@).contains(r) by {
            if old(self).rooms().remove(id@).contains(r) {
                let k = choose|k: int| 0 <= k < s.len() && s[k]@ == r;
                let j = choose|j: int| 0 <= j < self.rooms@.len() && #[trigger] self.rooms@[j]@ == s[k]@;
            }
            if self.rooms().contains(r) {
                let j = choose|j: int| 0 <= j < self.rooms@.len() && self.rooms@[j]@ == r;
                assert(self.rooms@[j]@ != id@);
            }
        }
        assert(self.rooms() =~= old(self).rooms().remove(id@));
    }
}

} // verus!
