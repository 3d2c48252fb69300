//! The chat client's state and the decisions its commands make: rooms and
//! the current room, the message log, the username, end-to-end encryption
//! of outgoing messages, and what an incoming message, key exchange or room
//! invitation changes and shows. The network and the user interface are the
//! application's part; they hand these functions plain values.

use vstd::prelude::*;
use vstd::string::*;
use vstd::utf8::encode_utf8;
use crate::encryption::{opens_to, CryptoIdentity, EncryptedMessage, EncryptedMessageView, MessageCrypto};
use crate::primitives::{hex_decode, hex_decoded, hex_encode, hex_lower, new_uuid, now_micros, uuid_v4_text};
use crate::text::{byte_len, byte_prefix, can_cut_at, cut_at, str_byte_len};

verus! {

/// A chat message.
pub struct Message {
    pub id: String,
    pub username: String,
    pub content: String,
    /// Microseconds since the Unix epoch.
    pub timestamp: i64,
    pub room_id: String,
    /// Whether this message travelled encrypted
    pub encrypted: bool,
}

/// A chat room.
pub struct Room {
    pub id: String,
    pub name: String,
    /// Microseconds since the Unix epoch.
    pub created_at: i64,
}

/// A connected user.
pub struct User {
    pub id: String,
    pub username: String,
    /// Microseconds since the Unix epoch.
    pub connected_at: i64,
}

pub struct MessageView {
    pub id: Seq<char>,
    pub username: Seq<char>,
    pub content: Seq<char>,
    pub timestamp: i64,
    pub room_id: Seq<char>,
    pub encrypted: bool,
}

pub struct RoomView {
    pub id: Seq<char>,
    pub name: Seq<char>,
    pub created_at: i64,
}

pub struct UserView {
    pub id: Seq<char>,
    pub username: Seq<char>,
    pub connected_at: i64,
}

impl View for Message {
    type V = MessageView;

    open spec fn view(&self) -> MessageView {
        MessageView {
            id: self.id@,
            username: self.username@,
            content: self.content@,
            timestamp: self.timestamp,
            room_id: self.room_id@,
            encrypted: self.encrypted,
        }
    }
}

impl View for Room {
    type V = RoomView;

    open spec fn view(&self) -> RoomView {
        RoomView { id: self.id@, name: self.name@, created_at: self.created_at }
    }
}

impl View for User {
    type V = UserView;

    open spec fn view(&self) -> UserView {
        UserView { id: self.id@, username: self.username@, connected_at: self.connected_at }
    }
}

impl Message {
    /// A copy of this message.
    pub fn duplicate(&self) -> (r: Message)
        ensures
            r@ == self@,
    {
        Message {
            id: self.id.clone(),
            username: self.username.clone(),
            content: self.content.clone(),
            timestamp: self.timestamp,
            room_id: self.room_id.clone(),
            encrypted: self.encrypted,
        }
    }
}

impl Room {
    /// A copy of this room.
    pub fn duplicate(&self) -> (r: Room)
        ensures
            r@ == self@,
    {
        Room { id: self.id.clone(), name: self.name.clone(), created_at: self.created_at }
    }
}

impl User {
    /// A copy of this user.
    pub fn duplicate(&self) -> (r: User)
        ensures
            r@ == self@,
    {
        User { id: self.id.clone(), username: self.username.clone(), connected_at: self.connected_at }
    }
}

pub open spec fn messages_view(s: Seq<Message>) -> Seq<MessageView> {
    s.map_values(|m: Message| m@)
}

pub open spec fn rooms_view(s: Seq<Room>) -> Seq<RoomView> {
    s.map_values(|r: Room| r@)
}

pub open spec fn users_view(s: Seq<User>) -> Seq<UserView> {
    s.map_values(|u: User| u@)
}

pub open spec fn opt_str(o: Option<String>) -> Option<Seq<char>> {
    match o {
        Some(s) => Some(s@),
        None => None,
    }
}

/// Whether a room with id `id` is among `rooms`.
pub open spec fn has_room(rooms: Seq<RoomView>, id: Seq<char>) -> bool {
    exists|i: int| 0 <= i < rooms.len() && rooms[i].id == id
}

/// The rooms whose id is not `id`, in order.
pub open spec fn rooms_without(rooms: Seq<RoomView>, id: Seq<char>) -> Seq<RoomView>
    decreases rooms.len(),
{
    if rooms.len() == 0 {
        rooms
    } else if rooms.last().id == id {
        rooms_without(rooms.drop_last(), id)
    } else {
        rooms_without(rooms.drop_last(), id).push(rooms.last())
    }
}

/// The messages of room `id`, in order.
pub open spec fn messages_in(msgs: Seq<MessageView>, id: Seq<char>) -> Seq<MessageView>
    decreases msgs.len(),
{
    if msgs.len() == 0 {
        msgs
    } else if msgs.last().room_id == id {
        messages_in(msgs.drop_last(), id).push(msgs.last())
    } else {
        messages_in(msgs.drop_last(), id)
    }
}

fn contains_room(rooms: &Vec<Room>, id: &String) -> (b: bool)
    ensures
        b == has_room(rooms_view(rooms@), id@),
{
    let mut i: usize = 0;
    while i < rooms.len()
        invariant
            i <= rooms@.len(),
            forall|j: int| 0 <= j < i ==> rooms@[j].id@ != id@,
        decreases rooms@.len() - i,
    {
        if rooms[i].id == *id {
            assert(rooms_view(rooms@)[i as int].id == id@);
            return true;
        }
        i = i + 1;
    }
    assert forall|j: int| 0 <= j < rooms_view(rooms@).len() implies rooms_view(rooms@)[j].id != id@ by {
        assert(rooms_view(rooms@)[j] == rooms@[j]@);
    }
    false
}

fn rooms_except(rooms: &Vec<Room>, id: &String) -> (r: Vec<Room>)
    ensures
        rooms_view(r@) == rooms_without(rooms_view(rooms@), id@),
{
    let ghost rv = rooms_view(rooms@);
    let mut r: Vec<Room> = Vec::new();
    let mut i: usize = 0;
    while i < rooms.len()
        invariant
            i <= rooms@.len(),
            rv == rooms_view(rooms@),
            rooms_view(r@) == rooms_without(rv.take(i as int), id@),
        decreases rooms@.len() - i,
    {
        proof {
            assert(rv.take(i + 1).drop_last() =~= rv.take(i as int));
            assert(rv.take(i + 1).last() == rv[i as int]);
        }
        if rooms[i].id != *id {
            let ghost before = rooms_view(r@);
            r.push(rooms[i].duplicate());
            assert(rooms_view(r@) =~= before.push(rv[i as int]));
        }
        i = i + 1;
    }
    assert(rv.take(rooms@.len() as int) =~= rv);
    r
}

fn copy_rooms(rooms: &Vec<Room>) -> (r: Vec<Room>)
    ensures
        rooms_view(r@) == rooms_view(rooms@),
{
    let mut r: Vec<Room> = Vec::new();
    let mut i: usize = 0;
    while i < rooms.len()
        invariant
            i <= rooms@.len(),
            r@.len() == i,
            forall|j: int| 0 <= j < i ==> #[trigger] r@[j]@ == rooms@[j]@,
        decreases rooms@.len() - i,
    {
        r.push(rooms[i].duplicate());
        i = i + 1;
    }
    assert(rooms_view(r@) =~= rooms_view(rooms@));
    r
}

fn clone_opt(o: &Option<String>) -> (r: Option<String>)
    ensures
        opt_str(r) == opt_str(*o),
{
    match o {
        Some(s) => Some(s.clone()),
        None => None,
    }
}

/// Greeting shown when the app starts.
pub fn greet(name: &str) -> (s: String)
    ensures
        s@ == "Hello, "@ + name@ + "! Welcome to WireTalk P2P!"@,
{
    String::from_str("Hello, ").concat(name).concat("! Welcome to WireTalk P2P!")
}

} // verus!

verus! {

/// The chat client's state.
pub struct ChatState {
    messages: Vec<Message>,
    current_username: Option<String>,
    joined_rooms: Vec<Room>,
    current_room: Option<String>,
    message_crypto: Option<MessageCrypto>,
    encryption_enabled: bool,
}

impl ChatState {
    /// The message log, oldest first.
    pub closed spec fn messages(&self) -> Seq<MessageView> {
        messages_view(self.messages@)
    }

    /// Our username, once set.
    pub closed spec fn username(&self) -> Option<Seq<char>> {
        opt_str(self.current_username)
    }

    /// The joined rooms, in the order joined.
    pub closed spec fn rooms(&self) -> Seq<RoomView> {
        rooms_view(self.joined_rooms@)
    }

    /// The current room, if any.
    pub closed spec fn current_room(&self) -> Option<Seq<char>> {
        opt_str(self.current_room)
    }

    /// The encryption engine, once the network has started.
    pub closed spec fn crypto(&self) -> Option<MessageCrypto> {
        self.message_crypto
    }

    /// Whether outgoing messages are encrypted.
    pub closed spec fn encryption_on(&self) -> bool {
        self.encryption_enabled
    }

    /// The encryption engine, when present, is well formed.
    pub open spec fn wf(&self) -> bool {
        self.crypto() matches Some(c) ==> c.wf()
    }

    /// Everything but the rooms and the current room is as in `other`.
    pub open spec fn same_but_rooms(&self, other: ChatState) -> bool {
        &&& self.messages() == other.messages()
        &&& self.username() == other.username()
        &&& self.crypto() == other.crypto()
        &&& self.encryption_on() == other.encryption_on()
    }

    /// A fresh state: no messages, rooms or username, encryption on.
    pub fn new() -> (s: ChatState)
        ensures
            s.wf(),
            s.messages() == Seq::<MessageView>::empty(),
            s.username() is None,
            s.rooms() == Seq::<RoomView>::empty(),
            s.current_room() is None,
            s.crypto() is None,
            s.encryption_on(),
    {
        let s = ChatState {
            messages: Vec::new(),
            current_username: None,
            joined_rooms: Vec::new(),
            current_room: None,
            message_crypto: None,
            encryption_enabled: true,
        };
        assert(s.messages() =~= Seq::<MessageView>::empty());
        assert(s.rooms() =~= Seq::<RoomView>::empty());
        s
    }

    /// Record the session started with the network: our username and the
    /// encryption engine.
    pub fn start(&mut self, username: String, crypto: MessageCrypto)
        requires
            crypto.wf(),
        ensures
            final(self).wf(),
            final(self).username() == Some(username@),
            final(self).crypto() == Some(crypto),
            final(self).messages() == old(self).messages(),
            final(self).rooms() == old(self).rooms(),
            final(self).current_room() == old(self).current_room(),
            final(self).encryption_on() == old(self).encryption_on(),
    {
        self.current_username = Some(username);
        self.message_crypto = Some(crypto);
    }

    /// The encryption engine, once started.
    pub fn crypto_engine(&self) -> (c: Option<&MessageCrypto>)
        ensures
            match c {
                Some(c) => self.crypto() == Some(*c),
                None => self.crypto() is None,
            },
    {
        match &self.message_crypto {
            Some(c) => Some(c),
            None => None,
        }
    }

    /// Add a room with the given id, name and creation time, and make it current.
    pub fn create_room_with(&mut self, id: String, name: String, created_at: i64) -> (r: Room)
        ensures
            r@ == (RoomView { id: id@, name: name@, created_at }),
            final(self).rooms() == old(self).rooms().push(r@),
            final(self).current_room() == Some(id@),
            final(self).same_but_rooms(*old(self)),
            final(self).wf() == old(self).wf(),
    {
        let room = Room { id, name, created_at };
        let ghost before = self.rooms();
        self.joined_rooms.push(room.duplicate());
        self.current_room = Some(room.id.clone());
        assert(self.rooms() =~= before.push(room@));
        room
    }

    /// Create a room with a fresh id (a random version-4 UUID) and make it current.
    pub fn create_room(&mut self, name: String) -> (r: Room)
        ensures
            r.name@ == name@,
            uuid_v4_text(r.id@),
            final(self).rooms() == old(self).rooms().push(r@),
            final(self).current_room() == Some(r.id@),
            final(self).same_but_rooms(*old(self)),
            final(self).wf() == old(self).wf(),
    {
        let id = new_uuid();
        let now = now_micros();
        self.create_room_with(id, name, now)
    }

    /// Join a room (adding it, named after the first 8 bytes of its id, when
    /// it is not joined yet) and make it current.
    pub fn join_room_at(&mut self, room_id: String, now: i64)
        requires
            has_room(old(self).rooms(), room_id@) || can_cut_at(room_id@, 8),
        ensures
            final(self).rooms() == (if has_room(old(self).rooms(), room_id@) {
                old(self).rooms()
            } else {
                old(self).rooms().push(RoomView { id: room_id@, name: "Room "@ + byte_prefix(room_id@, 8), created_at: now })
            }),
            final(self).current_room() == Some(room_id@),
            final(self).same_but_rooms(*old(self)),
            final(self).wf() == old(self).wf(),
    {
        if !contains_room(&self.joined_rooms, &room_id) {
            let prefix = cut_at(room_id.as_str(), 8);
            let name = String::from_str("Room ").concat(prefix.as_str());
            let ghost before = self.rooms();
            let room = Room { id: room_id.clone(), name, created_at: now };
            self.joined_rooms.push(room);
            assert(self.rooms() =~= before.push(RoomView { id: room_id@, name: "Room "@ + byte_prefix(room_id@, 8), created_at: now }));
        }
        self.current_room = Some(room_id);
    }

    /// Join a room now.
    pub fn join_room(&mut self, room_id: String)
        requires
            has_room(old(self).rooms(), room_id@) || can_cut_at(room_id@, 8),
        ensures
            has_room(old(self).rooms(), room_id@) ==> final(self).rooms() == old(self).rooms(),
            !has_room(old(self).rooms(), room_id@) ==> final(self).rooms().len() == old(self).rooms().len() + 1
                && final(self).rooms().drop_last() == old(self).rooms()
                && final(self).rooms().last().id == room_id@
                && final(self).rooms().last().name == "Room "@ + byte_prefix(room_id@, 8),
            final(self).current_room() == Some(room_id@),
            final(self).same_but_rooms(*old(self)),
            final(self).wf() == old(self).wf(),
    {
        let now = now_micros();
        self.join_room_at(room_id, now);
        proof {
            if !has_room(old(self).rooms(), room_id@) {
                assert(self.rooms().drop_last() =~= old(self).rooms());
            }
        }
    }

    /// Leave a room: it is no longer joined, and no longer current if it was.
    pub fn leave_room(&mut self, room_id: &str)
        ensures
            final(self).rooms() == rooms_without(old(self).rooms(), room_id@),
            final(self).current_room() == (if old(self).current_room() == Some(room_id@) {
                None
            } else {
                old(self).current_room()
            }),
            final(self).same_but_rooms(*old(self)),
            final(self).wf() == old(self).wf(),
    {
        let id = String::from_str(room_id);
        self.joined_rooms = rooms_except(&self.joined_rooms, &id);
        let clear = match &self.current_room {
            Some(cur) => *cur == id,
            None => false,
        };
        if clear {
            self.current_room = None;
        }
    }

    /// Make a joined room current; a room not joined is refused.
    pub fn switch_room(&mut self, room_id: &str) -> (r: Result<(), String>)
        ensures
            has_room(old(self).rooms(), room_id@) ==> r is Ok && final(self).current_room() == Some(room_id@),
            !has_room(old(self).rooms(), room_id@) ==> (r matches Err(e) && e@ == "Room not joined"@)
                && final(self).current_room() == old(self).current_room(),
            final(self).rooms() == old(self).rooms(),
            final(self).same_but_rooms(*old(self)),
            final(self).wf() == old(self).wf(),
    {
        let id = String::from_str(room_id);
        if !contains_room(&self.joined_rooms, &id) {
            return Err(String::from_str("Room not joined"));
        }
        self.current_room = Some(id);
        Ok(())
    }

    /// Whether a room is joined.
    pub fn is_joined(&self, room_id: &str) -> (b: bool)
        ensures
            b == has_room(self.rooms(), room_id@),
    {
        let id = String::from_str(room_id);
        contains_room(&self.joined_rooms, &id)
    }

    /// The joined rooms.
    pub fn get_joined_rooms(&self) -> (r: Vec<Room>)
        ensures
            rooms_view(r@) == self.rooms(),
    {
        copy_rooms(&self.joined_rooms)
    }

    /// The current room.
    pub fn get_current_room(&self) -> (r: Option<String>)
        ensures
            opt_str(r) == self.current_room(),
    {
        clone_opt(&self.current_room)
    }

    /// The messages of a room, or all messages when no room is given.
    pub fn get_messages(&self, room_id: Option<String>) -> (r: Vec<Message>)
        ensures
            messages_view(r@) == match room_id {
                Some(id) => messages_in(self.messages(), id@),
                None => self.messages(),
            },
    {
        let ghost mv = self.messages();
        let mut r: Vec<Message> = Vec::new();
        let mut i: usize = 0;
        while i < self.messages.len()
            invariant
                i <= self.messages@.len(),
                mv == messages_view(self.messages@),
                messages_view(r@) == match room_id {
                    Some(id) => messages_in(mv.take(i as int), id@),
                    None => mv.take(i as int),
                },
            decreases self.messages@.len() - i,
        {
            proof {
                assert(mv.take(i + 1).drop_last() =~= mv.take(i as int));
                assert(mv.take(i + 1).last() == mv[i as int]);
            }
            let keep = match &room_id {
                Some(id) => self.messages[i].room_id == *id,
                None => true,
            };
            if keep {
                let ghost before = messages_view(r@);
                r.push(self.messages[i].duplicate());
                assert(messages_view(r@) =~= before.push(mv[i as int]));
            }
            proof {
                if room_id is None {
                    assert(mv.take(i + 1) =~= mv.take(i as int).push(mv[i as int]));
                }
            }
            i = i + 1;
        }
        assert(mv.take(self.messages@.len() as int) =~= mv);
        r
    }

    /// Set our username.
    pub fn update_username(&mut self, new_username: String)
        ensures
            final(self).username() == Some(new_username@),
            final(self).messages() == old(self).messages(),
            final(self).rooms() == old(self).rooms(),
            final(self).current_room() == old(self).current_room(),
            final(self).crypto() == old(self).crypto(),
            final(self).encryption_on() == old(self).encryption_on(),
    {
        self.current_username = Some(new_username);
    }

    /// Turn encryption of outgoing messages on or off.
    pub fn toggle_encryption(&mut self, enabled: bool)
        ensures
            final(self).encryption_on() == enabled,
            final(self).messages() == old(self).messages(),
            final(self).username() == old(self).username(),
            final(self).rooms() == old(self).rooms(),
            final(self).current_room() == old(self).current_room(),
            final(self).crypto() == old(self).crypto(),
    {
        self.encryption_enabled = enabled;
    }

    /// Whether outgoing messages are encrypted.
    pub fn is_encryption_enabled(&self) -> (b: bool)
        ensures
            b == self.encryption_on(),
    {
        self.encryption_enabled
    }

    /// Our public key in hex and its fingerprint, once encryption is set up.
    pub fn get_our_identity(&self) -> (r: Result<(String, String), String>)
        ensures
            match self.crypto() {
                Some(c) => r matches Ok((k, f)) && k@ == hex_lower(c.our_identity().public())
                    && f@ == c.our_identity().fingerprint(),
                None => r matches Err(e) && e@ == "Encryption not initialized"@,
            },
    {
        match &self.message_crypto {
            Some(c) => {
                let id = c.get_identity();
                Ok((identity_hex(id), id.fingerprint_text()))
            },
            None => Err(String::from_str("Encryption not initialized")),
        }
    }
}

fn identity_hex(id: &CryptoIdentity) -> (s: String)
    ensures
        s@ == hex_lower(id.public()),
{
    let k = id.public_key_bytes();
    hex_encode(k.as_slice())
}

} // verus!

verus! {

/// An encrypted copy of an outgoing message for one peer.
pub struct Envelope {
    pub peer_id: String,
    pub message: EncryptedMessage,
}

/// How an outgoing message goes out.
pub enum Delivery {
    /// In the clear, to the room's topic.
    Plaintext { content: String, username: String, room_id: String },
    /// One encrypted envelope per peer whose key we hold.
    Encrypted { username: String, room_id: String, envelopes: Vec<Envelope> },
}

/// An outgoing message and how to deliver it.
pub struct OutgoingPlan {
    /// The message as stored and shown locally.
    pub message: Message,
    pub delivery: Delivery,
}

/// The connected peers as reported by the network: `None` when the network
/// is not started, an error text when it could not be asked.
pub open spec fn connected_view(c: Option<Result<Vec<String>, String>>) -> Option<Result<Seq<Seq<char>>, Seq<char>>> {
    match c {
        None => None,
        Some(Ok(v)) => Some(Ok(crate::text::strs_view(v@))),
        Some(Err(e)) => Some(Err(e@)),
    }
}

/// The peers among `peers` whose key `c` holds, in order.
pub open spec fn keyed_peers(c: MessageCrypto, peers: Seq<Seq<char>>) -> Seq<Seq<char>>
    decreases peers.len(),
{
    if peers.len() == 0 {
        peers
    } else {
        let rest = keyed_peers(c, peers.drop_last());
        if c.peer_map().contains_key(peers.last()) {
            rest.push(peers.last())
        } else {
            rest
        }
    }
}

/// The username messages go out under.
pub open spec fn sender_name(s: ChatState) -> Seq<char> {
    match s.username() {
        Some(u) => u,
        None => "Anonymous"@,
    }
}

/// The room a message goes to: the one given, else the current one, else `default`.
pub open spec fn target_room(s: ChatState, room_id: Option<Seq<char>>) -> Seq<char> {
    match room_id {
        Some(r) => r,
        None => match s.current_room() {
            Some(r) => r,
            None => "default"@,
        },
    }
}

/// The envelopes are, in order, encryptions of `content` for each of `peers`
/// into `room`.
pub open spec fn envelopes_for(c: MessageCrypto, envelopes: Seq<Envelope>, peers: Seq<Seq<char>>, content: Seq<char>, room: Seq<char>) -> bool {
    &&& envelopes.len() == peers.len()
    &&& forall|i: int| 0 <= i < peers.len() ==> {
        &&& (#[trigger] envelopes[i]).peer_id@ == peers[i]
        &&& crate::encryption::seals_for(c, envelopes[i].message@, peers[i], content)
        &&& envelopes[i].message.room_id@ == room
    }
}

/// What sending `content` from state `s` gives, given the message stored
/// for it and the connected peers.
pub open spec fn send_outcome(
    s: ChatState,
    content: Seq<char>,
    connected: Option<Result<Seq<Seq<char>>, Seq<char>>>,
    stored: MessageView,
    r: Result<OutgoingPlan, String>,
) -> bool {
    let user = sender_name(s);
    let room = stored.room_id;
    if s.encryption_on() {
        match s.crypto() {
            None => r matches Err(e) && e@ == "Encryption not initialized"@,
            Some(c) => match connected {
                None => r matches Err(e) && e@ == "P2P network not initialized"@,
                Some(Err(m)) => r matches Err(e) && e@ == "Failed to get connected peers: "@ + m,
                Some(Ok(peers)) => {
                    let targets = keyed_peers(c, peers);
                    if targets.len() == 0 {
                        r matches Err(e) && e@ == "Keys not yet exchanged with any peer. Please wait a moment and try again."@
                    } else if encode_utf8(content).len() > crate::primitives::aes_gcm_max_plaintext() {
                        r matches Err(e) && e@ == "Failed to encrypt message for any peer"@
                    } else {
                        r matches Ok(plan) && plan.message@ == stored && match plan.delivery {
                            Delivery::Encrypted { username, room_id, envelopes } => {
                                &&& username@ == user
                                &&& room_id@ == room
                                &&& envelopes_for(c, envelopes@, targets, content, room)
                            },
                            _ => false,
                        }
                    }
                },
            },
        }
    } else {
        match connected {
            None => r matches Err(e) && e@ == "P2P network not initialized"@,
            Some(_) => r matches Ok(plan) && plan.message@ == stored && match plan.delivery {
                Delivery::Plaintext { content: c, username, room_id } => c@ == content && username@ == user && room_id@ == room,
                _ => false,
            },
        }
    }
}

fn sender_name_of(s: &ChatState) -> (u: String)
    ensures
        u@ == sender_name(*s),
{
    match &s.current_username {
        Some(u) => u.clone(),
        None => String::from_str("Anonymous"),
    }
}

impl ChatState {
    /// Store an outgoing message (always, also when sending it fails) and
    /// decide how it goes out.
    pub fn prepare_message_with(
        &mut self,
        content: String,
        room_id: Option<String>,
        connected: Option<Result<Vec<String>, String>>,
        message_id: String,
        now: i64,
    ) -> (r: Result<OutgoingPlan, String>)
        requires
            old(self).wf(),
        ensures
            final(self).wf(),
            final(self).messages() == old(self).messages().push(MessageView {
                id: message_id@,
                username: sender_name(*old(self)),
                content: content@,
                timestamp: now,
                room_id: target_room(*old(self), opt_str(room_id)),
                encrypted: old(self).encryption_on(),
            }),
            send_outcome(*old(self), content@, connected_view(connected), final(self).messages().last(), r),
            room_id is None && old(self).current_room() is Some ==> final(self).messages().last().room_id
                == old(self).current_room().unwrap(),
            final(self).rooms() == old(self).rooms(),
            final(self).current_room() == old(self).current_room(),
            final(self).username() == old(self).username(),
            final(self).crypto() == old(self).crypto(),
            final(self).encryption_on() == old(self).encryption_on(),
    {
        let username = sender_name_of(self);
        let room = match room_id {
            Some(r) => r,
            None => match &self.current_room {
                Some(r) => r.clone(),
                None => String::from_str("default"),
            },
        };
        let encrypted = self.encryption_enabled;
        let message = Message {
            id: message_id,
            username: username.clone(),
            content: content.clone(),
            timestamp: now,
            room_id: room.clone(),
            encrypted,
        };
        let ghost before = self.messages();
        self.messages.push(message.duplicate());
        assert(self.messages() =~= before.push(message@));
        if encrypted {
            let crypto = match &self.message_crypto {
                Some(c) => c,
                None => return Err(String::from_str("Encryption not initialized")),
            };
            let peers = match connected {
                None => return Err(String::from_str("P2P network not initialized")),
                Some(Err(e)) => return Err(String::from_str("Failed to get connected peers: ").concat(e.as_str())),
                Some(Ok(p)) => p,
            };
            let ghost pv = crate::text::strs_view(peers@);
            let mut targets: Vec<String> = Vec::new();
            let mut i: usize = 0;
            while i < peers.len()
                invariant
                    i <= peers@.len(),
                    crypto.wf(),
                    pv == crate::text::strs_view(peers@),
                    crate::text::strs_view(targets@) == keyed_peers(*crypto, pv.take(i as int)),
                decreases peers@.len() - i,
            {
                proof {
                    assert(pv.take(i + 1).drop_last() =~= pv.take(i as int));
                    assert(pv.take(i + 1).last() == pv[i as int]);
                }
                if crypto.has_peer(peers[i].as_str()) {
                    let ghost t0 = crate::text::strs_view(targets@);
                    targets.push(peers[i].clone());
                    assert(crate::text::strs_view(targets@) =~= t0.push(pv[i as int]));
                }
                i = i + 1;
            }
            assert(pv.take(peers@.len() as int) =~= pv);
            if targets.len() == 0 {
                return Err(String::from_str("Keys not yet exchanged with any peer. Please wait a moment and try again."));
            }
            let ghost tv = crate::text::strs_view(targets@);
            let mut envelopes: Vec<Envelope> = Vec::new();
            let mut j: usize = 0;
            while j < targets.len()
                invariant
                    j <= targets@.len(),
                    crypto.wf(),
                    tv == crate::text::strs_view(targets@),
                    tv == keyed_peers(*crypto, pv),
                    encode_utf8(content@).len() <= crate::primitives::aes_gcm_max_plaintext() ==> envelopes_for(
                        *crypto,
                        envelopes@,
                        tv.take(j as int),
                        content@,
                        room@,
                    ),
                    encode_utf8(content@).len() > crate::primitives::aes_gcm_max_plaintext() ==> envelopes@.len() == 0,
                decreases targets@.len() - j,
            {
                proof {
                    lemma_keyed_peers_keyed(*crypto, pv);
                    assert(tv[j as int] == targets@[j as int]@);
                }
                match crypto.encrypt_message(content.as_str(), targets[j].as_str(), room.as_str()) {
                    Ok(m) => {
                        let ghost e0 = envelopes@;
                        envelopes.push(Envelope { peer_id: targets[j].clone(), message: m });
                        proof {
                            let tt = tv.take(j + 1);
                            assert forall|k: int| 0 <= k < tt.len() implies {
                                &&& (#[trigger] envelopes@[k]).peer_id@ == tt[k]
                                &&& crate::encryption::seals_for(*crypto, envelopes@[k].message@, tt[k], content@)
                                &&& envelopes@[k].message.room_id@ == room@
                            } by {
                                if k < j {
                                    assert(envelopes@[k] == e0[k]);
                                    assert(tt[k] == tv.take(j as int)[k]);
                                }
                            }
                        }
                    },
                    Err(_) => {},
                }
                j = j + 1;
            }
            assert(tv.take(targets@.len() as int) =~= tv);
            if envelopes.len() == 0 {
                return Err(String::from_str("Failed to encrypt message for any peer"));
            }
            Ok(OutgoingPlan {
                message,
                delivery: Delivery::Encrypted { username, room_id: room, envelopes },
            })
        } else {
            match connected {
                None => Err(String::from_str("P2P network not initialized")),
                Some(_) => Ok(OutgoingPlan {
                    message,
                    delivery: Delivery::Plaintext { content, username, room_id: room },
                }),
            }
        }
    }

    /// Store an outgoing message under a fresh id and the current time, and
    /// decide how it goes out.
    pub fn prepare_message(
        &mut self,
        content: String,
        room_id: Option<String>,
        connected: Option<Result<Vec<String>, String>>,
    ) -> (r: Result<OutgoingPlan, String>)
        requires
            old(self).wf(),
        ensures
            final(self).wf(),
            final(self).messages().len() == old(self).messages().len() + 1,
            final(self).messages().drop_last() == old(self).messages(),
            uuid_v4_text(final(self).messages().last().id),
            final(self).messages().last().username == sender_name(*old(self)),
            final(self).messages().last().content == content@,
            final(self).messages().last().room_id == target_room(*old(self), opt_str(room_id)),
            final(self).messages().last().encrypted == old(self).encryption_on(),
            send_outcome(*old(self), content@, connected_view(connected), final(self).messages().last(), r),
            room_id is None && old(self).current_room() is Some ==> final(self).messages().last().room_id
                == old(self).current_room().unwrap(),
            final(self).rooms() == old(self).rooms(),
            final(self).current_room() == old(self).current_room(),
            final(self).username() == old(self).username(),
            final(self).crypto() == old(self).crypto(),
            final(self).encryption_on() == old(self).encryption_on(),
    {
        let id = new_uuid();
        let now = now_micros();
        let r = self.prepare_message_with(content, room_id, connected, id, now);
        assert(self.messages().drop_last() =~= old(self).messages());
        r
    }
}

proof fn lemma_keyed_peers_keyed(c: MessageCrypto, peers: Seq<Seq<char>>)
    ensures
        forall|i: int| 0 <= i < keyed_peers(c, peers).len() ==> c.peer_map().contains_key(#[trigger] keyed_peers(c, peers)[i]),
    decreases peers.len(),
{
    if peers.len() > 0 {
        lemma_keyed_peers_keyed(c, peers.drop_last());
        let rest = keyed_peers(c, peers.drop_last());
        let k = keyed_peers(c, peers);
        assert forall|i: int| 0 <= i < k.len() implies c.peer_map().contains_key(#[trigger] k[i]) by {
            if i < rest.len() {
                assert(k[i] == rest[i]);
            }
        }
    }
}

} // verus!

verus! {

/// The fields of an `encrypted_message` envelope received in a chat message,
/// as the application read them from its JSON.
pub struct IncomingEnvelope {
    /// The `encrypted_for` list (its string entries), when present.
    pub encrypted_for: Option<Vec<String>>,
    /// The `content` field: the encrypted message in JSON.
    pub content: Option<String>,
    /// The `sender` field: the sender's display name.
    pub sender: Option<String>,
    /// The `sender_peer_id` field.
    pub sender_peer_id: Option<String>,
    /// `content` read as an encrypted message, when it reads as one.
    pub parsed: Option<EncryptedMessage>,
}

/// Whether `id` is among `ids`.
pub open spec fn listed(ids: Seq<Seq<char>>, id: Seq<char>) -> bool {
    exists|i: int| 0 <= i < ids.len() && ids[i] == id
}

/// The text read from an envelope: first as sent by `sender_peer_id`, then
/// as sent by the message's username.
pub open spec fn read_envelope(c: MessageCrypto, m: EncryptedMessageView, sender_peer_id: Option<Seq<char>>, username: Seq<char>) -> Option<Seq<char>> {
    match sender_peer_id {
        Some(p) => match opens_to(c, m, p) {
            Some(t) => Some(t),
            None => opens_to(c, m, username),
        },
        None => opens_to(c, m, username),
    }
}

/// The message shown for `message` in place of its content.
pub open spec fn shown_as(message: MessageView, username: Seq<char>, content: Seq<char>) -> MessageView {
    MessageView { username, content, encrypted: true, ..message }
}

/// What a received chat message is shown as, if anything.
pub open spec fn received_view(
    c: Option<MessageCrypto>,
    message: MessageView,
    env: Option<IncomingEnvelope>,
    local_peer_id: Option<Seq<char>>,
) -> Option<MessageView> {
    match env {
        None => Some(message),
        Some(env) => {
            let addressed_elsewhere = match (env.encrypted_for, local_peer_id) {
                (Some(targets), Some(me)) => !listed(crate::text::strs_view(targets@), me),
                _ => false,
            };
            if addressed_elsewhere {
                None
            } else {
                match c {
                    None => Some(shown_as(message, message.username, "[ENCRYPTED MESSAGE]"@)),
                    Some(c) => match (env.content, env.sender) {
                        (Some(_), Some(sender)) => match env.parsed {
                            None => Some(shown_as(message, sender@, "[ENCRYPTED MESSAGE - Parse failed]"@)),
                            Some(m) => match read_envelope(c, m@, opt_str(env.sender_peer_id), message.username) {
                                Some(t) => Some(shown_as(message, sender@, t)),
                                None => Some(shown_as(message, sender@, "[ENCRYPTED MESSAGE - No shared key]"@)),
                            },
                        },
                        _ => None,
                    },
                }
            }
        },
    }
}

fn listed_in(ids: &Vec<String>, id: &String) -> (b: bool)
    ensures
        b == listed(crate::text::strs_view(ids@), id@),
{
    let mut i: usize = 0;
    while i < ids.len()
        invariant
            i <= ids@.len(),
            forall|j: int| 0 <= j < i ==> ids@[j]@ != id@,
        decreases ids@.len() - i,
    {
        if ids[i] == *id {
            assert(crate::text::strs_view(ids@)[i as int] == id@);
            return true;
        }
        i = i + 1;
    }
    assert forall|j: int| 0 <= j < crate::text::strs_view(ids@).len() implies crate::text::strs_view(ids@)[j] != id@ by {
        assert(crate::text::strs_view(ids@)[j] == ids@[j]@);
    }
    false
}

fn shown(message: &Message, username: String, content: String) -> (r: Message)
    ensures
        r@ == shown_as(message@, username@, content@),
{
    Message {
        id: message.id.clone(),
        username,
        content,
        timestamp: message.timestamp,
        room_id: message.room_id.clone(),
        encrypted: true,
    }
}

/// What to do after a key exchange.
pub enum KeyExchangeOutcome {
    /// Encryption is not set up yet; nothing was done.
    NoCrypto,
    /// The key was not valid hex.
    DecodeFailed,
    /// The key did not decode to 32 bytes.
    InvalidKeyLength,
    /// The key could not be added.
    AddFailed,
    /// The key was added; `reply` holds our public key (hex) and fingerprint
    /// to send back when the peer was new to us.
    Added { reply: Option<(String, String)> },
}

/// What taking in a key exchange from `peer_id` with hex key `key_hex` does
/// to the encryption engine of `before`, giving `after`, and what it answers.
pub open spec fn key_exchange_step(
    before: ChatState,
    after: ChatState,
    peer_id: Seq<char>,
    key_hex: Seq<u8>,
    r: KeyExchangeOutcome,
) -> bool {
    match before.crypto() {
        None => r is NoCrypto && after.crypto() is None,
        Some(c) => match hex_decoded(key_hex) {
            None => r is DecodeFailed && after.crypto() == before.crypto(),
            Some(key) => if key.len() != 32 {
                r is InvalidKeyLength && after.crypto() == before.crypto()
            } else {
                after.crypto() matches Some(n) && {
                    &&& n.our_identity() == c.our_identity()
                    &&& n.peer_map().dom() == c.peer_map().dom().insert(peer_id)
                    &&& n.peer_map()[peer_id].identity.public() == key
                    &&& n.peer_map()[peer_id].identity.secret() is None
                    &&& forall|k: Seq<char>| k != peer_id && #[trigger] c.peer_map().contains_key(k) ==> n.peer_map()[k] == c.peer_map()[k]
                    &&& match r {
                        KeyExchangeOutcome::Added { reply } => if c.peer_map().contains_key(peer_id) {
                            reply is None
                        } else {
                            reply matches Some((k, f)) && k@ == hex_lower(c.our_identity().public())
                                && f@ == c.our_identity().fingerprint()
                        },
                        _ => false,
                    }
                }
            },
        },
    }
}

fn array_from_vec(v: &Vec<u8>) -> (a: [u8; 32])
    requires
        v@.len() == 32,
    ensures
        a@ == v@,
{
    let mut a = [0u8; 32];
    let mut i: usize = 0;
    while i < 32
        invariant
            i <= 32,
            v@.len() == 32,
            forall|j: int| 0 <= j < i ==> a@[j] == v@[j],
        decreases 32 - i,
    {
        a[i] = v[i];
        i = i + 1;
    }
    assert(a@ =~= v@);
    a
}

impl ChatState {
    /// What a received chat message is shown as, or `None` when it is not
    /// shown (an envelope for other peers, or one without content or sender).
    pub fn receive_message(&self, message: &Message, envelope: Option<IncomingEnvelope>, local_peer_id: Option<String>) -> (r: Option<Message>)
        requires
            self.wf(),
        ensures
            match received_view(self.crypto(), message@, envelope, opt_str(local_peer_id)) {
                Some(v) => r matches Some(m) && m@ == v,
                None => r is None,
            },
    {
        let env = match envelope {
            None => return Some(message.duplicate()),
            Some(env) => env,
        };
        match (&env.encrypted_for, &local_peer_id) {
            (Some(targets), Some(me)) => {
                if !listed_in(targets, me) {
                    return None;
                }
            },
            _ => {},
        }
        let crypto = match &self.message_crypto {
            None => return Some(shown(message, message.username.clone(), String::from_str("[ENCRYPTED MESSAGE]"))),
            Some(c) => c,
        };
        let sender = match (&env.content, &env.sender) {
            (Some(_), Some(sender)) => sender,
            _ => return None,
        };
        let m = match &env.parsed {
            None => return Some(shown(message, sender.clone(), String::from_str("[ENCRYPTED MESSAGE - Parse failed]"))),
            Some(m) => m,
        };
        let mut text: Option<String> = None;
        match &env.sender_peer_id {
            Some(p) => match crypto.decrypt_message(m, p.as_str()) {
                Ok(t) => {
                    text = Some(t);
                },
                Err(_) => {},
            },
            None => {},
        }
        if text.is_none() {
            match crypto.decrypt_message(m, message.username.as_str()) {
                Ok(t) => {
                    text = Some(t);
                },
                Err(_) => {},
            }
        }
        match text {
            Some(t) => Some(shown(message, sender.clone(), t)),
            None => Some(shown(message, sender.clone(), String::from_str("[ENCRYPTED MESSAGE - No shared key]"))),
        }
    }

    /// Take in a peer's public key received in a key exchange.
    pub fn accept_key_exchange(&mut self, peer_id: &str, public_key_hex: &str) -> (r: KeyExchangeOutcome)
        requires
            old(self).wf(),
        ensures
            final(self).wf(),
            final(self).messages() == old(self).messages(),
            final(self).rooms() == old(self).rooms(),
            final(self).current_room() == old(self).current_room(),
            final(self).username() == old(self).username(),
            final(self).encryption_on() == old(self).encryption_on(),
            key_exchange_step(*old(self), *final(self), peer_id@, public_key_hex.spec_bytes(), r),
    {
        let mut crypto = match self.message_crypto.take() {
            None => return KeyExchangeOutcome::NoCrypto,
            Some(c) => c,
        };
        let already = crypto.has_peer(peer_id);
        let bytes = match hex_decode(public_key_hex) {
            Ok(b) => b,
            Err(_) => {
                self.message_crypto = Some(crypto);
                return KeyExchangeOutcome::DecodeFailed;
            },
        };
        if bytes.len() != 32 {
            self.message_crypto = Some(crypto);
            return KeyExchangeOutcome::InvalidKeyLength;
        }
        let key = array_from_vec(&bytes);
        let peer_identity = CryptoIdentity::from_public_key(key);
        let outcome = match crypto.add_peer_key(peer_id, peer_identity) {
            Ok(()) => {
                if !already {
                    let id = crypto.get_identity();
                    KeyExchangeOutcome::Added { reply: Some((identity_hex(id), id.fingerprint_text())) }
                } else {
                    KeyExchangeOutcome::Added { reply: None }
                }
            },
            Err(_) => KeyExchangeOutcome::AddFailed,
        };
        self.message_crypto = Some(crypto);
        outcome
    }

    /// Our public key (hex) and fingerprint to offer a peer that has just
    /// subscribed, unless we already hold its key or encryption is not set up.
    pub fn key_offer(&self, peer_id: &str) -> (r: Option<(String, String)>)
        requires
            self.wf(),
        ensures
            match self.crypto() {
                Some(c) => if c.peer_map().contains_key(peer_id@) {
                    r is None
                } else {
                    r matches Some((k, f)) && k@ == hex_lower(c.our_identity().public()) && f@ == c.our_identity().fingerprint()
                },
                None => r is None,
            },
    {
        match &self.message_crypto {
            Some(c) => {
                if c.has_peer(peer_id) {
                    None
                } else {
                    let id = c.get_identity();
                    Some((identity_hex(id), id.fingerprint_text()))
                }
            },
            None => None,
        }
    }

    /// Join a room we were invited to (adding it, named after the first
    /// bytes of its id, when not joined yet) and make it current.
    pub fn accept_room_invitation_at(&mut self, room_id: String, now: i64)
        requires
            has_room(old(self).rooms(), room_id@) || can_cut_at(room_id@, crate::text::min_int(8, byte_len(room_id@))),
        ensures
            final(self).rooms() == (if has_room(old(self).rooms(), room_id@) {
                old(self).rooms()
            } else {
                old(self).rooms().push(RoomView {
                    id: room_id@,
                    name: "Invited room "@ + byte_prefix(room_id@, crate::text::min_int(8, byte_len(room_id@))),
                    created_at: now,
                })
            }),
            final(self).current_room() == Some(room_id@),
            final(self).same_but_rooms(*old(self)),
            final(self).wf() == old(self).wf(),
    {
        if !contains_room(&self.joined_rooms, &room_id) {
            let len = str_byte_len(room_id.as_str());
            let n: usize = if len < 8 { len } else { 8 };
            let prefix = cut_at(room_id.as_str(), n);
            let name = String::from_str("Invited room ").concat(prefix.as_str());
            let ghost before = self.rooms();
            let room = Room { id: room_id.clone(), name, created_at: now };
            self.joined_rooms.push(room);
            assert(self.rooms() =~= before.push(RoomView {
                id: room_id@,
                name: "Invited room "@ + byte_prefix(room_id@, crate::text::min_int(8, byte_len(room_id@))),
                created_at: now,
            }));
        }
        self.current_room = Some(room_id);
    }

    /// Join a room we were invited to, now.
    pub fn accept_room_invitation(&mut self, room_id: String)
        requires
            has_room(old(self).rooms(), room_id@) || can_cut_at(room_id@, crate::text::min_int(8, byte_len(room_id@))),
        ensures
            has_room(old(self).rooms(), room_id@) ==> final(self).rooms() == old(self).rooms(),
            !has_room(old(self).rooms(), room_id@) ==> final(self).rooms().len() == old(self).rooms().len() + 1
                && final(self).rooms().drop_last() == old(self).rooms()
                && final(self).rooms().last().id == room_id@
                && final(self).rooms().last().name == "Invited room "@ + byte_prefix(
                    room_id@,
                    crate::text::min_int(8, byte_len(room_id@)),
                ),
            final(self).current_room() == Some(room_id@),
            final(self).same_but_rooms(*old(self)),
            final(self).wf() == old(self).wf(),
    {
        let now = now_micros();
        self.accept_room_invitation_at(room_id, now);
        proof {
            if !has_room(old(self).rooms(), room_id@) {
                assert(self.rooms().drop_last() =~= old(self).rooms());
            }
        }
    }
}

/// The user shown when a peer joins (named "Anonymous" when it has no name).
pub fn joined_user(peer_id: String, username: Option<String>, connected_at: i64) -> (u: User)
    ensures
        u@ == (UserView {
            id: peer_id@,
            username: match username {
                Some(n) => n@,
                None => "Anonymous"@,
            },
            connected_at,
        }),
{
    let name = match username {
        Some(n) => n,
        None => String::from_str("Anonymous"),
    };
    User { id: peer_id, username: name, connected_at }
}

} // verus!

verus! {

proof fn lemma_rooms_without_absent(rooms: Seq<RoomView>, id: Seq<char>)
    requires
        !has_room(rooms, id),
    ensures
        rooms_without(rooms, id) == rooms,
    decreases rooms.len(),
{
    if rooms.len() > 0 {
        let init = rooms.drop_last();
        assert(!has_room(init, id)) by {
            if has_room(init, id) {
                let i = choose|i: int| 0 <= i < init.len() && init[i].id == id;
                assert(rooms[i] == init[i]);
            }
        }
        lemma_rooms_without_absent(init, id);
        assert(rooms.last().id != id);
        assert(init.push(rooms.last()) =~= rooms);
    }
}

proof fn lemma_rooms_without_none(rooms: Seq<RoomView>, id: Seq<char>)
    ensures
        !has_room(rooms_without(rooms, id), id),
    decreases rooms.len(),
{
    if rooms.len() > 0 {
        lemma_rooms_without_none(rooms.drop_last(), id);
        let w = rooms_without(rooms, id);
        let wi = rooms_without(rooms.drop_last(), id);
        if has_room(w, id) {
            let j = choose|j: int| 0 <= j < w.len() && w[j].id == id;
            if j < wi.len() {
                assert(w[j] == wi[j]);
            }
        }
    }
}

/// Whether a room is not the one with id `id`.
pub open spec fn room_other_than(id: Seq<char>) -> spec_fn(RoomView) -> bool {
    |r: RoomView| r.id != id
}

/// Whether a message belongs to room `id`.
pub open spec fn message_in_room(id: Seq<char>) -> spec_fn(MessageView) -> bool {
    |m: MessageView| m.room_id == id
}

/// Whether `c` holds a key for a peer.
pub open spec fn key_held_by(c: MessageCrypto) -> spec_fn(Seq<char>) -> bool {
    |p: Seq<char>| c.peer_map().contains_key(p)
}

proof fn lemma_rooms_without_filter(rooms: Seq<RoomView>, id: Seq<char>)
    ensures
        rooms_without(rooms, id) == rooms.filter(room_other_than(id)),
    decreases rooms.len(),
{
    reveal(Seq::filter);
    if rooms.len() > 0 {
        lemma_rooms_without_filter(rooms.drop_last(), id);
    }
}

proof fn lemma_messages_in_filter(msgs: Seq<MessageView>, id: Seq<char>)
    ensures
        messages_in(msgs, id) == msgs.filter(message_in_room(id)),
    decreases msgs.len(),
{
    reveal(Seq::filter);
    if msgs.len() > 0 {
        lemma_messages_in_filter(msgs.drop_last(), id);
    }
}

proof fn lemma_keyed_peers_filter(c: MessageCrypto, peers: Seq<Seq<char>>)
    ensures
        keyed_peers(c, peers) == peers.filter(key_held_by(c)),
    decreases peers.len(),
{
    reveal(Seq::filter);
    if peers.len() > 0 {
        lemma_keyed_peers_filter(c, peers.drop_last());
    }
}

/// Leaving a room removes exactly that room: the joined rooms afterwards are
/// the joined rooms before with every room of that id taken out and the
/// others kept, in the order they were joined.
pub proof fn law_leave_keeps_other_rooms(rooms: Seq<RoomView>, id: Seq<char>)
    ensures
        rooms_without(rooms, id) == rooms.filter(room_other_than(id)),
        forall|i: int| 0 <= i < rooms.len() && rooms[i].id != id ==> rooms_without(rooms, id).contains(#[trigger] rooms[i]),
        !has_room(rooms_without(rooms, id), id),
        !has_room(rooms, id) ==> rooms_without(rooms, id) == rooms,
{
    lemma_rooms_without_filter(rooms, id);
    broadcast use vstd::seq_lib::group_filter_ensures;
    assert forall|i: int| 0 <= i < rooms.len() && rooms[i].id != id implies rooms_without(rooms, id).contains(#[trigger] rooms[i]) by {
        assert(room_other_than(id)(rooms[i]));
        rooms.lemma_filter_contains(room_other_than(id), i);
    }
    lemma_rooms_without_none(rooms, id);
    if !has_room(rooms, id) {
        lemma_rooms_without_absent(rooms, id);
    }
}

/// Listing a room's messages gives the stored log filtered by room, in the
/// order the messages were stored: a message stored before another comes
/// before it in the listing.
pub proof fn law_room_messages_in_order(msgs: Seq<MessageView>, id: Seq<char>)
    ensures
        messages_in(msgs, id) == msgs.filter(message_in_room(id)),
        forall|i: int, j: int|
            0 <= i < j < msgs.len() && msgs[i].room_id == id && msgs[j].room_id == id ==> exists|a: int, b: int|
                0 <= a < b < messages_in(msgs, id).len() && #[trigger] messages_in(msgs, id)[a] == msgs[i]
                    && #[trigger] messages_in(msgs, id)[b] == msgs[j],
    decreases msgs.len(),
{
    lemma_messages_in_filter(msgs, id);
    if msgs.len() > 0 {
        let init = msgs.drop_last();
        law_room_messages_in_order(init, id);
        law_room_messages_isolated(init, id);
        let r = messages_in(msgs, id);
        let ri = messages_in(init, id);
        assert forall|i: int, j: int|
            0 <= i < j < msgs.len() && msgs[i].room_id == id && msgs[j].room_id == id implies exists|a: int, b: int|
                0 <= a < b < r.len() && #[trigger] r[a] == msgs[i] && #[trigger] r[b] == msgs[j] by {
            assert(init[i] == msgs[i]);
            if j < msgs.len() - 1 {
                assert(init[j] == msgs[j]);
                let (a, b) = choose|a: int, b: int| 0 <= a < b < ri.len() && #[trigger] ri[a] == init[i] && #[trigger] ri[b] == init[j];
                assert(r[a] == ri[a] && r[b] == ri[b]);
            } else {
                assert(ri.contains(init[i]));
                let a = choose|a: int| 0 <= a < ri.len() && ri[a] == init[i];
                assert(r[a] == ri[a]);
                assert(r[ri.len() as int] == msgs[j]);
            }
        }
    }
}

/// The room a message goes to: the one given; without one, the current room;
/// without a current room, `default`.
pub proof fn law_message_room_choice(s: ChatState, room_id: Option<Seq<char>>)
    ensures
        room_id matches Some(r) ==> target_room(s, room_id) == r,
        room_id is None && s.current_room() is Some ==> target_room(s, room_id) == s.current_room().unwrap(),
        room_id is None && s.current_room() is None ==> target_room(s, room_id) == "default"@,
{
}

/// With encryption on, a message that goes out reaches every connected peer
/// whose key is held, and only those: one envelope each, addressed to that
/// peer, in the order the peers are listed.
pub proof fn law_every_keyed_peer_gets_the_message(
    s: ChatState,
    content: Seq<char>,
    connected: Option<Result<Seq<Seq<char>>, Seq<char>>>,
    stored: MessageView,
    r: Result<OutgoingPlan, String>,
)
    requires
        s.encryption_on(),
        send_outcome(s, content, connected, stored, r),
        r is Ok,
    ensures
        s.crypto() matches Some(c) && connected matches Some(Ok(peers)) && r matches Ok(plan)
            && plan.delivery matches Delivery::Encrypted { envelopes, .. } && {
            &&& envelopes@.len() == peers.filter(key_held_by(c)).len()
            &&& forall|i: int| 0 <= i < envelopes@.len() ==> envelopes@[i].peer_id@ == #[trigger] peers.filter(key_held_by(c))[i]
            &&& forall|p: Seq<char>| peers.contains(p) && c.peer_map().contains_key(p) ==> exists|i: int|
                0 <= i < envelopes@.len() && #[trigger] envelopes@[i].peer_id@ == p
            &&& forall|i: int| 0 <= i < envelopes@.len() ==> peers.contains(#[trigger] envelopes@[i].peer_id@)
                && c.peer_map().contains_key(envelopes@[i].peer_id@)
        },
{
    broadcast use vstd::seq_lib::group_filter_ensures;
    let c = s.crypto().unwrap();
    let peers = connected->Some_0->Ok_0;
    lemma_keyed_peers_filter(c, peers);
    let f = peers.filter(key_held_by(c));
    let envelopes = (r->Ok_0).delivery->envelopes;
    assert forall|p: Seq<char>| peers.contains(p) && c.peer_map().contains_key(p) implies exists|i: int|
        0 <= i < envelopes@.len() && #[trigger] envelopes@[i].peer_id@ == p by {
        let k = choose|k: int| 0 <= k < peers.len() && peers[k] == p;
        assert(key_held_by(c)(peers[k]));
        peers.lemma_filter_contains(key_held_by(c), k);
        let i = choose|i: int| 0 <= i < f.len() && f[i] == p;
        assert(envelopes@[i].peer_id@ == f[i]);
    }
    assert forall|i: int| 0 <= i < envelopes@.len() implies peers.contains(#[trigger] envelopes@[i].peer_id@)
        && c.peer_map().contains_key(envelopes@[i].peer_id@) by {
        assert(envelopes@[i].peer_id@ == f[i]);
        peers.lemma_filter_pred(key_held_by(c), i);
        lemma_filter_member(peers, key_held_by(c), i);
    }
}

proof fn lemma_filter_member<A>(s: Seq<A>, pred: spec_fn(A) -> bool, i: int)
    requires
        0 <= i < s.filter(pred).len(),
    ensures
        s.contains(s.filter(pred)[i]),
    decreases s.len(),
{
    reveal(Seq::filter);
    let f = s.filter(pred);
    let fi = s.drop_last().filter(pred);
    if i < fi.len() {
        lemma_filter_member(s.drop_last(), pred, i);
        assert(f[i] == fi[i]);
        let k = choose|k: int| 0 <= k < s.drop_last().len() && s.drop_last()[k] == fi[i];
        assert(s[k] == s.drop_last()[k]);
    } else {
        assert(f[i] == s.last());
        assert(s[s.len() - 1] == s.last());
    }
}

/// Joining a new room and then leaving it restores the list of joined rooms.
pub proof fn law_join_then_leave(rooms: Seq<RoomView>, room: RoomView)
    requires
        !has_room(rooms, room.id),
    ensures
        rooms_without(rooms.push(room), room.id) == rooms,
        !has_room(rooms_without(rooms.push(room), room.id), room.id),
{
    assert(rooms.push(room).drop_last() =~= rooms);
    lemma_rooms_without_absent(rooms, room.id);
    lemma_rooms_without_none(rooms.push(room), room.id);
}

/// Listing a room's messages never shows a message of another room, and
/// shows every message of that room.
pub proof fn law_room_messages_isolated(msgs: Seq<MessageView>, id: Seq<char>)
    ensures
        forall|i: int| 0 <= i < messages_in(msgs, id).len() ==> (#[trigger] messages_in(msgs, id)[i]).room_id == id,
        forall|i: int| 0 <= i < msgs.len() && msgs[i].room_id == id ==> messages_in(msgs, id).contains(#[trigger] msgs[i]),
    decreases msgs.len(),
{
    if msgs.len() > 0 {
        let init = msgs.drop_last();
        law_room_messages_isolated(init, id);
        let r = messages_in(msgs, id);
        let ri = messages_in(init, id);
        assert forall|i: int| 0 <= i < r.len() implies (#[trigger] r[i]).room_id == id by {
            if i < ri.len() {
                assert(r[i] == ri[i]);
            }
        }
        assert forall|i: int| 0 <= i < msgs.len() && msgs[i].room_id == id implies r.contains(#[trigger] msgs[i]) by {
            if i < msgs.len() - 1 {
                assert(init[i] == msgs[i]);
                assert(ri.contains(init[i]));
                let k = choose|k: int| 0 <= k < ri.len() && ri[k] == init[i];
                assert(r[k] == ri[k]);
            } else {
                assert(r[r.len() - 1] == msgs[i]);
            }
        }
    }
}

/// Encrypted envelopes addressed to other peers are ignored: an envelope
/// whose `encrypted_for` list does not name us is not shown.
pub proof fn law_envelopes_for_others_ignored(
    c: Option<MessageCrypto>,
    message: MessageView,
    env: IncomingEnvelope,
    me: Seq<char>,
)
    requires
        env.encrypted_for matches Some(targets) && !listed(crate::text::strs_view(targets@), me),
    ensures
        received_view(c, message, Some(env), Some(me)) is None,
{
}

/// End-to-end encryption works between two clients that hold each other's
/// keys: an envelope that `alice` sealed for her name of `bob`, received by
/// `bob` as sent by his name of `alice` (and addressed to him, or to no one
/// in particular), is shown with the text that was sent, flagged encrypted.
pub proof fn law_sent_text_is_read(
    alice: MessageCrypto,
    bob: MessageCrypto,
    bob_at_alice: Seq<char>,
    alice_at_bob: Seq<char>,
    content: Seq<char>,
    message: MessageView,
    env: IncomingEnvelope,
    local: Option<Seq<char>>,
)
    requires
        alice.wf(),
        bob.wf(),
        alice.peer_map().contains_key(bob_at_alice),
        alice.peer_map()[bob_at_alice].identity.public() == bob.our_identity().public(),
        bob.peer_map().contains_key(alice_at_bob),
        bob.peer_map()[alice_at_bob].identity.public() == alice.our_identity().public(),
        env.parsed matches Some(m) && crate::encryption::seals_for(alice, m@, bob_at_alice, content),
        env.content is Some,
        env.sender is Some,
        opt_str(env.sender_peer_id) == Some(alice_at_bob),
        match (env.encrypted_for, local) {
            (Some(targets), Some(me)) => listed(crate::text::strs_view(targets@), me),
            _ => true,
        },
    ensures
        received_view(Some(bob), message, Some(env), local) matches Some(v) && v.content == content && v.encrypted,
{
    let m = env.parsed.unwrap();
    crate::encryption::law_message_roundtrip(alice, bob, bob_at_alice, alice_at_bob, m@, content);
}

/// Key exchanges do not loop: once a peer's key has been taken in, the peer
/// is known, and a further valid key exchange from it is taken in with no
/// reply.
pub proof fn law_key_exchange_replies_once(
    s0: ChatState,
    s1: ChatState,
    s2: ChatState,
    peer_id: Seq<char>,
    first_key: Seq<u8>,
    second_key: Seq<u8>,
    r1: KeyExchangeOutcome,
    r2: KeyExchangeOutcome,
)
    requires
        key_exchange_step(s0, s1, peer_id, first_key, r1),
        key_exchange_step(s1, s2, peer_id, second_key, r2),
        r1 is Added,
    ensures
        s1.crypto() matches Some(c) && c.peer_map().contains_key(peer_id),
        hex_decoded(second_key) matches Some(k) && k.len() == 32 ==> (r2 matches KeyExchangeOutcome::Added { reply }
            && reply is None),
{
}

/// With encryption on, a message never goes out in the clear: a send that
/// succeeds delivers encrypted envelopes only, one per connected peer whose
/// key we hold, and a send with no such peer is refused.
pub proof fn law_no_plaintext_when_encrypting(
    s: ChatState,
    content: Seq<char>,
    connected: Option<Result<Seq<Seq<char>>, Seq<char>>>,
    stored: MessageView,
    r: Result<OutgoingPlan, String>,
)
    requires
        s.encryption_on(),
        send_outcome(s, content, connected, stored, r),
    ensures
        r matches Ok(plan) ==> plan.delivery is Encrypted,
        r is Ok ==> s.crypto() is Some,
        r is Ok ==> (connected matches Some(Ok(peers)) && keyed_peers(s.crypto().unwrap(), peers).len() > 0),
{
}

} // verus!
