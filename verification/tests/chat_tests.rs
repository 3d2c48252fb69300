use wiretalk::chat::{
    greet, joined_user, ChatState, Delivery, IncomingEnvelope, KeyExchangeOutcome, Message,
};
use wiretalk::encryption::{CryptoIdentity, MessageCrypto};
use wiretalk::network::{
    chat_message, room_topic, route_gossip, GossipFields, GossipRoute, P2PEvent, PeerRegistry, RoomSubscriptions, CHAT_TOPIC,
};

fn is_uuid_v4_text(s: &str) -> bool {
    let b = s.as_bytes();
    b.len() == 36
        && b.iter().enumerate().all(|(i, c)| {
            if [8, 13, 18, 23].contains(&i) { *c == b'-' } else { c.is_ascii_digit() || (b'a'..=b'f').contains(c) }
        })
        && b[14] == b'4'
        && [b'8', b'9', b'a', b'b'].contains(&b[19])
}

fn msg(id: &str, user: &str, content: &str, room: &str) -> Message {
    Message {
        id: id.to_string(),
        username: user.to_string(),
        content: content.to_string(),
        timestamp: 5,
        room_id: room.to_string(),
        encrypted: false,
    }
}

#[test]
fn greeting() {
    assert_eq!(greet("Ada"), "Hello, Ada! Welcome to WireTalk P2P!");
}

#[test]
fn new_state() {
    let s = ChatState::new();
    assert!(s.is_encryption_enabled());
    assert!(s.get_joined_rooms().is_empty());
    assert_eq!(s.get_current_room(), None);
    assert!(s.get_messages(None).is_empty());
    assert_eq!(s.get_our_identity(), Err("Encryption not initialized".to_string()));
}

#[test]
fn rooms_lifecycle() {
    let mut s = ChatState::new();
    let r = s.create_room("General".to_string());
    assert_eq!(r.name, "General");
    assert_eq!(r.id.len(), 36);
    assert!(is_uuid_v4_text(&r.id));
    assert_eq!(s.get_current_room(), Some(r.id.clone()));
    s.join_room("0123456789abcdef".to_string());
    let rooms = s.get_joined_rooms();
    assert_eq!(rooms.len(), 2);
    assert_eq!(rooms[1].name, "Room 01234567");
    assert_eq!(s.get_current_room().as_deref(), Some("0123456789abcdef"));
    // joining again adds nothing
    s.join_room("0123456789abcdef".to_string());
    assert_eq!(s.get_joined_rooms().len(), 2);
    assert_eq!(s.switch_room(&r.id), Ok(()));
    assert_eq!(s.get_current_room(), Some(r.id.clone()));
    assert_eq!(s.switch_room("nope"), Err("Room not joined".to_string()));
    s.leave_room("0123456789abcdef");
    assert_eq!(s.get_joined_rooms().len(), 1);
    assert_eq!(s.get_current_room(), Some(r.id.clone()));
    s.leave_room(&r.id);
    assert!(s.get_joined_rooms().is_empty());
    assert_eq!(s.get_current_room(), None);
}

#[test]
fn join_then_leave_restores_rooms() {
    let mut s = ChatState::new();
    s.create_room("a".to_string());
    let before: Vec<String> = s.get_joined_rooms().iter().map(|r| r.id.clone()).collect();
    s.join_room("fedcba9876543210".to_string());
    s.leave_room("fedcba9876543210");
    let after: Vec<String> = s.get_joined_rooms().iter().map(|r| r.id.clone()).collect();
    assert_eq!(before, after);
}

#[test]
fn invitation_names_short_rooms() {
    let mut s = ChatState::new();
    s.accept_room_invitation("abc".to_string());
    assert_eq!(s.get_joined_rooms()[0].name, "Invited room abc");
    s.accept_room_invitation("0123456789".to_string());
    assert_eq!(s.get_joined_rooms()[1].name, "Invited room 01234567");
    assert_eq!(s.get_current_room().as_deref(), Some("0123456789"));
    s.accept_room_invitation("abc".to_string());
    assert_eq!(s.get_joined_rooms().len(), 2);
}

#[test]
fn plaintext_sending_and_filtering() {
    let mut s = ChatState::new();
    s.toggle_encryption(false);
    assert!(!s.is_encryption_enabled());
    let r = s.prepare_message_with("hi".to_string(), Some("r1".to_string()), None, "m1".to_string(), 10);
    assert_eq!(r.err(), Some("P2P network not initialized".to_string()));
    s.update_username("ada".to_string());
    let plan = s.prepare_message_with("yo".to_string(), None, Some(Ok(vec![])), "m2".to_string(), 11).unwrap();
    assert_eq!(plan.message.room_id, "default");
    assert_eq!(plan.message.username, "ada");
    assert!(!plan.message.encrypted);
    match plan.delivery {
        Delivery::Plaintext { content, username, room_id } => {
            assert_eq!((content.as_str(), username.as_str(), room_id.as_str()), ("yo", "ada", "default"));
        }
        _ => panic!("expected plaintext"),
    }
    let all = s.get_messages(None);
    assert_eq!(all.len(), 2);
    assert_eq!(all[0].username, "Anonymous");
    let r1 = s.get_messages(Some("r1".to_string()));
    assert_eq!(r1.len(), 1);
    assert_eq!(r1[0].id, "m1");
    assert!(s.get_messages(Some("zzz".to_string())).is_empty());
}

fn paired_states() -> (ChatState, ChatState) {
    let ca = MessageCrypto::new();
    let cb = MessageCrypto::new();
    let pa = hex::encode(ca.get_identity().public_key);
    let pb = hex::encode(cb.get_identity().public_key);
    let mut a = ChatState::new();
    let mut b = ChatState::new();
    a.start("alice".to_string(), ca);
    b.start("bob".to_string(), cb);
    assert!(matches!(a.accept_key_exchange("peerB", &pb), KeyExchangeOutcome::Added { reply: Some(_) }));
    assert!(matches!(b.accept_key_exchange("peerA", &pa), KeyExchangeOutcome::Added { reply: Some(_) }));
    (a, b)
}

#[test]
fn encrypted_send_and_receive() {
    let (mut a, b) = paired_states();
    let plan = a
        .prepare_message_with(
            "secret".to_string(),
            Some("room".to_string()),
            Some(Ok(vec!["peerB".to_string(), "stranger".to_string()])),
            "id1".to_string(),
            1,
        )
        .unwrap();
    assert!(plan.message.encrypted);
    let envelopes = match plan.delivery {
        Delivery::Encrypted { username, room_id, envelopes } => {
            assert_eq!(username, "alice");
            assert_eq!(room_id, "room");
            envelopes
        }
        _ => panic!("expected encrypted"),
    };
    assert_eq!(envelopes.len(), 1);
    assert_eq!(envelopes[0].peer_id, "peerB");
    let wire = msg("id1", "alice", "{...}", "room");
    let env = IncomingEnvelope {
        encrypted_for: Some(vec!["peerB".to_string()]),
        content: Some("{...}".to_string()),
        sender: Some("alice".to_string()),
        sender_peer_id: Some("peerA".to_string()),
        parsed: Some(envelopes[0].message.clone()),
    };
    let shown = b.receive_message(&wire, Some(env), Some("peerB".to_string())).unwrap();
    assert_eq!(shown.content, "secret");
    assert_eq!(shown.username, "alice");
    assert!(shown.encrypted);
}

#[test]
fn encrypted_send_errors() {
    let mut s = ChatState::new();
    assert_eq!(
        s.prepare_message_with("x".to_string(), None, Some(Ok(vec![])), "i".to_string(), 0).err(),
        Some("Encryption not initialized".to_string())
    );
    s.start("me".to_string(), MessageCrypto::new());
    assert_eq!(
        s.prepare_message_with("x".to_string(), None, None, "i".to_string(), 0).err(),
        Some("P2P network not initialized".to_string())
    );
    assert_eq!(
        s.prepare_message_with("x".to_string(), None, Some(Err("closed".to_string())), "i".to_string(), 0).err(),
        Some("Failed to get connected peers: closed".to_string())
    );
    assert_eq!(
        s.prepare_message_with("x".to_string(), None, Some(Ok(vec!["p".to_string()])), "i".to_string(), 0).err(),
        Some("Keys not yet exchanged with any peer. Please wait a moment and try again.".to_string())
    );
    // the message is stored even when it cannot be sent
    assert_eq!(s.get_messages(None).len(), 4);
}

#[test]
fn receiving_envelopes() {
    let (_a, b) = paired_states();
    let wire = msg("id", "alice", "{}", "r");
    // not an envelope: shown as is
    let plain = b.receive_message(&wire, None, None).unwrap();
    assert_eq!(plain.content, "{}");
    assert!(!plain.encrypted);
    // addressed to someone else: ignored
    let env = |targets: Option<Vec<String>>, parsed| IncomingEnvelope {
        encrypted_for: targets,
        content: Some("c".to_string()),
        sender: Some("alice".to_string()),
        sender_peer_id: Some("peerA".to_string()),
        parsed,
    };
    assert!(b.receive_message(&wire, Some(env(Some(vec!["x".to_string()]), None)), Some("peerB".to_string())).is_none());
    // unreadable content
    let shown = b.receive_message(&wire, Some(env(None, None)), Some("peerB".to_string())).unwrap();
    assert_eq!(shown.content, "[ENCRYPTED MESSAGE - Parse failed]");
    // no sender: not shown
    let no_sender = IncomingEnvelope { sender: None, ..env(None, None) };
    assert!(b.receive_message(&wire, Some(no_sender), None).is_none());
    // no encryption engine
    let fresh = ChatState::new();
    let shown = fresh.receive_message(&wire, Some(env(None, None)), None).unwrap();
    assert_eq!(shown.content, "[ENCRYPTED MESSAGE]");
    assert_eq!(shown.username, "alice");
    // a message we have no key for
    let (mut c, _d) = paired_states();
    let other = c
        .prepare_message_with("z".to_string(), None, Some(Ok(vec!["peerB".to_string()])), "q".to_string(), 0)
        .unwrap();
    let m = match other.delivery {
        Delivery::Encrypted { envelopes, .. } => envelopes[0].message.clone(),
        _ => panic!(),
    };
    let shown = b.receive_message(&wire, Some(env(None, Some(m))), None).unwrap();
    assert_eq!(shown.content, "[ENCRYPTED MESSAGE - No shared key]");
}

#[test]
fn username_fallback_when_decrypting() {
    let (mut a, b) = paired_states();
    let plan = a
        .prepare_message_with("hello".to_string(), None, Some(Ok(vec!["peerB".to_string()])), "i".to_string(), 0)
        .unwrap();
    let m = match plan.delivery {
        Delivery::Encrypted { envelopes, .. } => envelopes[0].message.clone(),
        _ => panic!(),
    };
    // the wire username names the peer; the sender peer id is wrong
    let wire = msg("i", "peerA", "c", "default");
    let env = IncomingEnvelope {
        encrypted_for: None,
        content: Some("c".to_string()),
        sender: Some("alice".to_string()),
        sender_peer_id: Some("unknown".to_string()),
        parsed: Some(m),
    };
    assert_eq!(b.receive_message(&wire, Some(env), None).unwrap().content, "hello");
}

#[test]
fn key_exchange_outcomes() {
    let mut s = ChatState::new();
    assert!(matches!(s.accept_key_exchange("p", "00"), KeyExchangeOutcome::NoCrypto));
    s.start("me".to_string(), MessageCrypto::new());
    assert!(matches!(s.accept_key_exchange("p", "zz"), KeyExchangeOutcome::DecodeFailed));
    assert!(matches!(s.accept_key_exchange("p", "abc"), KeyExchangeOutcome::DecodeFailed));
    assert!(matches!(s.accept_key_exchange("p", "0011"), KeyExchangeOutcome::InvalidKeyLength));
    let other = CryptoIdentity::new();
    let hexkey = hex::encode(other.public_key).to_uppercase();
    let (our_hex, our_fp) = s.get_our_identity().unwrap();
    match s.accept_key_exchange("p", &hexkey) {
        KeyExchangeOutcome::Added { reply: Some((k, f)) } => {
            assert_eq!(k, our_hex);
            assert_eq!(f, our_fp);
        }
        _ => panic!("expected a reply"),
    }
    assert!(matches!(s.accept_key_exchange("p", &hexkey), KeyExchangeOutcome::Added { reply: None }));
    assert_eq!(s.key_offer("p"), None);
    assert_eq!(s.key_offer("q"), Some((our_hex, our_fp)));
    assert_eq!(ChatState::new().key_offer("q"), None);
}

#[test]
fn joined_users() {
    let u = joined_user("12D3Koo".to_string(), None, 9);
    assert_eq!(u.username, "Anonymous");
    assert_eq!(u.connected_at, 9);
    assert_eq!(joined_user("x".to_string(), Some("bob".to_string()), 1).username, "bob");
}

#[test]
fn peer_registry_events() {
    let mut reg = PeerRegistry::new();
    let events = reg.connection_established("12D3KooWAbCdEfGh".to_string());
    assert_eq!(events.len(), 2);
    match &events[0] {
        P2PEvent::PeerJoined { peer_id, username } => {
            assert_eq!(peer_id, "12D3KooWAbCdEfGh");
            assert_eq!(username.as_deref(), Some("Peer_12D3KooW"));
        }
        _ => panic!(),
    }
    match &events[1] {
        P2PEvent::PeerListUpdated { peers } => assert_eq!(peers.len(), 1),
        _ => panic!(),
    }
    assert!(reg.connection_established("12D3KooWAbCdEfGh".to_string()).is_empty());
    assert!(reg.rename("12D3KooWAbCdEfGh", "Peer_12D3KooW".to_string()).is_empty());
    let events = reg.rename("12D3KooWAbCdEfGh", "bob".to_string());
    assert_eq!(events.len(), 1);
    assert_eq!(reg.list()[0].username, "bob");
    assert!(reg.rename("nobody", "x".to_string()).is_empty());
    let events = reg.connection_closed("12D3KooWAbCdEfGh");
    match &events[0] {
        P2PEvent::PeerLeft { peer_id, username } => {
            assert_eq!(peer_id, "12D3KooWAbCdEfGh");
            assert_eq!(username, "bob");
        }
        _ => panic!(),
    }
    match &events[1] {
        P2PEvent::PeerListUpdated { peers } => assert!(peers.is_empty()),
        _ => panic!(),
    }
    assert!(reg.connection_closed("12D3KooWAbCdEfGh").is_empty());
    assert!(reg.list().is_empty());
}

#[test]
fn connect_then_close_restores_list() {
    let mut reg = PeerRegistry::new();
    reg.connection_established("AAAAAAAAAAAA".to_string());
    let before: Vec<String> = reg.list().iter().map(|u| u.id.clone()).collect();
    reg.connection_established("BBBBBBBBBBBB".to_string());
    reg.connection_closed("BBBBBBBBBBBB");
    let after: Vec<String> = reg.list().iter().map(|u| u.id.clone()).collect();
    assert_eq!(before, after);
}

#[test]
fn room_subscriptions_and_topics() {
    let mut subs = RoomSubscriptions::new();
    assert!(!subs.is_subscribed("r"));
    subs.record_joined("r".to_string());
    subs.record_joined("r".to_string());
    assert!(subs.is_subscribed("r"));
    subs.record_left("r");
    assert!(!subs.is_subscribed("r"));
    assert_eq!(room_topic("abc"), "wiretalk-room-abc");
    assert_eq!(CHAT_TOPIC, "wiretalk-chat");
    let m = chat_message("hi".to_string(), "ada".to_string(), None);
    assert_eq!(m.room_id, "default");
    assert_eq!(m.content, "hi");
    assert!(!m.encrypted);
    assert_ne!(m.id, chat_message("hi".to_string(), "ada".to_string(), None).id);
    assert!(is_uuid_v4_text(&m.id));
}

#[test]
fn room_topics_to_follow() {
    let mut subs = RoomSubscriptions::new();
    assert_eq!(subs.join_topic("r"), Some("wiretalk-room-r".to_string()));
    assert_eq!(subs.leave_topic("r"), None);
    subs.record_joined("r".to_string());
    assert_eq!(subs.join_topic("r"), None);
    assert_eq!(subs.leave_topic("r"), Some("wiretalk-room-r".to_string()));
}

fn control(kind: &str, target: Option<&str>) -> GossipFields {
    let s = |x: &str| Some(x.to_string());
    GossipFields {
        kind: s(kind),
        target: target.map(|t| t.to_string()),
        peer_id: s("peerA"),
        public_key: s("00ff"),
        key_fingerprint: s("ABCD"),
        room_id: s("room-1"),
        inviter_peer_id: s("peerA"),
        inviter_username: s("ada"),
    }
}

#[test]
fn gossip_routing() {
    assert!(matches!(route_gossip(None, "me"), GossipRoute::AsChatMessage));
    match route_gossip(Some(control("key_exchange", Some("me"))), "me") {
        GossipRoute::Deliver(P2PEvent::KeyExchangeReceived { peer_id, public_key, key_fingerprint }) => {
            assert_eq!((peer_id.as_str(), public_key.as_str(), key_fingerprint.as_str()), ("peerA", "00ff", "ABCD"));
        }
        _ => panic!("expected a key exchange"),
    }
    assert!(matches!(route_gossip(Some(control("key_exchange", None)), "me"), GossipRoute::Deliver(_)));
    assert!(matches!(route_gossip(Some(control("key_exchange", Some("other"))), "me"), GossipRoute::Drop));
    let mut missing = control("key_exchange", Some("me"));
    missing.public_key = None;
    assert!(matches!(route_gossip(Some(missing), "me"), GossipRoute::Drop));
    match route_gossip(Some(control("room_invitation", Some("me"))), "me") {
        GossipRoute::Deliver(P2PEvent::RoomInvitationReceived { room_id, inviter_peer_id, inviter_username }) => {
            assert_eq!((room_id.as_str(), inviter_peer_id.as_str(), inviter_username.as_str()), ("room-1", "peerA", "ada"));
        }
        _ => panic!("expected an invitation"),
    }
    assert!(matches!(route_gossip(Some(control("room_invitation", Some("x"))), "me"), GossipRoute::Drop));
    assert!(matches!(route_gossip(Some(control("encrypted_message", Some("me"))), "me"), GossipRoute::AsChatMessage));
    let mut no_kind = control("x", None);
    no_kind.kind = None;
    assert!(matches!(route_gossip(Some(no_kind), "me"), GossipRoute::AsChatMessage));
}
