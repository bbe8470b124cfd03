//! The relay: rooms, sessions and ICE servers.

use vtcast::protocol::{
    generate_room_code, numbered_word, room_code_drawn, room_code_of, Envelope, ErrorCode, Message, PeerId, PeerInfo,
    Role, RoomCode, SdpKind, PROTOCOL_VERSION, ROOM_CODES,
};
use vtcast::room::{Delivery, Peer, Room, RoomRegistry};
use vtcast::text::hex_encode;
use vtcast::turn::{
    advertised_unreachable, random_secret, stun_only_ice_servers, turn_port, HostAddr, TurnService,
};
use vtcast::ws::{
    greet, greet_credentialed, greet_with, greeting_of, leave, new_room, on_frame, Admission, Connection, Frame, Session, Step,
};

fn hello(version: u32, role: Role, room: &str) -> Envelope {
    Envelope {
        seq: 1,
        msg: Message::Hello { protocol_version: version, role, room: RoomCode(room.to_string()) },
    }
}

fn join(registry: &mut RoomRegistry, role: Role, room: &str) -> (Session, Envelope, Vec<Delivery>) {
    match greet_with(registry, hello(PROTOCOL_VERSION, role, room), Vec::new()) {
        Admission::Joined { session, welcome, announcements } => (session, welcome, announcements),
        other => panic!("not joined: {:?}", other),
    }
}

fn refusal(admission: Admission) -> (ErrorCode, String) {
    match admission {
        Admission::Refused(Envelope { seq: 0, msg: Message::Error { code, detail } }) => (code, detail),
        other => panic!("not refused: {:?}", other),
    }
}

#[test]
fn room_code_generates_deterministically() {
    let mut state = 0xdeadbeef_cafebabeu64;
    let mut rng = || {
        state ^= state << 13;
        state ^= state >> 7;
        state ^= state << 17;
        state
    };
    let code = generate_room_code(&mut rng);
    assert_eq!(code.as_str().len(), 6);
}

#[test]
fn room_codes_of_words() {
    assert_eq!(room_code_of(0).as_str(), "bababa");
    // Bytes 1, 2, 3, 4, 5, 6, the lowest first.
    assert_eq!(room_code_of(0x0000_0605_0403_0201).as_str(), "cifuha");
    assert_eq!(room_code_of(u64::MAX).as_str(), "tototo");
    assert_eq!(room_code_of(0xffff_0000_0000_0000).as_str(), "bababa");
}

#[test]
fn room_codes_alternate_consonants_and_vowels() {
    for i in 0..300u64 {
        let code = room_code_of(i.wrapping_mul(0x9e37_79b9_7f4a_7c15));
        for (k, c) in code.as_str().chars().enumerate() {
            assert_eq!(k % 2 == 1, "aeiouy".contains(c));
            assert!(c.is_ascii_lowercase());
        }
        assert_eq!(code.as_str().len(), 6);
    }
}

#[test]
fn created_rooms_are_found() {
    let mut registry = RoomRegistry::new();
    let code = registry.create_room_with(7).unwrap();
    assert!(registry.get(&code).is_some());
    assert!(registry.create_room_with(7).is_none());
    let other = registry.create_room().unwrap();
    assert_eq!(other.as_str().len(), 6);
    assert!(other != code);
    let response = new_room(&mut registry).unwrap();
    assert!(registry.get(&RoomCode(response.code)).is_some());
}

#[test]
fn random_rooms_differ() {
    let mut registry = RoomRegistry::new();
    let mut codes = Vec::new();
    for _ in 0..50 {
        codes.push(registry.create_room().unwrap().as_str().to_string());
    }
    codes.sort();
    codes.dedup();
    assert_eq!(codes.len(), 50);
}

#[test]
fn rooms_list_and_reach_their_peers() {
    let mut room = Room::new(RoomCode("abc".to_string()));
    assert!(room.is_empty());
    room.insert(Peer { id: PeerId(1), role: Role::Publisher });
    room.insert(Peer { id: PeerId(2), role: Role::Subscriber });
    room.insert(Peer { id: PeerId(3), role: Role::Subscriber });
    let mut ids: Vec<u64> = room.snapshot().iter().map(|p| p.peer_id.0).collect();
    ids.sort();
    assert_eq!(ids, vec![1, 2, 3]);
    assert!(room.snapshot().contains(&PeerInfo { peer_id: PeerId(1), role: Role::Publisher }));
    let env = Envelope { seq: 9, msg: Message::PeerLeft { peer_id: PeerId(2) } };
    let mut to: Vec<u64> = room.broadcast_except(PeerId(2), &env).iter().map(|d| d.to.0).collect();
    to.sort();
    assert_eq!(to, vec![1, 3]);
    for d in room.broadcast_except(PeerId(2), &env) {
        assert_eq!(d.envelope.seq, 9);
        assert!(matches!(d.envelope.msg, Message::PeerLeft { peer_id: PeerId(2) }));
    }
    assert_eq!(room.peer_tx(PeerId(3)), Some(PeerId(3)));
    room.remove(PeerId(3));
    assert_eq!(room.peer_tx(PeerId(3)), None);
    assert!(!room.is_empty());
}

#[test]
fn peers_are_numbered_from_one() {
    let mut registry = RoomRegistry::new();
    assert_eq!(registry.mint_peer_id(), PeerId(1));
    assert_eq!(registry.mint_peer_id(), PeerId(2));
}

#[test]
fn peers_are_numbered_on_whatever_happens_between() {
    let mut registry = RoomRegistry::new();
    let code = registry.create_room().unwrap();
    let first = registry.mint_peer_id();
    registry.insert_peer(&code, Peer { id: first, role: Role::Publisher });
    registry.remove_peer(&code, first);
    registry.gc_if_empty(&code);
    assert!(registry.get(&code).is_none());
    let second = registry.mint_peer_id();
    assert!(registry.get_or_resurrect(&code));
    let third = registry.mint_peer_id();
    assert_eq!((first, second, third), (PeerId(1), PeerId(2), PeerId(3)));
}

#[test]
fn a_room_code_takes_one_draw_and_its_low_bytes() {
    let mut draws = 0;
    let mut low = || {
        draws += 1;
        0x0000_0605_0403_0201u64
    };
    let first = generate_room_code(&mut low);
    assert_eq!(draws, 1);
    let mut high = || 0xfedc_0605_0403_0201u64;
    assert_eq!(generate_room_code(&mut high).as_str(), first.as_str());
    assert_eq!(first.as_str(), "cifuha");
    assert_eq!(room_code_drawn(|| 0x0605_0403_0201).as_str(), first.as_str());
    let mut other = || 0x0000_0605_0403_0202u64;
    assert_ne!(generate_room_code(&mut other).as_str(), first.as_str());
}

#[test]
fn room_codes_are_numbered() {
    assert_eq!(room_code_of(numbered_word(0)).as_str(), "bababa");
    assert_eq!(room_code_of(numbered_word(1)).as_str(), "cababa");
    assert_eq!(room_code_of(numbered_word(20)).as_str(), "bebaba");
    assert_eq!(room_code_of(numbered_word(ROOM_CODES - 1)).as_str(), "zyzyzy");
    let mut codes: Vec<String> =
        (0..ROOM_CODES).step_by(13).map(|n| room_code_of(numbered_word(n)).as_str().to_string()).collect();
    let count = codes.len();
    codes.sort();
    codes.dedup();
    assert_eq!(codes.len(), count);
}

#[test]
fn a_taken_code_is_not_given_again() {
    let mut registry = RoomRegistry::new();
    let code = registry.create_room_with(numbered_word(5)).unwrap();
    assert_eq!(code.as_str(), room_code_of(numbered_word(5)).as_str());
    assert!(registry.create_room_with(numbered_word(5)).is_none());
    let other = registry.create_room().unwrap();
    assert_ne!(other.as_str(), code.as_str());
}

#[test]
fn resurrecting_keeps_what_is_there() {
    let mut registry = RoomRegistry::new();
    let code = RoomCode("mine".to_string());
    assert!(registry.get_or_resurrect(&code));
    registry.insert_peer(&code, Peer { id: PeerId(5), role: Role::Publisher });
    assert!(!registry.get_or_resurrect(&code));
    assert_eq!(registry.get(&code).unwrap().snapshot().len(), 1);
    registry.gc_if_empty(&code);
    assert!(registry.get(&code).is_some());
    registry.remove_peer(&code, PeerId(5));
    registry.gc_if_empty(&code);
    assert!(registry.get(&code).is_none());
    registry.gc_if_empty(&code);
}

#[test]
fn collecting_one_room_leaves_the_others() {
    let mut registry = RoomRegistry::new();
    for name in ["a", "b", "c"] {
        registry.get_or_resurrect(&RoomCode(name.to_string()));
    }
    registry.gc_if_empty(&RoomCode("b".to_string()));
    assert!(registry.get(&RoomCode("a".to_string())).is_some());
    assert!(registry.get(&RoomCode("b".to_string())).is_none());
    assert!(registry.get(&RoomCode("c".to_string())).is_some());
}

#[test]
fn wrong_versions_are_refused() {
    let mut registry = RoomRegistry::new();
    let (code, detail) = refusal(greet_with(&mut registry, hello(1, Role::Publisher, "r"), Vec::new()));
    assert_eq!(code, ErrorCode::VersionMismatch);
    assert_eq!(detail, "relay speaks v2, client sent v1");
    assert!(registry.get(&RoomCode("r".to_string())).is_none());
}

#[test]
fn subscribers_need_a_room() {
    let mut registry = RoomRegistry::new();
    let (code, detail) =
        refusal(greet_with(&mut registry, hello(PROTOCOL_VERSION, Role::Subscriber, "nope"), Vec::new()));
    assert_eq!(code, ErrorCode::RoomNotFound);
    assert_eq!(detail, "no room with code nope");
}

#[test]
fn other_greetings_are_dropped() {
    let mut registry = RoomRegistry::new();
    let ping = Envelope { seq: 0, msg: Message::Ping { nonce: 1 } };
    assert!(matches!(greet_with(&mut registry, ping, Vec::new()), Admission::Dropped));
    assert!(greeting_of(Frame::Text(None)).is_none());
    assert!(greeting_of(Frame::Close).is_none());
    assert!(greeting_of(Frame::Text(Some(hello(2, Role::Publisher, "x")))).is_some());
}

#[test]
fn publishers_bring_their_room_back() {
    let mut registry = RoomRegistry::new();
    let (session, welcome, announcements) = join(&mut registry, Role::Publisher, "mine");
    assert_eq!(session.peer_id, PeerId(1));
    assert!(announcements.is_empty());
    match welcome.msg {
        Message::Welcome { peer_id, room_state } => {
            assert_eq!(peer_id, PeerId(1));
            assert_eq!(room_state.code.as_str(), "mine");
            assert!(room_state.peers.is_empty());
        }
        other => panic!("no welcome: {:?}", other),
    }
    assert!(leave(&mut registry, &session).is_empty());
    assert!(registry.get(&RoomCode("mine".to_string())).is_none());
    let (again, _, _) = join(&mut registry, Role::Publisher, "mine");
    assert_eq!(again.peer_id, PeerId(2));
}

#[test]
fn joining_and_leaving_are_announced() {
    let mut registry = RoomRegistry::new();
    let (publisher, _, _) = join(&mut registry, Role::Publisher, "r");
    let (subscriber, welcome, announcements) = join(&mut registry, Role::Subscriber, "r");
    assert_eq!(announcements.len(), 1);
    assert_eq!(announcements[0].to, publisher.peer_id);
    match &announcements[0].envelope.msg {
        Message::PeerJoined { peer } => {
            assert_eq!(*peer, PeerInfo { peer_id: subscriber.peer_id, role: Role::Subscriber });
        }
        other => panic!("{:?}", other),
    }
    match welcome.msg {
        Message::Welcome { room_state, .. } => {
            assert_eq!(room_state.peers, vec![PeerInfo { peer_id: publisher.peer_id, role: Role::Publisher }]);
        }
        other => panic!("{:?}", other),
    }
    let farewell = leave(&mut registry, &subscriber);
    assert_eq!(farewell.len(), 1);
    assert_eq!(farewell[0].to, publisher.peer_id);
    assert!(matches!(farewell[0].envelope.msg, Message::PeerLeft { peer_id } if peer_id == subscriber.peer_id));
    assert!(registry.get(&RoomCode("r".to_string())).is_some());
}

#[test]
fn forwarded_messages_name_their_sender() {
    let mut registry = RoomRegistry::new();
    let (publisher, _, _) = join(&mut registry, Role::Publisher, "r");
    let (subscriber, _, _) = join(&mut registry, Role::Subscriber, "r");
    let forged = Envelope {
        seq: 77,
        msg: Message::Sdp {
            kind: SdpKind::Answer,
            sdp: "v=0".to_string(),
            from: Some(PeerId(999)),
            to: Some(publisher.peer_id),
        },
    };
    match on_frame(&registry, &subscriber, Frame::Text(Some(forged))) {
        Step::Forward(d) => {
            assert_eq!(d.to, publisher.peer_id);
            assert_eq!(d.envelope.seq, 77);
            match d.envelope.msg {
                Message::Sdp { kind, sdp, from, to } => {
                    assert_eq!(kind, SdpKind::Answer);
                    assert_eq!(sdp, "v=0");
                    assert_eq!(from, Some(subscriber.peer_id));
                    assert_eq!(to, Some(publisher.peer_id));
                }
                other => panic!("{:?}", other),
            }
        }
        other => panic!("{:?}", other),
    }
    let candidate = Envelope {
        seq: 5,
        msg: Message::IceCandidate { candidate: "c".to_string(), from: None, to: Some(subscriber.peer_id) },
    };
    match on_frame(&registry, &publisher, Frame::Text(Some(candidate))) {
        Step::Forward(d) => {
            assert!(matches!(
                d.envelope.msg,
                Message::IceCandidate { from: Some(PeerId(1)), to: Some(PeerId(2)), .. }
            ));
        }
        other => panic!("{:?}", other),
    }
}

#[test]
fn messages_stay_in_their_room() {
    let mut registry = RoomRegistry::new();
    let (here, _, _) = join(&mut registry, Role::Publisher, "here");
    let (there, _, _) = join(&mut registry, Role::Publisher, "there");
    let stray = Envelope {
        seq: 0,
        msg: Message::IceCandidate { candidate: "c".to_string(), from: None, to: Some(there.peer_id) },
    };
    assert!(matches!(on_frame(&registry, &here, Frame::Text(Some(stray))), Step::Ignore));
}

#[test]
fn frames_that_are_not_forwarded() {
    let mut registry = RoomRegistry::new();
    let (session, _, _) = join(&mut registry, Role::Publisher, "r");
    assert!(matches!(on_frame(&registry, &session, Frame::Close), Step::End));
    assert!(matches!(on_frame(&registry, &session, Frame::Failed), Step::End));
    assert!(matches!(on_frame(&registry, &session, Frame::Other), Step::Ignore));
    assert!(matches!(on_frame(&registry, &session, Frame::Text(None)), Step::Ignore));
    let aimless = Envelope {
        seq: 0,
        msg: Message::Sdp { kind: SdpKind::Offer, sdp: "s".to_string(), from: None, to: None },
    };
    assert!(matches!(on_frame(&registry, &session, Frame::Text(Some(aimless))), Step::Ignore));
    let again = hello(2, Role::Publisher, "r");
    assert!(matches!(on_frame(&registry, &session, Frame::Text(Some(again))), Step::Ignore));
    let pong = Envelope { seq: 0, msg: Message::Pong { nonce: 3 } };
    assert!(matches!(on_frame(&registry, &session, Frame::Text(Some(pong))), Step::Ignore));
}

#[test]
fn credentials_belong_to_the_secret() {
    let turn = TurnService::new(3478, "turn.example".to_string(), "s3cret".to_string());
    assert_eq!(turn.realm(), "vtcast");
    let servers = turn.ice_servers_for_peer();
    assert_eq!(servers.len(), 2);
    assert_eq!(servers[0].urls, vec!["stun:stun.l.google.com:19302"]);
    assert!(servers[0].username.is_none() && servers[0].credential.is_none());
    assert_eq!(servers[1].urls, vec!["turn:turn.example:3478?transport=udp"]);
    let username = servers[1].username.clone().unwrap();
    let now = std::time::SystemTime::now()
        .duration_since(std::time::UNIX_EPOCH)
        .unwrap()
        .as_secs();
    let expiry: u64 = username.parse().unwrap();
    assert!(expiry + 30 >= now + 600 && expiry <= now + 630);
    let password = servers[1].credential.clone().unwrap();
    // Base64 of twenty bytes.
    assert_eq!(password.len(), 28);
    assert_ne!(password, "s3cret");
    assert_ne!(password, username);
}

#[test]
fn servers_without_credentials() {
    let turn = TurnService::new(1, "a".to_string(), "b".to_string());
    assert_eq!(turn.ice_servers_with(None).len(), 1);
    let with = turn.ice_servers_with(Some(("u".to_string(), "p".to_string())));
    assert_eq!(with[1].urls, vec!["turn:a:1?transport=udp"]);
    assert_eq!(with[1].username, Some("u".to_string()));
    assert_eq!(with[1].credential, Some("p".to_string()));
    assert_eq!(stun_only_ice_servers().len(), 1);
}

#[test]
fn welcomes_name_the_turn_server() {
    let turn = Some(TurnService::new(3478, "h".to_string(), "s".to_string()));
    assert_eq!(turn.as_ref().unwrap().credential_request(), ("s", 600));
    let pair = || Some(("u".to_string(), "p".to_string()));
    let servers = |reply: Option<Envelope>| match reply {
        Some(Envelope { msg: Message::Welcome { room_state, .. }, .. }) => room_state.ice_servers,
        other => panic!("{:?}", other),
    };
    let mut registry = RoomRegistry::new();
    let greeting = || Frame::Text(Some(hello(2, Role::Publisher, "r")));
    let (next, outcome) =
        Connection::Waiting.on_frame_credentialed(&mut registry, greeting(), &turn, pair());
    assert!(matches!(next, Connection::Joined(_)));
    let told = servers(outcome.reply);
    assert_eq!(told.len(), 2);
    assert_eq!(told[0].urls, vec!["stun:stun.l.google.com:19302"]);
    assert_eq!(told[1].urls, vec!["turn:h:3478?transport=udp"]);
    assert_eq!(told[1].username, Some("u".to_string()));
    assert_eq!(told[1].credential, Some("p".to_string()));
    let (_, outcome) =
        Connection::Waiting.on_frame_credentialed(&mut registry, greeting(), &turn, None);
    assert_eq!(servers(outcome.reply).len(), 1);
    let (_, outcome) =
        Connection::Waiting.on_frame_credentialed(&mut registry, greeting(), &None, pair());
    assert_eq!(servers(outcome.reply).len(), 1);
    let (_, outcome) = Connection::Waiting.on_frame(&mut registry, greeting(), &turn);
    assert_eq!(servers(outcome.reply).len(), 2);
    match greet_credentialed(&mut registry, hello(2, Role::Subscriber, "r"), &turn, pair()) {
        Admission::Joined { welcome, .. } => assert_eq!(servers(Some(welcome)).len(), 2),
        other => panic!("{:?}", other),
    }
}

#[test]
fn greetings_get_ice_servers() {
    let mut registry = RoomRegistry::new();
    let turn = Some(TurnService::new(3478, "h".to_string(), "s".to_string()));
    match greet(&mut registry, hello(2, Role::Publisher, "r"), &turn) {
        Admission::Joined { welcome: Envelope { msg: Message::Welcome { room_state, .. }, .. }, .. } => {
            assert_eq!(room_state.ice_servers.len(), 2);
        }
        other => panic!("{:?}", other),
    }
    match greet(&mut registry, hello(2, Role::Subscriber, "r"), &None) {
        Admission::Joined { welcome: Envelope { msg: Message::Welcome { room_state, .. }, .. }, .. } => {
            assert_eq!(room_state.ice_servers.len(), 1);
        }
        other => panic!("{:?}", other),
    }
    let (code, _) = refusal(greet(&mut registry, hello(3, Role::Publisher, "r"), &turn));
    assert_eq!(code, ErrorCode::VersionMismatch);
}

#[test]
fn secrets_are_hexadecimal() {
    let secret = random_secret();
    assert_eq!(secret.len(), 64);
    assert!(secret.chars().all(|c| c.is_ascii_digit() || ('a'..='f').contains(&c)));
    assert_ne!(secret, random_secret());
    assert_ne!(secret, "0".repeat(64));
    assert_eq!(hex_encode(&[0x00, 0x0f, 0xf0, 0xab]), "000ff0ab");
    assert_eq!(hex_encode(&[]), "");
}

#[test]
fn turn_ports() {
    assert_eq!(turn_port(None), 3478);
    assert_eq!(turn_port(Some("5000")), 5000);
    assert_eq!(turn_port(Some("+80")), 80);
    assert_eq!(turn_port(Some("65535")), 65535);
    assert_eq!(turn_port(Some("65536")), 3478);
    assert_eq!(turn_port(Some("")), 3478);
    assert_eq!(turn_port(Some(" 1")), 3478);
    assert_eq!(turn_port(Some("-1")), 3478);
}

#[test]
fn unreachable_addresses() {
    assert!(advertised_unreachable("127.0.0.1", Some(HostAddr::V4([127, 0, 0, 1]))));
    assert!(advertised_unreachable("0.0.0.0", Some(HostAddr::V4([0, 0, 0, 0]))));
    assert!(!advertised_unreachable("1.2.3.4", Some(HostAddr::V4([1, 2, 3, 4]))));
    let mut v6 = [0u8; 16];
    assert!(advertised_unreachable("::", Some(HostAddr::V6(v6))));
    v6[15] = 1;
    assert!(advertised_unreachable("::1", Some(HostAddr::V6(v6))));
    v6[15] = 2;
    assert!(!advertised_unreachable("::2", Some(HostAddr::V6(v6))));
    v6[0] = 0x20;
    v6[15] = 1;
    assert!(!advertised_unreachable("2000::1", Some(HostAddr::V6(v6))));
    assert!(advertised_unreachable("localhost", None));
    assert!(!advertised_unreachable("example.org", None));
}

#[test]
fn connections_from_greeting_to_end() {
    let mut registry = RoomRegistry::new();
    let room = RoomCode("r".to_string());
    let greeting = |role| Frame::Text(Some(hello(PROTOCOL_VERSION, role, "r")));
    let (publisher, outcome) =
        Connection::Waiting.on_frame(&mut registry, greeting(Role::Publisher), &None);
    assert!(matches!(outcome.reply, Some(Envelope { seq: 0, msg: Message::Welcome { .. } })));
    assert!(outcome.deliveries.is_empty());
    let (subscriber, outcome) =
        Connection::Waiting.on_frame(&mut registry, greeting(Role::Subscriber), &None);
    assert_eq!(outcome.deliveries.len(), 1);
    assert_eq!(outcome.deliveries[0].to, PeerId(1));

    let candidate = Envelope {
        seq: 3,
        msg: Message::IceCandidate { candidate: "c".to_string(), from: None, to: Some(PeerId(2)) },
    };
    let (publisher, outcome) =
        publisher.on_frame(&mut registry, Frame::Text(Some(candidate)), &None);
    assert!(outcome.reply.is_none());
    assert_eq!(outcome.deliveries[0].to, PeerId(2));
    let (publisher, outcome) = publisher.on_frame(&mut registry, Frame::Other, &None);
    assert!(outcome.deliveries.is_empty());
    assert_eq!(registry.get(&room).unwrap().snapshot().len(), 2);

    let (publisher, outcome) = publisher.on_frame(&mut registry, Frame::Failed, &None);
    assert!(matches!(publisher, Connection::Over));
    assert_eq!(outcome.deliveries.len(), 1);
    assert_eq!(registry.get(&room).unwrap().snapshot().len(), 1);
    let (publisher, outcome) =
        publisher.on_frame(&mut registry, greeting(Role::Publisher), &None);
    assert!(matches!(publisher, Connection::Over) && outcome.reply.is_none());

    let (subscriber, outcome) = subscriber.on_frame(&mut registry, Frame::Close, &None);
    assert!(matches!(subscriber, Connection::Over) && outcome.deliveries.is_empty());
    assert!(registry.get(&room).is_none());
}

#[test]
fn connections_that_never_open() {
    let mut registry = RoomRegistry::new();
    for frame in [Frame::Close, Frame::Failed, Frame::Other, Frame::Text(None)] {
        let (next, outcome) = Connection::Waiting.on_frame(&mut registry, frame, &None);
        assert!(matches!(next, Connection::Over) && outcome.reply.is_none());
    }
    let ping = Envelope { seq: 0, msg: Message::Ping { nonce: 1 } };
    let (next, outcome) =
        Connection::Waiting.on_frame(&mut registry, Frame::Text(Some(ping)), &None);
    assert!(matches!(next, Connection::Over) && outcome.reply.is_none());
    let stranger = Frame::Text(Some(hello(PROTOCOL_VERSION, Role::Subscriber, "r")));
    let (next, outcome) = Connection::Waiting.on_frame(&mut registry, stranger, &None);
    assert!(matches!(next, Connection::Over));
    assert!(matches!(
        outcome.reply,
        Some(Envelope { msg: Message::Error { code: ErrorCode::RoomNotFound, .. }, .. })
    ));
}
