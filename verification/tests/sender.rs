//! The sender: settings, signaling and reconnection.

use vtcast::config::{
    effective_backend, gpu_source_info, list_spout_senders, new_room_failure, new_room_url,
    open_capture, parse_chroma_key, receiver_url, resolve_spout_name, source_info, ChromaKeyError,
    Config, EncoderBackend, SourceError, SourceKind, SourceTarget,
};
use vtcast::encoder::EncoderKind;
use vtcast::packer::ChromaKey;
use vtcast::pipeline::{
    may_start, plan, plan_start, started, CaptureLoop, CaptureNext, Next, Pacer, PipelineEvent,
    PublisherWorker, Tally,
};
use vtcast::protocol::{
    Envelope, ErrorCode, IceServer, Message, PeerId, PeerInfo, Role, RoomCode, RoomState, SdpKind,
};
use vtcast::publisher::{
    candidate_envelope, hello, pump_result, ws_url, Action, CandidateInit, InboundError, PumpEnded,
    Publisher, Reaction,
};
use vtcast::text::{contains, is_blank, parse_unsigned, push_decimal, replace, split_on, trim, trim_end_matches};
use vtcast::ws::Frame;

const SDP: &str = "v=0\r\no=- 1 2 IN IP4 127.0.0.1\r\ns=-\r\nt=0 0\r\n";

fn text(msg: Message) -> Frame {
    Frame::Text(Some(Envelope { seq: 0, msg }))
}

fn actions(reaction: Reaction) -> Vec<Action> {
    match reaction {
        Reaction::Continue(Ok(actions)) => actions,
        other => panic!("{:?}", other),
    }
}

fn failure(reaction: Reaction) -> InboundError {
    match reaction {
        Reaction::Continue(Err(e)) => e,
        other => panic!("{:?}", other),
    }
}

fn answer(from: Option<PeerId>, sdp: &str) -> Message {
    Message::Sdp { kind: SdpKind::Answer, sdp: sdp.to_string(), from, to: None }
}

#[test]
fn signaling_addresses() {
    assert_eq!(ws_url("https://vtcast.jamku.me"), "wss://vtcast.jamku.me/ws");
    assert_eq!(ws_url("http://localhost:17239/"), "ws://localhost:17239/ws");
    assert_eq!(ws_url("https://a//"), "wss://a/ws");
    assert_eq!(ws_url("a"), "a/ws");
}

#[test]
fn greeting_of_a_publisher() {
    match hello("fyryho").msg {
        Message::Hello { protocol_version, role, room } => {
            assert_eq!(protocol_version, 2);
            assert_eq!(role, Role::Publisher);
            assert_eq!(room.as_str(), "fyryho");
        }
        other => panic!("{:?}", other),
    }
}

#[test]
fn welcome_offers_to_the_subscribers() {
    let mut state = Publisher::new();
    let welcome = Message::Welcome {
        peer_id: PeerId(4),
        room_state: RoomState {
            code: RoomCode("r".to_string()),
            peers: vec![
                PeerInfo { peer_id: PeerId(1), role: Role::Subscriber },
                PeerInfo { peer_id: PeerId(2), role: Role::Publisher },
                PeerInfo { peer_id: PeerId(3), role: Role::Subscriber },
            ],
            ice_servers: vec![
                IceServer { urls: vec!["stun:x".to_string()], username: None, credential: None },
                IceServer {
                    urls: vec!["turn:y".to_string()],
                    username: Some("u".to_string()),
                    credential: Some("p".to_string()),
                },
            ],
        },
    };
    let todo = actions(state.on_frame(text(welcome)));
    assert_eq!(todo.len(), 2);
    assert!(matches!(todo[0], Action::Connect(PeerId(1))));
    assert!(matches!(todo[1], Action::Connect(PeerId(3))));
    let servers = state.rtc_ice_servers();
    assert_eq!(servers.len(), 2);
    assert_eq!((servers[0].username.as_str(), servers[0].credential.as_str()), ("", ""));
    assert_eq!((servers[1].username.as_str(), servers[1].credential.as_str()), ("u", "p"));
    assert_eq!(servers[1].urls, vec!["turn:y"]);
}

#[test]
fn later_subscribers_get_offers_too() {
    let mut state = Publisher::new();
    let joined = |id, role| Message::PeerJoined { peer: PeerInfo { peer_id: PeerId(id), role } };
    let todo = actions(state.on_frame(text(joined(8, Role::Subscriber))));
    assert!(matches!(todo[..], [Action::Connect(PeerId(8))]));
    assert!(actions(state.on_frame(text(joined(9, Role::Publisher)))).is_empty());
    let offer = state.offer(PeerId(8), "sdp".to_string());
    assert!(matches!(
        offer.msg,
        Message::Sdp { kind: SdpKind::Offer, from: None, to: Some(PeerId(8)), .. }
    ));
}

#[test]
fn answers_are_applied_to_known_subscribers() {
    let mut state = Publisher::new();
    assert!(actions(state.on_frame(text(answer(Some(PeerId(8)), SDP)))).is_empty());
    state.offer(PeerId(8), "sdp".to_string());
    let todo = actions(state.on_frame(text(answer(Some(PeerId(8)), SDP))));
    match &todo[..] {
        [Action::ApplyAnswer { subscriber, sdp }] => {
            assert_eq!(*subscriber, PeerId(8));
            assert_eq!(sdp, SDP);
        }
        other => panic!("{:?}", other),
    }
    assert!(actions(state.on_frame(text(answer(None, SDP)))).is_empty());
    let bad = state.on_frame(text(answer(Some(PeerId(8)), "not a session description")));
    assert_eq!(failure(bad), InboundError::ParseAnswer);
    let offer = Message::Sdp {
        kind: SdpKind::Offer,
        sdp: "junk".to_string(),
        from: Some(PeerId(8)),
        to: None,
    };
    assert!(actions(state.on_frame(text(offer))).is_empty());
}

#[test]
fn candidates_are_added_to_known_subscribers() {
    let json = "{\"candidate\":\"candidate:abc123\",\"sdpMid\":\"0\",\"sdpMLineIndex\":1,\"usernameFragment\":null}";
    let message = |candidate: &str| Message::IceCandidate {
        candidate: candidate.to_string(),
        from: Some(PeerId(3)),
        to: None,
    };
    let mut state = Publisher::new();
    assert!(actions(state.on_frame(text(message("not json")))).is_empty());
    state.offer(PeerId(3), String::new());
    let todo = actions(state.on_frame(text(message(json))));
    match &todo[..] {
        [Action::AddCandidate { subscriber, candidate }] => {
            assert_eq!(*subscriber, PeerId(3));
            assert_eq!(candidate.candidate, "candidate:abc123");
            assert_eq!(candidate.sdp_mid, Some("0".to_string()));
            assert_eq!(candidate.sdp_mline_index, Some(1));
            assert_eq!(candidate.username_fragment, None);
        }
        other => panic!("{:?}", other),
    }
    assert_eq!(failure(state.on_frame(text(message("not json")))), InboundError::ParseCandidate);
}

#[test]
fn candidates_read_back_as_they_were_written() {
    let init = CandidateInit {
        candidate: "candidate:1 \"quoted\" \u{1F600}".to_string(),
        sdp_mid: Some(String::new()),
        sdp_mline_index: Some(7),
        username_fragment: None,
    };
    let envelope = candidate_envelope(PeerId(3), init).unwrap();
    let json = match envelope.msg {
        Message::IceCandidate { candidate, from: None, to: Some(PeerId(3)) } => candidate,
        other => panic!("{:?}", other),
    };
    assert!(json.starts_with('{'));
    let mut state = Publisher::new();
    state.offer(PeerId(3), String::new());
    let todo = actions(state.on_frame(text(Message::IceCandidate {
        candidate: json,
        from: Some(PeerId(3)),
        to: None,
    })));
    match &todo[..] {
        [Action::AddCandidate { candidate, .. }] => {
            assert_eq!(candidate.candidate, "candidate:1 \"quoted\" \u{1F600}");
            assert_eq!(candidate.sdp_mid, Some(String::new()));
            assert_eq!(candidate.sdp_mline_index, Some(7));
        }
        other => panic!("{:?}", other),
    }
}

#[test]
fn what_was_parsed_decides() {
    let mut state = Publisher::new();
    state.offer(PeerId(3), String::new());
    assert!(state.handle_parsed(answer(Some(PeerId(3)), "anything"), true, None).unwrap().len() == 1);
    assert_eq!(
        state.handle_parsed(answer(Some(PeerId(3)), SDP), false, None).unwrap_err(),
        InboundError::ParseAnswer
    );
}

#[test]
fn subscribers_that_left_are_forgotten() {
    let mut state = Publisher::new();
    let left = || text(Message::PeerLeft { peer_id: PeerId(5) });
    assert!(actions(state.on_frame(left())).is_empty());
    state.offer(PeerId(5), String::new());
    assert!(matches!(actions(state.on_frame(left()))[..], [Action::Close(PeerId(5))]));
    assert!(actions(state.on_frame(left())).is_empty());
    assert!(actions(state.on_frame(text(answer(Some(PeerId(5)), SDP)))).is_empty());
}

#[test]
fn pings_are_answered() {
    let mut state = Publisher::new();
    let todo = actions(state.on_frame(text(Message::Ping { nonce: 42 })));
    match &todo[..] {
        [Action::Send(envelope)] => assert!(matches!(envelope.msg, Message::Pong { nonce: 42 })),
        other => panic!("{:?}", other),
    }
    assert!(actions(state.on_frame(text(Message::Pong { nonce: 1 }))).is_empty());
}

#[test]
fn signaling_ends() {
    let mut state = Publisher::new();
    assert!(matches!(state.on_frame(Frame::Close), Reaction::End(PumpEnded::WsClosed)));
    assert!(matches!(state.on_frame(Frame::Failed), Reaction::End(PumpEnded::WsClosed)));
    assert!(actions(state.on_frame(Frame::Other)).is_empty());
    assert!(actions(state.on_frame(Frame::Text(None))).is_empty());
    let error = Message::Error { code: ErrorCode::RoomNotFound, detail: "gone".to_string() };
    match state.on_frame(text(error)) {
        Reaction::End(PumpEnded::RelayError(detail)) => assert_eq!(detail, "gone"),
        other => panic!("{:?}", other),
    }
    let error = Message::Error { code: ErrorCode::Internal, detail: "x".to_string() };
    assert_eq!(
        state.handle_inbound(Envelope { seq: 0, msg: error }).unwrap_err(),
        InboundError::Relay
    );
    assert!(matches!(pump_result(None), PumpEnded::WsClosed));
    assert!(matches!(pump_result(Some(PumpEnded::OutboundClosed)), PumpEnded::OutboundClosed));
}

#[test]
fn settings_by_default() {
    let config = Config::default();
    assert_eq!(config.relay_url, "https://vtcast.jamku.me");
    assert_eq!((config.fps, config.bitrate_kbps, config.max_packed_width), (30, 8000, 4096));
    assert_eq!(config.encoder, EncoderKind::Libx264);
    assert_eq!(config.backend, EncoderBackend::Ffmpeg);
    assert_eq!(config.source_kind, SourceKind::Spout);
    assert!(config.room.is_none() && config.chroma_key.is_none());
}

#[test]
fn backends_fall_back() {
    let (ffmpeg, mf) = (EncoderBackend::Ffmpeg, EncoderBackend::Mf);
    assert_eq!(effective_backend(ffmpeg, true, false), mf);
    assert_eq!(effective_backend(ffmpeg, true, true), ffmpeg);
    assert_eq!(effective_backend(ffmpeg, false, false), ffmpeg);
    assert_eq!(effective_backend(mf, true, true), mf);
}

#[test]
fn addresses_of_rooms() {
    assert_eq!(
        receiver_url("https://vtcast.jamku.me/", "fyryho"),
        "https://vtcast.jamku.me/r?room=fyryho"
    );
    assert_eq!(new_room_url("http://localhost:17239"), "http://localhost:17239/api/new-room");
    assert_eq!(new_room_failure("u"), "GET u — is the relay running?");
}

#[test]
fn chroma_keys_are_parsed() {
    let key = ChromaKey { r: 0, g: 255, b: 0, threshold: 60, softness: 30 };
    assert_eq!(parse_chroma_key("0,255,0,60,30").unwrap(), key);
    assert_eq!(parse_chroma_key(" 0 ,+255,\t0, 060,30 ").unwrap(), key);
    assert!(matches!(parse_chroma_key("1,2,3"), Err(ChromaKeyError::Shape)));
    assert!(matches!(parse_chroma_key("1,2,3,4,5,6"), Err(ChromaKeyError::Shape)));
    assert!(matches!(parse_chroma_key(""), Err(ChromaKeyError::Shape)));
    match parse_chroma_key("1, 256 ,x,4,5") {
        Err(ChromaKeyError::Number(part)) => assert_eq!(part, "256"),
        other => panic!("{:?}", other),
    }
    assert!(matches!(parse_chroma_key("1,,3,4,5"), Err(ChromaKeyError::Number(p)) if p.is_empty()));
}

#[test]
fn senders_are_chosen_by_name() {
    let senders = vec!["Warudo Main".to_string(), "Warudo".to_string(), "VSeeFace".to_string()];
    let pick = |name: Option<&str>| resolve_spout_name(&name.map(str::to_string), &senders);
    assert_eq!(pick(None), Some("Warudo Main".to_string()));
    assert_eq!(pick(Some("Warudo")), Some("Warudo".to_string()));
    assert_eq!(pick(Some("See")), Some("VSeeFace".to_string()));
    assert_eq!(pick(Some("gone")), Some("gone".to_string()));
    assert_eq!(resolve_spout_name(&None, &Vec::new()), None);
}

#[test]
fn sources_to_open() {
    let mut config = Config::default();
    assert!(matches!(open_capture(&config, &Vec::new(), true), Err(SourceError::NoSender)));
    let senders = vec!["A".to_string()];
    assert!(matches!(open_capture(&config, &senders, false), Ok(SourceTarget::Spout(s)) if s == "A"));
    config.source_kind = SourceKind::Window;
    assert!(matches!(open_capture(&config, &senders, true), Err(SourceError::NoWindowTitle)));
    assert!(matches!(open_capture(&config, &senders, false), Err(SourceError::WindowCaptureUnsupported)));
    config.source_name = Some("1".to_string());
    assert!(matches!(open_capture(&config, &senders, true), Ok(SourceTarget::Window(s)) if s == "1"));
    config.source_kind = SourceKind::Display;
    assert!(matches!(open_capture(&config, &senders, true), Ok(SourceTarget::Display(Some(1)))));
    assert!(matches!(open_capture(&config, &senders, false), Err(SourceError::DisplayCaptureUnsupported)));
    config.source_name = Some("one".to_string());
    assert!(matches!(open_capture(&config, &senders, true), Ok(SourceTarget::Display(None))));
    assert_eq!(SourceError::NoSender.text(), "no Spout senders broadcasting");
    assert_eq!(list_spout_senders(None).unwrap_err(), SourceError::NoRegistry);
}

#[test]
fn sources_are_announced() {
    let spout = source_info(SourceKind::Spout, "n".to_string(), 1, 2, "GPU 0".to_string());
    assert_eq!((spout.adapter.as_str(), spout.width, spout.height), ("GPU 0", 1, 2));
    let window = source_info(SourceKind::Window, "n".to_string(), 1, 2, String::new());
    assert_eq!(window.adapter, "WGC");
    let display = source_info(SourceKind::Display, "n".to_string(), 1, 2, String::new());
    assert_eq!(display.adapter, "DDA");
    assert_eq!(gpu_source_info("n".to_string(), 1, 2, "RTX").adapter, "RTX (GPU)");
}

#[test]
fn starts_are_planned() {
    let mut config = Config::default();
    let plan = plan_start(&config, true, false);
    assert_eq!(plan.backend, EncoderBackend::Mf);
    assert!(plan.try_gpu);
    assert_eq!(plan.room, Err("https://vtcast.jamku.me/api/new-room".to_string()));
    config.room = Some("abc".to_string());
    config.source_kind = SourceKind::Window;
    let plan = plan_start(&config, false, false);
    assert_eq!(plan.backend, EncoderBackend::Ffmpeg);
    assert!(!plan.try_gpu);
    assert_eq!(plan.room, Ok("abc".to_string()));
}

#[test]
fn loops_keep_their_pace() {
    let mut pacer = Pacer::new(1_000);
    assert_eq!(pacer.advance(100, 1_030), 70);
    assert_eq!(pacer.due, 1_100);
    // Late by two frames: no burst.
    assert_eq!(pacer.advance(100, 1_350), 0);
    assert_eq!(pacer.due, 1_350);
    assert_eq!(pacer.advance(100, 1_360), 90);
}

#[test]
fn capture_takes_turns() {
    let plan = plan(4, 4, 4096, 25).unwrap();
    let mut capture = CaptureLoop::new(&plan, 0);
    assert_eq!(capture.begin(true), CaptureNext::Finish);
    assert_eq!(capture.begin(false), CaptureNext::Grab);
    assert_eq!(capture.grabbed(false), CaptureNext::RetryAfter(100));
    assert_eq!(capture.grabbed(true), CaptureNext::Compose);
    assert_eq!(capture.sent(true, 10_000_000), CaptureNext::Sleep(30_000_000));
    assert_eq!(capture.sent(false, 50_000_000), CaptureNext::Finish);
}

#[test]
fn retries_back_off() {
    let mut worker = PublisherWorker::new();
    let mut rests = Vec::new();
    for _ in 0..7 {
        assert_eq!(worker.begin(false), Next::Connect);
        match worker.connect_failed() {
            Next::Rest(ms) => rests.push(ms),
            other => panic!("{:?}", other),
        }
    }
    assert_eq!(rests, vec![500, 1000, 2000, 4000, 8000, 8000, 8000]);
    assert_eq!(worker.begin(false), Next::Connect);
    let (event, next) = worker.connected();
    assert!(matches!(event, PipelineEvent::PublisherConnected { attempt: 8 }));
    assert_eq!(next, Next::Stream);
    let (events, next) = worker.pump_ended(PumpEnded::WsClosed);
    assert_eq!(next, Next::Rest(500));
    assert_eq!(events.len(), 1);
    assert_eq!(events[0].summary(), "PublisherDisconnected(retry=true, WsClosed)");
    assert_eq!(worker.begin(true), Next::Finish);
    assert_eq!(worker.samples_ended(), Next::Finish);
}

#[test]
fn rejections_are_final() {
    let mut worker = PublisherWorker::new();
    worker.begin(false);
    worker.connected();
    let (events, next) = worker.pump_ended(PumpEnded::RelayError("no room".to_string()));
    assert_eq!(next, Next::Finish);
    let lines: Vec<String> = events.iter().map(|e| e.summary()).collect();
    assert_eq!(lines, vec!["PublisherDisconnected(retry=false, no room)", "Error(no room)"]);
    let (events, _) = worker.pump_ended(PumpEnded::OutboundClosed);
    assert_eq!(events[0].summary(), "PublisherDisconnected(retry=true, OutboundClosed)");
}

#[test]
fn sent_units_are_reported_now_and_then() {
    let mut worker = PublisherWorker::new();
    worker.begin(false);
    worker.connected();
    let mut reports = Vec::new();
    for _ in 0..450 {
        if let Some(event) = worker.sample_sent() {
            reports.push(event.summary());
        }
    }
    assert_eq!(reports, vec!["Publishing(150)", "Publishing(300)", "Publishing(450)"]);
    worker.connected();
    assert_eq!(worker.aus_sent, 0);
}

#[test]
fn events_in_a_line() {
    let source = source_info(SourceKind::Spout, "n".to_string(), 1, 2, "g".to_string());
    let event = started("abc", "http://h/", source);
    assert_eq!(event.summary(), "Started(room=abc)");
    assert!(!event.is_last());
    match event {
        PipelineEvent::Started { receiver_url, .. } => assert_eq!(receiver_url, "http://h/r?room=abc"),
        other => panic!("{:?}", other),
    }
    assert_eq!(PipelineEvent::PublisherConnected { attempt: 3 }.summary(), "PublisherConnected(3)");
    assert_eq!(PipelineEvent::Stopped.summary(), "Stopped");
    assert!(PipelineEvent::Stopped.is_last());
}

#[test]
fn one_pipeline_at_a_time() {
    assert!(may_start(None));
    assert!(may_start(Some(true)));
    assert!(!may_start(Some(false)));
}

#[test]
fn tallies() {
    let mut tally = Tally::new();
    tally.count(true);
    tally.count(false);
    tally.count(true);
    assert_eq!((tally.produced, tally.dropped), (3, 1));
}

#[test]
fn texts_are_taken_apart() {
    let decimal_string = |n: u64| {
        let mut s = String::new();
        push_decimal(&mut s, n);
        s
    };
    assert_eq!(decimal_string(0), "0");
    assert_eq!(decimal_string(u64::MAX), "18446744073709551615");
    for n in [0u64, 7, 10, 99, 100, 65535, 1 << 40] {
        assert_eq!(parse_unsigned(&decimal_string(n), u64::MAX), Some(n));
    }
    assert_eq!(parse_unsigned("18446744073709551616", u64::MAX), None);
    assert_eq!(parse_unsigned("+", 9), None);
    assert_eq!(parse_unsigned("++1", 9), None);
    assert_eq!(parse_unsigned("0009", 9), Some(9));
    assert_eq!(replace("aaa", "aa", "b"), "ba");
    assert_eq!(replace("x", "y", "z"), "x");
    assert_eq!(trim_end_matches("a//b//", '/'), "a//b");
    assert_eq!(trim_end_matches("///", '/'), "");
    assert_eq!(trim("\u{3000} a b \t\n"), "a b");
    assert_eq!(trim("\u{200b}x"), "\u{200b}x");
    assert!(is_blank(" \u{a0}\r\n"));
    assert!(!is_blank("."));
    assert_eq!(split_on("a,,b", ','), vec!["a", "", "b"]);
    assert_eq!(split_on("", ','), vec![""]);
    assert!(contains("abc", "") && contains("", "") && contains("abc", "bc"));
    assert!(!contains("abc", "abcd") && !contains("abc", "ac"));
}

#[test]
fn white_space_is_that_of_unicode() {
    for c in (0u32..0x11_0000).filter_map(char::from_u32) {
        let s = c.to_string();
        if c.is_whitespace() || c as u32 % 997 == 0 {
            assert_eq!(is_blank(&s), c.is_whitespace());
        }
    }
}
