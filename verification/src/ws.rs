//! Signaling sessions on the relay.
//!
//! A connection starts with a greeting, after which the relay routes session
//! descriptions and ICE candidates between the peers of one room. Publishers
//! and subscribers negotiate directly: the relay touches no media.

use vstd::prelude::*;

use crate::protocol::{ice_views, room_code, Envelope, EnvelopeView, ErrorCode, IceServer, IceServerView,
    Message, MessageView, NewRoomResponse, PeerId, PeerInfo, Role, RoomCode, RoomState, PROTOCOL_VERSION};
use crate::room::{addressees, lists, reaches, Delivery, Members, Peer, RegistryView, RoomRegistry};
use crate::text::{decimal, push_decimal};
use crate::turn::{pair_view, stun, stun_only_ice_servers, turn as turn_server, TurnService};

verus! {

/// How often the relay pings an idle connection, in seconds: proxies in front
/// of it drop connections that stay silent.
pub const KEEPALIVE_SECS: u64 = 30;

/// A frame that came in on a connection. A text frame is empty where its text
/// is not an envelope.
#[derive(Debug)]
pub enum Frame {
    Text(Option<Envelope>),
    Close,
    Other,
    Failed,
}

/// A peer's connection to its room.
#[derive(Debug)]
pub struct Session {
    pub peer_id: PeerId,
    pub role: Role,
    pub room: RoomCode,
}

/// What becomes of a connection after its greeting.
#[derive(Debug)]
pub enum Admission {
    /// It is closed without a word.
    Dropped,
    /// It is told why, and closed.
    Refused(Envelope),
    /// It is welcomed, and the others in the room are told.
    Joined { session: Session, welcome: Envelope, announcements: Vec<Delivery> },
}

/// What a frame of a session asks for.
#[derive(Debug)]
pub enum Step {
    /// Deliver this and go on.
    Forward(Delivery),
    /// Go on.
    Ignore,
    /// The session is over.
    End,
}

/// The text of a version refusal.
pub open spec fn version_mismatch(version: u32) -> Seq<char> {
    "relay speaks v"@ + decimal(PROTOCOL_VERSION as nat) + ", client sent v"@ + decimal(
        version as nat,
    )
}

/// The text of a refusal for want of a room.
pub open spec fn room_not_found(code: Seq<char>) -> Seq<char> {
    "no room with code "@ + code
}

/// An error as it goes out.
pub open spec fn error_message(code: ErrorCode, detail: Seq<char>) -> EnvelopeView {
    EnvelopeView { seq: 0, msg: MessageView::Error { code, detail } }
}

/// The verdict on a greeting.
pub enum Verdict {
    Dropped,
    Refused(EnvelopeView),
    Admitted { role: Role, room: Seq<char> },
}

/// The verdict on a greeting: it must be a `Hello` of this protocol version,
/// and a subscriber's room must exist. A publisher's room need not: it is
/// brought back under its code.
pub open spec fn verdict(registry: RegistryView, greeting: MessageView) -> Verdict {
    match greeting {
        MessageView::Hello { protocol_version, role, room } => if protocol_version
            != PROTOCOL_VERSION {
            Verdict::Refused(
                error_message(ErrorCode::VersionMismatch, version_mismatch(protocol_version)),
            )
        } else if !registry.rooms.contains_key(room) && role == Role::Subscriber {
            Verdict::Refused(error_message(ErrorCode::RoomNotFound, room_not_found(room)))
        } else {
            Verdict::Admitted { role, room }
        },
        _ => Verdict::Dropped,
    }
}

/// The registry after a peer was admitted.
pub open spec fn after_joining(
    registry: RegistryView,
    room: Seq<char>,
    role: Role,
) -> RegistryView {
    registry.minted().with_members(
        room,
        registry.members(room).insert(registry.next_peer_id, role),
    )
}

/// Whether an envelope welcomes a peer: it names the peer's identifier, the
/// room, who was there before and the ICE servers.
pub open spec fn is_welcome(
    envelope: EnvelopeView,
    peer_id: PeerId,
    room: Seq<char>,
    before: Members,
    ice_servers: Seq<IceServerView>,
) -> bool {
    &&& envelope.seq == 0
    &&& envelope.msg matches MessageView::Welcome { peer_id: id, room_state }
    &&& id == peer_id
    &&& room_state.code == room
    &&& lists(before, room_state.peers)
    &&& room_state.ice_servers == ice_servers
}

/// The announcement of a new peer.
pub open spec fn joined_message(peer_id: PeerId, role: Role) -> EnvelopeView {
    EnvelopeView { seq: 0, msg: MessageView::PeerJoined { peer: PeerInfo { peer_id, role } } }
}

/// The announcement that a peer left.
pub open spec fn left_message(peer_id: PeerId) -> EnvelopeView {
    EnvelopeView { seq: 0, msg: MessageView::PeerLeft { peer_id } }
}

/// Whether an admission is the one that a greeting is owed.
pub open spec fn admits(
    before: RegistryView,
    after: RegistryView,
    greeting: MessageView,
    ice_servers: Seq<IceServerView>,
    admission: Admission,
) -> bool {
    match verdict(before, greeting) {
        Verdict::Dropped => admission is Dropped && after == before,
        Verdict::Refused(envelope) => admission matches Admission::Refused(e) && e@ == envelope
            && after == before,
        Verdict::Admitted { role, room } => {
            let id = PeerId(before.next_peer_id);
            let members = before.members(room);
            &&& after == after_joining(before, room, role)
            &&& admission matches Admission::Joined { session, welcome, announcements }
            &&& session.peer_id == id
            &&& session.role == role
            &&& session.room@ == room
            &&& is_welcome(welcome@, id, room, members, ice_servers)
            &&& reaches(members.remove(id.0), joined_message(id, role), announcements@)
        },
    }
}

/// What is forwarded of a message that `from` sends, with the addressee: only
/// session descriptions and candidates that name one, and stamped with `from`.
pub open spec fn forwarded(from: PeerId, msg: MessageView) -> Option<(PeerId, MessageView)> {
    match msg {
        MessageView::Sdp { kind, sdp, from: _, to: Some(to) } => Some(
            (to, MessageView::Sdp { kind, sdp, from: Some(from), to: Some(to) }),
        ),
        MessageView::IceCandidate { candidate, from: _, to: Some(to) } => Some(
            (to, MessageView::IceCandidate { candidate, from: Some(from), to: Some(to) }),
        ),
        _ => None,
    }
}

/// Whether a step is the one that a frame asks for.
pub open spec fn is_step(members: Members, from: PeerId, frame: Frame, step: Step) -> bool {
    match frame {
        Frame::Close | Frame::Failed => step is End,
        Frame::Other | Frame::Text(None) => step is Ignore,
        Frame::Text(Some(envelope)) => match forwarded(from, envelope.msg@) {
            Some((to, msg)) if members.contains_key(to.0) => step matches Step::Forward(delivery)
                && delivery.to == to && delivery.envelope@ == (EnvelopeView {
                seq: envelope.seq,
                msg,
            }),
            _ => step is Ignore,
        },
    }
}

/// The relay decides who a message is from: whatever the sending peer wrote
/// there makes no difference, and every message that is forwarded names the
/// peer that sent it.
pub proof fn law_sender_cannot_be_forged(from: PeerId, msg: MessageView, claimed: Option<PeerId>)
    ensures
        forwarded(from, msg) == forwarded(
            from,
            match msg {
                MessageView::Sdp { kind, sdp, from: _, to } => MessageView::Sdp {
                    kind,
                    sdp,
                    from: claimed,
                    to,
                },
                MessageView::IceCandidate { candidate, from: _, to } => MessageView::IceCandidate {
                    candidate,
                    from: claimed,
                    to,
                },
                other => other,
            },
        ),
        forwarded(from, msg) matches Some((to, out)) ==> match out {
            MessageView::Sdp { from: f, to: t, .. } => f == Some(from) && t == Some(to),
            MessageView::IceCandidate { from: f, to: t, .. } => f == Some(from) && t == Some(to),
            _ => false,
        },
{
}

/// The relay routes session descriptions and candidates to the peer that they name,
/// and leaves what they carry alone. It routes nothing else.
pub proof fn law_contents_are_left_alone(from: PeerId, msg: MessageView)
    ensures
        match msg {
            MessageView::Sdp { kind, sdp, to: Some(to), .. } => forwarded(from, msg) matches Some(
                (addressee, MessageView::Sdp { kind: k, sdp: s, .. }),
            ) && addressee == to && k == kind && s == sdp,
            MessageView::IceCandidate { candidate, to: Some(to), .. } => forwarded(
                from,
                msg,
            ) matches Some((addressee, MessageView::IceCandidate { candidate: c, .. }))
                && addressee == to && c == candidate,
            _ => forwarded(from, msg) is None,
        },
{
}

/// Messages stay in their room: what is forwarded goes to a member of it.
pub proof fn law_messages_stay_in_their_room(
    members: Members,
    from: PeerId,
    frame: Frame,
    delivery: Delivery,
)
    requires
        is_step(members, from, frame, Step::Forward(delivery)),
    ensures
        members.contains_key(delivery.to.0),
{
}

/// Whatever is addressed to a member of the sender's room arrives, an offer as well
/// as an answer or a candidate: it is forwarded to that member, with its kind and
/// text kept and the sender named.
pub proof fn law_addressed_messages_are_forwarded(
    members: Members,
    from: PeerId,
    envelope: Envelope,
    to: PeerId,
    step: Step,
)
    requires
        is_step(members, from, Frame::Text(Some(envelope)), step),
        members.contains_key(to.0),
        match envelope.msg@ {
            MessageView::Sdp { to: t, .. } => t == Some(to),
            MessageView::IceCandidate { to: t, .. } => t == Some(to),
            _ => false,
        },
    ensures
        ({
            &&& step matches Step::Forward(delivery)
            &&& delivery.to == to
            &&& delivery.envelope.seq == envelope.seq
            &&& match envelope.msg@ {
                MessageView::Sdp { kind, sdp, .. } => delivery.envelope.msg@ == (MessageView::Sdp {
                    kind,
                    sdp,
                    from: Some(from),
                    to: Some(to),
                }),
                MessageView::IceCandidate { candidate, .. } => delivery.envelope.msg@ == (
                MessageView::IceCandidate { candidate, from: Some(from), to: Some(to) }),
                _ => false,
            }
        }),
{
}

/// Nothing else is forwarded: neither a message that names no addressee or one that
/// is not in the room, nor one of any other sort. A session ends where its
/// connection does, and only there.
pub proof fn law_other_frames_lead_to_nothing(
    members: Members,
    from: PeerId,
    frame: Frame,
    step: Step,
)
    requires
        is_step(members, from, frame, step),
    ensures
        step is End <==> frame is Close || frame is Failed,
        match frame {
            Frame::Text(Some(envelope)) => match envelope.msg@ {
                MessageView::Sdp { to: Some(to), .. } => step is Forward <==> members.contains_key(
                    to.0,
                ),
                MessageView::IceCandidate { to: Some(to), .. } => step is Forward
                    <==> members.contains_key(to.0),
                _ => step is Ignore,
            },
            _ => !(step is Forward),
        },
{
}

/// A peer that is admitted gets an identifier that nobody has, as long as the
/// identifiers have not run out, and the other rooms stay as they are.
pub proof fn law_joining_disturbs_nobody(registry: RegistryView, room: Seq<char>, role: Role)
    requires
        registry.ids_below_next(),
        registry.next_peer_id < u64::MAX,
    ensures
        after_joining(registry, room, role).ids_below_next(),
        forall|code: Seq<char>|
            registry.rooms.contains_key(code) ==> !(#[trigger] registry.rooms[code]).contains_key(
                registry.next_peer_id,
            ),
        forall|code: Seq<char>|
            code != room && #[trigger] registry.rooms.contains_key(code) ==> after_joining(
                registry,
                room,
                role,
            ).rooms.contains_key(code) && after_joining(registry, room, role).rooms[code]
                == registry.rooms[code],
{
    let after = after_joining(registry, room, role);
    assert forall|code: Seq<char>, id: u64|
        after.rooms.contains_key(code) && #[trigger] after.rooms[code].contains_key(id) implies id
        < after.next_peer_id by {
        if code == room {
            if id != registry.next_peer_id {
                assert(registry.members(room).contains_key(id));
            }
        } else {
            assert(registry.rooms[code].contains_key(id));
        }
    }
}

/// The registry after a peer left: an empty room is collected.
pub open spec fn after_leaving(registry: RegistryView, room: Seq<char>, id: u64) -> RegistryView {
    if registry.rooms.contains_key(room) {
        registry.with_members(room, registry.members(room).remove(id)).collected(room)
    } else {
        registry
    }
}

/// A peer that joins and leaves again leaves no trace but the identifier that
/// it used up: a room that it found stays as it was, one that it brought back
/// is gone again.
pub proof fn law_leaving_undoes_joining(registry: RegistryView, room: Seq<char>, role: Role)
    requires
        registry.ids_below_next(),
        registry.rooms.contains_key(room) ==> registry.rooms[room] != Map::<u64, Role>::empty(),
    ensures
        after_leaving(after_joining(registry, room, role), room, registry.next_peer_id)
            == registry.minted(),
{
    let id = registry.next_peer_id;
    let members = registry.members(room);
    if registry.rooms.contains_key(room) {
        if registry.rooms[room].contains_key(id) {
            assert(id < registry.next_peer_id);
        }
    }
    assert(!members.contains_key(id));
    assert(members.insert(id, role).remove(id) =~= members);
    let joined = after_joining(registry, room, role);
    assert(joined.rooms.insert(room, members) =~= registry.rooms.insert(room, members));
    if registry.rooms.contains_key(room) {
        assert(registry.rooms.insert(room, members) =~= registry.rooms);
    } else {
        assert(registry.rooms.insert(room, members).remove(room) =~= registry.rooms);
    }
}

/// A publisher whose connection dropped finds its room again under its code,
/// also where nobody was left in it.
pub proof fn law_publisher_can_come_back(
    registry: RegistryView,
    room: Seq<char>,
    id: u64,
)
    ensures
        verdict(
            after_leaving(registry, room, id),
            MessageView::Hello {
                protocol_version: PROTOCOL_VERSION,
                role: Role::Publisher,
                room,
            },
        ) == (Verdict::Admitted { role: Role::Publisher, room }),
{
}

/// An error as it goes out.
fn error_envelope(code: ErrorCode, detail: String) -> (res: Envelope)
    ensures
        res@ == error_message(code, detail@),
{
    Envelope { seq: 0, msg: Message::Error { code, detail } }
}

/// The greeting that the first frame of a connection holds, if it holds one.
pub fn greeting_of(frame: Frame) -> (res: Option<Envelope>)
    ensures
        res == match frame {
            Frame::Text(Some(envelope)) => Some(envelope),
            _ => None,
        },
{
    match frame {
        Frame::Text(envelope) => envelope,
        _ => None,
    }
}

/// Whether a greeting would be admitted.
fn would_admit(registry: &RoomRegistry, greeting: &Envelope) -> (res: bool)
    requires
        registry.wf(),
    ensures
        res == (verdict(registry@, greeting@.msg) is Admitted),
{
    match &greeting.msg {
        Message::Hello { protocol_version, role, room } => {
            if *protocol_version != PROTOCOL_VERSION {
                false
            } else if registry.get(room).is_some() {
                true
            } else {
                *role == Role::Publisher
            }
        },
        _ => false,
    }
}

/// Judges a greeting. A peer that is admitted is registered, and its welcome
/// names `ice_servers`.
pub fn greet_with(
    registry: &mut RoomRegistry,
    greeting: Envelope,
    ice_servers: Vec<IceServer>,
) -> (res: Admission)
    requires
        old(registry).wf(),
    ensures
        final(registry).wf(),
        admits(old(registry)@, final(registry)@, greeting@.msg, ice_views(ice_servers@), res),
{
    let (role, room) = match greeting.msg {
        Message::Hello { protocol_version, role, room } => {
            if protocol_version != PROTOCOL_VERSION {
                let mut detail = "relay speaks v".to_string();
                push_decimal(&mut detail, PROTOCOL_VERSION as u64);
                detail.append(", client sent v");
                push_decimal(&mut detail, protocol_version as u64);
                assert(detail@ =~= version_mismatch(protocol_version));
                return Admission::Refused(error_envelope(ErrorCode::VersionMismatch, detail));
            }
            (role, room)
        },
        _ => {
            return Admission::Dropped;
        },
    };
    let found = registry.get(&room).is_some();
    if !found {
        match role {
            Role::Publisher => {
                registry.get_or_resurrect(&room);
            },
            Role::Subscriber => {
                let mut detail = "no room with code ".to_string();
                detail.append(room.as_str());
                return Admission::Refused(error_envelope(ErrorCode::RoomNotFound, detail));
            },
        }
    }
    let ghost members = old(registry)@.members(room@);
    proof {
        if found {
            assert(registry@.rooms.insert(room@, members) =~= registry@.rooms);
        }
    }
    let peer_id = registry.mint_peer_id();
    let peers = match registry.get(&room) {
        Some(r) => r.snapshot(),
        None => Vec::new(),
    };
    let welcome = Envelope {
        seq: 0,
        msg: Message::Welcome {
            peer_id,
            room_state: RoomState { code: room.clone(), peers, ice_servers },
        },
    };
    let peer = Peer { id: peer_id, role };
    let info = peer.info();
    registry.insert_peer(&room, peer);
    let announcement = Envelope { seq: 0, msg: Message::PeerJoined { peer: info } };
    let announcements = match registry.get(&room) {
        Some(r) => r.broadcast_except(peer_id, &announcement),
        None => Vec::new(),
    };
    proof {
        assert(members.insert(peer_id.0, role).remove(peer_id.0) =~= members.remove(peer_id.0));
        assert(registry@.rooms =~= after_joining(old(registry)@, room@, role).rooms);
    }
    Admission::Joined { session: Session { peer_id, role, room }, welcome, announcements }
}

/// The ICE servers that a peer with `credentials` is owed: those of the TURN
/// server where there is one, else STUN.
pub open spec fn owed_servers(
    turn: Option<TurnService>,
    credentials: Option<(Seq<char>, Seq<char>)>,
) -> Seq<IceServerView> {
    match turn {
        Some(service) => service.ice_servers(credentials),
        None => seq![stun()],
    }
}

/// Whether credentials, where there are any, come from the TURN server.
pub open spec fn issued(
    turn: Option<TurnService>,
    credentials: Option<(Seq<char>, Seq<char>)>,
) -> bool {
    match turn {
        Some(service) => service.issues(credentials),
        None => credentials is None,
    }
}

/// Judges a greeting. The welcome of a peer that is admitted names STUN and,
/// with `credentials`, the TURN server where there is one.
pub fn greet_credentialed(
    registry: &mut RoomRegistry,
    greeting: Envelope,
    turn: &Option<TurnService>,
    credentials: Option<(String, String)>,
) -> (res: Admission)
    requires
        old(registry).wf(),
    ensures
        final(registry).wf(),
        admits(
            old(registry)@,
            final(registry)@,
            greeting@.msg,
            owed_servers(*turn, pair_view(credentials)),
            res,
        ),
{
    let ice_servers = match turn {
        Some(service) => service.ice_servers_with(credentials),
        None => stun_only_ice_servers(),
    };
    greet_with(registry, greeting, ice_servers)
}

/// Fresh credentials of the TURN server for a greeting that would be admitted.
fn credentials_for(
    registry: &RoomRegistry,
    greeting: &Envelope,
    turn: &Option<TurnService>,
) -> (res: Option<(String, String)>)
    requires
        registry.wf(),
    ensures
        issued(*turn, pair_view(res)),
{
    match turn {
        Some(service) => if would_admit(registry, greeting) {
            service.fresh_credentials()
        } else {
            None
        },
        None => None,
    }
}

/// Judges a greeting. A peer that is admitted gets fresh credentials of the TURN
/// server where there is one.
pub fn greet(registry: &mut RoomRegistry, greeting: Envelope, turn: &Option<TurnService>) -> (res:
    Admission)
    requires
        old(registry).wf(),
    ensures
        final(registry).wf(),
        exists|credentials: Option<(Seq<char>, Seq<char>)>|
            issued(*turn, credentials) && admits(
                old(registry)@,
                final(registry)@,
                greeting@.msg,
                #[trigger] owed_servers(*turn, credentials),
                res,
            ),
{
    let credentials = credentials_for(registry, &greeting, turn);
    greet_credentialed(registry, greeting, turn, credentials)
}

/// Creates a room and says under which code. None if every code is taken.
pub fn new_room(registry: &mut RoomRegistry) -> (res: Option<NewRoomResponse>)
    requires
        old(registry).wf(),
    ensures
        final(registry).wf(),
        match res {
            Some(response) => (exists|word: u64| response.code@ == #[trigger] room_code(word))
                && !old(registry)@.rooms.contains_key(response.code@) && final(registry)@ == old(
                registry,
            )@.with_members(response.code@, Map::empty()),
            None => final(registry)@ == old(registry)@ && forall|word: u64|
                old(registry)@.rooms.contains_key(#[trigger] room_code(word)),
        },
{
    match registry.create_room() {
        Some(code) => Some(NewRoomResponse { code: code.as_str().to_string() }),
        None => None,
    }
}

/// A delivery to a peer of the room. None if the peer is not in it.
fn forward_to(registry: &RoomRegistry, room: &RoomCode, to: PeerId, seq: u64, msg: Message) -> (res:
    Option<Delivery>)
    requires
        registry.wf(),
    ensures
        match res {
            Some(delivery) => registry@.members(room@).contains_key(to.0) && delivery.to == to
                && delivery.envelope@ == (EnvelopeView { seq, msg: msg@ }),
            None => !registry@.members(room@).contains_key(to.0),
        },
{
    match registry.get(room) {
        Some(r) => match r.peer_tx(to) {
            Some(address) => Some(Delivery { to: address, envelope: Envelope { seq, msg } }),
            None => None,
        },
        None => None,
    }
}

/// What a frame of a session asks for.
pub fn on_frame(registry: &RoomRegistry, session: &Session, frame: Frame) -> (res: Step)
    requires
        registry.wf(),
    ensures
        is_step(registry@.members(session.room@), session.peer_id, frame, res),
{
    let envelope = match frame {
        Frame::Text(Some(envelope)) => envelope,
        Frame::Text(None) => {
            return Step::Ignore;
        },
        Frame::Other => {
            return Step::Ignore;
        },
        Frame::Close => {
            return Step::End;
        },
        Frame::Failed => {
            return Step::End;
        },
    };
    let from = Some(session.peer_id);
    let (to, msg) = match envelope.msg {
        Message::Sdp { kind, sdp, from: _, to } => match to {
            Some(to) => (to, Message::Sdp { kind, sdp, from, to: Some(to) }),
            None => {
                return Step::Ignore;
            },
        },
        Message::IceCandidate { candidate, from: _, to } => match to {
            Some(to) => (to, Message::IceCandidate { candidate, from, to: Some(to) }),
            None => {
                return Step::Ignore;
            },
        },
        _ => {
            return Step::Ignore;
        },
    };
    match forward_to(registry, &session.room, to, envelope.seq, msg) {
        Some(delivery) => Step::Forward(delivery),
        None => Step::Ignore,
    }
}

/// Ends a session: the peer is forgotten, the others in the room are told, and
/// an empty room is collected.
pub fn leave(registry: &mut RoomRegistry, session: &Session) -> (res: Vec<Delivery>)
    requires
        old(registry).wf(),
    ensures
        final(registry).wf(),
        final(registry)@ == after_leaving(old(registry)@, session.room@, session.peer_id.0),
        reaches(
            old(registry)@.members(session.room@).remove(session.peer_id.0),
            left_message(session.peer_id),
            res@,
        ),
{
    registry.remove_peer(&session.room, session.peer_id);
    let announcement = Envelope { seq: 0, msg: Message::PeerLeft { peer_id: session.peer_id } };
    let announcements = match registry.get(&session.room) {
        Some(r) => r.broadcast_except(session.peer_id, &announcement),
        None => Vec::new(),
    };
    proof {
        let members = old(registry)@.members(session.room@);
        let id = session.peer_id.0;
        assert(members.remove(id).remove(id) =~= members.remove(id));
    }
    registry.gc_if_empty(&session.room);
    announcements
}

/// How far a connection has come.
#[derive(Debug)]
pub enum Connection {
    /// Its greeting is awaited.
    Waiting,
    /// Its peer is in a room.
    Joined(Session),
    /// It is over.
    Over,
}

/// What a frame leads to: what its own peer is sent, and what others are.
#[derive(Debug)]
pub struct Outcome {
    pub reply: Option<Envelope>,
    pub deliveries: Vec<Delivery>,
}

/// Whether a frame that a peer in a room sent leads to these deliveries.
pub open spec fn is_forwarding(
    members: Members,
    from: PeerId,
    frame: Frame,
    deliveries: Seq<Delivery>,
) -> bool {
    match frame {
        Frame::Text(Some(envelope)) => match forwarded(from, envelope.msg@) {
            Some((to, msg)) if members.contains_key(to.0) => deliveries.len() == 1
                && deliveries[0].to == to && deliveries[0].envelope@ == (EnvelopeView {
                seq: envelope.seq,
                msg,
            }),
            _ => deliveries.len() == 0,
        },
        _ => deliveries.len() == 0,
    }
}

/// Whether a connection opens as its greeting is owed.
pub open spec fn is_opening(
    turn: Option<TurnService>,
    credentials: Option<(Seq<char>, Seq<char>)>,
    before: RegistryView,
    after: RegistryView,
    greeting: MessageView,
    next: Connection,
    outcome: Outcome,
) -> bool {
    match verdict(before, greeting) {
        Verdict::Dropped => {
            &&& next is Over
            &&& after == before
            &&& outcome.reply is None
            &&& outcome.deliveries@.len() == 0
        },
        Verdict::Refused(envelope) => {
            &&& next is Over
            &&& after == before
            &&& outcome.reply matches Some(e)
            &&& e@ == envelope
            &&& outcome.deliveries@.len() == 0
        },
        Verdict::Admitted { role, room } => {
            let id = PeerId(before.next_peer_id);
            let members = before.members(room);
            &&& next matches Connection::Joined(session)
            &&& session.peer_id == id
            &&& session.role == role
            &&& session.room@ == room
            &&& after == after_joining(before, room, role)
            &&& outcome.reply matches Some(welcome)
            &&& is_welcome(welcome@, id, room, members, owed_servers(turn, credentials))
            &&& reaches(members.remove(id.0), joined_message(id, role), outcome.deliveries@)
        },
    }
}

/// Whether a connection goes on as a frame asks for. The first frame must be a
/// greeting. A peer leaves its room when its connection closes or fails.
pub open spec fn is_transition(
    turn: Option<TurnService>,
    credentials: Option<(Seq<char>, Seq<char>)>,
    before: RegistryView,
    after: RegistryView,
    connection: Connection,
    frame: Frame,
    next: Connection,
    outcome: Outcome,
) -> bool {
    match connection {
        Connection::Waiting => match frame {
            Frame::Text(Some(greeting)) => is_opening(
                turn,
                credentials,
                before,
                after,
                greeting.msg@,
                next,
                outcome,
            ),
            _ => next is Over && after == before && outcome.reply is None
                && outcome.deliveries@.len() == 0,
        },
        Connection::Joined(session) => {
            let members = before.members(session.room@);
            &&& outcome.reply is None
            &&& if frame is Close || frame is Failed {
                &&& next is Over
                &&& after == after_leaving(before, session.room@, session.peer_id.0)
                &&& reaches(
                    members.remove(session.peer_id.0),
                    left_message(session.peer_id),
                    outcome.deliveries@,
                )
            } else {
                &&& next == connection
                &&& after == before
                &&& is_forwarding(members, session.peer_id, frame, outcome.deliveries@)
            }
        },
        Connection::Over => next is Over && after == before && outcome.reply is None
            && outcome.deliveries@.len() == 0,
    }
}

impl Connection {
    /// What a frame leads to, where a peer that is admitted gets `credentials`. The
    /// end of a connection counts as a frame that closes it.
    pub fn on_frame_credentialed(
        self,
        registry: &mut RoomRegistry,
        frame: Frame,
        turn: &Option<TurnService>,
        credentials: Option<(String, String)>,
    ) -> (res: (Connection, Outcome))
        requires
            old(registry).wf(),
        ensures
            final(registry).wf(),
            is_transition(
                *turn,
                pair_view(credentials),
                old(registry)@,
                final(registry)@,
                self,
                frame,
                res.0,
                res.1,
            ),
    {
        match self {
            Connection::Waiting => match greeting_of(frame) {
                Some(greeting) => match greet_credentialed(registry, greeting, turn, credentials) {
                    Admission::Dropped => (
                        Connection::Over,
                        Outcome { reply: None, deliveries: Vec::new() },
                    ),
                    Admission::Refused(envelope) => (
                        Connection::Over,
                        Outcome { reply: Some(envelope), deliveries: Vec::new() },
                    ),
                    Admission::Joined { session, welcome, announcements } => (
                        Connection::Joined(session),
                        Outcome { reply: Some(welcome), deliveries: announcements },
                    ),
                },
                None => (Connection::Over, Outcome { reply: None, deliveries: Vec::new() }),
            },
            Connection::Joined(session) => match on_frame(registry, &session, frame) {
                Step::Forward(delivery) => {
                    let deliveries = vec![delivery];
                    (Connection::Joined(session), Outcome { reply: None, deliveries })
                },
                Step::Ignore => (
                    Connection::Joined(session),
                    Outcome { reply: None, deliveries: Vec::new() },
                ),
                Step::End => {
                    let deliveries = leave(registry, &session);
                    (Connection::Over, Outcome { reply: None, deliveries })
                },
            },
            Connection::Over => (Connection::Over, Outcome { reply: None, deliveries: Vec::new() }),
        }
    }

    /// What a frame leads to. A peer that is admitted gets fresh credentials of the
    /// TURN server where there is one.
    pub fn on_frame(
        self,
        registry: &mut RoomRegistry,
        frame: Frame,
        turn: &Option<TurnService>,
    ) -> (res: (Connection, Outcome))
        requires
            old(registry).wf(),
        ensures
            final(registry).wf(),
            exists|credentials: Option<(Seq<char>, Seq<char>)>|
                issued(*turn, credentials) && #[trigger] is_transition(
                    *turn,
                    credentials,
                    old(registry)@,
                    final(registry)@,
                    self,
                    frame,
                    res.0,
                    res.1,
                ),
    {
        let credentials = match &self {
            Connection::Waiting => match &frame {
                Frame::Text(Some(greeting)) => credentials_for(registry, greeting, turn),
                _ => None,
            },
            _ => None,
        };
        self.on_frame_credentialed(registry, frame, turn, credentials)
    }
}

/// A peer that is admitted is told of STUN, and of the TURN server where there is
/// one and credentials for it.
pub proof fn law_welcome_names_the_servers(
    turn: Option<TurnService>,
    credentials: Option<(Seq<char>, Seq<char>)>,
    before: RegistryView,
    after: RegistryView,
    greeting: Envelope,
    next: Connection,
    outcome: Outcome,
)
    requires
        is_transition(
            turn,
            credentials,
            before,
            after,
            Connection::Waiting,
            Frame::Text(Some(greeting)),
            next,
            outcome,
        ),
        verdict(before, greeting.msg@) is Admitted,
    ensures
        ({
            &&& outcome.reply matches Some(welcome)
            &&& welcome@.msg matches MessageView::Welcome { room_state, .. }
            &&& room_state.ice_servers == match (turn, credentials) {
                (Some(service), Some((username, password))) => seq![
                    stun(),
                    turn_server(service@.advertised_addr, service@.port, username, password),
                ],
                _ => seq![stun()],
            }
        }),
{
}

/// What a joined peer addresses to a member of its room is all that is delivered, to
/// that member and once, with its kind and text kept and the sender named. The sender
/// stays in its room, and nobody's place changes.
pub proof fn law_addressed_messages_arrive(
    turn: Option<TurnService>,
    credentials: Option<(Seq<char>, Seq<char>)>,
    before: RegistryView,
    after: RegistryView,
    session: Session,
    envelope: Envelope,
    to: PeerId,
    next: Connection,
    outcome: Outcome,
)
    requires
        is_transition(
            turn,
            credentials,
            before,
            after,
            Connection::Joined(session),
            Frame::Text(Some(envelope)),
            next,
            outcome,
        ),
        before.rooms.contains_key(session.room@),
        before.rooms[session.room@].contains_key(to.0),
        match envelope.msg@ {
            MessageView::Sdp { to: t, .. } => t == Some(to),
            MessageView::IceCandidate { to: t, .. } => t == Some(to),
            _ => false,
        },
    ensures
        next == Connection::Joined(session),
        after == before,
        outcome.reply is None,
        outcome.deliveries@.len() == 1,
        outcome.deliveries@[0].to == to,
        outcome.deliveries@[0].envelope.seq == envelope.seq,
        outcome.deliveries@[0].envelope.msg@ == match envelope.msg@ {
            MessageView::Sdp { kind, sdp, .. } => MessageView::Sdp {
                kind,
                sdp,
                from: Some(session.peer_id),
                to: Some(to),
            },
            MessageView::IceCandidate { candidate, .. } => MessageView::IceCandidate {
                candidate,
                from: Some(session.peer_id),
                to: Some(to),
            },
            other => other,
        },
{
}

/// Nothing else of what a joined peer sends reaches anybody, and the sender hears
/// nothing of it.
pub proof fn law_nothing_else_is_delivered(
    turn: Option<TurnService>,
    credentials: Option<(Seq<char>, Seq<char>)>,
    before: RegistryView,
    after: RegistryView,
    session: Session,
    frame: Frame,
    next: Connection,
    outcome: Outcome,
)
    requires
        is_transition(
            turn,
            credentials,
            before,
            after,
            Connection::Joined(session),
            frame,
            next,
            outcome,
        ),
        !(frame is Close),
        !(frame is Failed),
        frame matches Frame::Text(Some(envelope)) ==> match envelope.msg@ {
            MessageView::Sdp { to: Some(to), .. } => !before.rooms.contains_key(session.room@)
                || !before.rooms[session.room@].contains_key(to.0),
            MessageView::IceCandidate { to: Some(to), .. } => !before.rooms.contains_key(
                session.room@,
            ) || !before.rooms[session.room@].contains_key(to.0),
            _ => true,
        },
    ensures
        next == Connection::Joined(session),
        after == before,
        outcome.reply is None,
        outcome.deliveries@.len() == 0,
{
}

/// A greeting of this version by a publisher, or by a subscriber whose room exists,
/// is answered by a welcome: it names the new peer's identifier and the room, and
/// lists each peer that was there before once with its role, and nobody else. Each of
/// those is told once who joined, and nobody else is told anything. The peer is then
/// in the room with its role; everybody else is where they were.
pub proof fn law_joining(
    turn: Option<TurnService>,
    credentials: Option<(Seq<char>, Seq<char>)>,
    before: RegistryView,
    after: RegistryView,
    greeting: Envelope,
    role: Role,
    room: Seq<char>,
    next: Connection,
    outcome: Outcome,
)
    requires
        is_transition(
            turn,
            credentials,
            before,
            after,
            Connection::Waiting,
            Frame::Text(Some(greeting)),
            next,
            outcome,
        ),
        greeting.msg@ == (MessageView::Hello { protocol_version: 2, role, room }),
        role == Role::Publisher || before.rooms.contains_key(room),
        before.ids_below_next(),
        before.next_peer_id < u64::MAX,
    ensures
        ({
            let id = before.next_peer_id;
            let was_there = |p: u64|
                before.rooms.contains_key(room) && before.rooms[room].contains_key(p);
            &&& next matches Connection::Joined(session)
            &&& session.peer_id == PeerId(id) && session.role == role && session.room@ == room
            &&& outcome.reply matches Some(reply)
            &&& reply@.msg matches MessageView::Welcome { peer_id, room_state }
            &&& peer_id == PeerId(id)
            &&& room_state.code == room
            &&& forall|i: int, j: int|
                0 <= i < j < room_state.peers.len() ==> (#[trigger] room_state.peers[i]).peer_id
                    != (#[trigger] room_state.peers[j]).peer_id
            &&& forall|p: u64, r: Role|
                #[trigger] room_state.peers.contains(PeerInfo { peer_id: PeerId(p), role: r }) <==> (
                was_there(p) && before.rooms[room][p] == r)
            &&& after.rooms.dom() == before.rooms.dom().insert(room)
            &&& after.rooms[room].dom() == before.members(room).dom().insert(id)
            &&& after.rooms[room][id] == role
            &&& forall|p: u64| #[trigger]
                was_there(p) ==> after.rooms[room].contains_key(p) && after.rooms[room][p]
                    == before.rooms[room][p]
            &&& forall|code: Seq<char>|
                code != room && #[trigger] before.rooms.contains_key(code) ==> after.rooms[code]
                    == before.rooms[code]
            &&& after.next_peer_id == id + 1
            &&& told_once(was_there, outcome.deliveries@)
            &&& forall|i: int|
                0 <= i < outcome.deliveries@.len() ==> (
                #[trigger] outcome.deliveries@[i]).envelope.msg@ == (MessageView::PeerJoined {
                    peer: PeerInfo { peer_id: PeerId(id), role },
                })
        }),
{
    let id = before.next_peer_id;
    let members = before.members(room);
    let deliveries = outcome.deliveries@;
    let was_there = |p: u64| before.rooms.contains_key(room) && before.rooms[room].contains_key(p);
    if before.rooms.contains_key(room) {
        assert(!before.rooms[room].contains_key(id)) by {
            if before.rooms[room].contains_key(id) {
                assert(id < before.next_peer_id);
            }
        }
    }
    assert(members.remove(id) =~= members);
    lemma_told_once(was_there, members, joined_message(PeerId(id), role), deliveries);
    if let Some(reply) = outcome.reply {
        if let MessageView::Welcome { peer_id, room_state } = reply@.msg {
            let peers = room_state.peers;
            assert forall|i: int, j: int| 0 <= i < j < peers.len() implies (
            #[trigger] peers[i]).peer_id != (#[trigger] peers[j]).peer_id by {
                assert(peers.contains(peers[i]));
                assert(peers.contains(peers[j]));
            }
        }
    }
    assert(after.rooms.dom() =~= before.rooms.dom().insert(room));
    assert(after.rooms[room].dom() =~= members.dom().insert(id));
}

/// Whether each of some peers gets one delivery and nobody else gets any.
pub open spec fn told_once(peers: spec_fn(u64) -> bool, deliveries: Seq<Delivery>) -> bool {
    &&& forall|p: u64| #[trigger]
        peers(p) ==> exists|i: int| 0 <= i < deliveries.len() && (#[trigger] deliveries[i]).to.0 == p
    &&& forall|i: int| 0 <= i < deliveries.len() ==> peers((#[trigger] deliveries[i]).to.0)
    &&& forall|i: int, j: int|
        0 <= i < j < deliveries.len() ==> (#[trigger] deliveries[i]).to != (
        #[trigger] deliveries[j]).to
}

/// Reaching members is telling each of them once.
proof fn lemma_told_once(
    peers: spec_fn(u64) -> bool,
    members: Members,
    envelope: EnvelopeView,
    deliveries: Seq<Delivery>,
)
    requires
        reaches(members, envelope, deliveries),
        forall|p: u64| #[trigger] peers(p) <==> members.contains_key(p),
    ensures
        told_once(peers, deliveries),
{
    let to = addressees(deliveries);
    assert forall|p: u64| #[trigger] peers(p) implies exists|i: int|
        0 <= i < deliveries.len() && (#[trigger] deliveries[i]).to.0 == p by {
        assert(to.contains(p));
        let i = choose|i: int| 0 <= i < to.len() && to[i] == p;
        assert(deliveries[i].to.0 == p);
    }
    assert forall|i: int| 0 <= i < deliveries.len() implies peers(
        (#[trigger] deliveries[i]).to.0,
    ) by {
        assert(to[i] == deliveries[i].to.0);
        assert(to.contains(deliveries[i].to.0));
    }
    assert forall|i: int, j: int| 0 <= i < j < deliveries.len() implies (
    #[trigger] deliveries[i]).to != (#[trigger] deliveries[j]).to by {
        assert(to[i] != to[j]);
    }
}

/// A peer whose connection closes or fails is in its room no longer. Each of those
/// that stay is told once, and nobody else is told anything. The room is gone where
/// nobody stays; all other rooms, and who stays in this one, are as they were.
pub proof fn law_leaving(
    turn: Option<TurnService>,
    credentials: Option<(Seq<char>, Seq<char>)>,
    before: RegistryView,
    after: RegistryView,
    session: Session,
    frame: Frame,
    next: Connection,
    outcome: Outcome,
)
    requires
        is_transition(
            turn,
            credentials,
            before,
            after,
            Connection::Joined(session),
            frame,
            next,
            outcome,
        ),
        frame is Close || frame is Failed,
        before.rooms.contains_key(session.room@),
    ensures
        ({
            let room = session.room@;
            let stays = |p: u64| p != session.peer_id.0 && before.rooms[room].contains_key(p);
            &&& next is Over
            &&& outcome.reply is None
            &&& after.next_peer_id == before.next_peer_id
            &&& after.rooms.contains_key(room) <==> exists|p: u64| #[trigger] stays(p)
            &&& after.rooms.contains_key(room) ==> forall|p: u64| #[trigger]
                after.rooms[room].contains_key(p) <==> stays(p)
            &&& forall|p: u64| #[trigger]
                stays(p) ==> after.rooms[room].contains_key(p) && after.rooms[room][p]
                    == before.rooms[room][p]
            &&& forall|code: Seq<char>|
                code != room ==> (#[trigger] after.rooms.contains_key(code)
                    <==> before.rooms.contains_key(code)) && (before.rooms.contains_key(code)
                    ==> after.rooms[code] == before.rooms[code])
            &&& told_once(stays, outcome.deliveries@)
            &&& forall|i: int|
                0 <= i < outcome.deliveries@.len() ==> (
                #[trigger] outcome.deliveries@[i]).envelope.msg@ == (MessageView::PeerLeft {
                    peer_id: session.peer_id,
                })
        }),
{
    let room = session.room@;
    let id = session.peer_id.0;
    let rest = before.rooms[room].remove(id);
    let stays = |p: u64| p != id && before.rooms[room].contains_key(p);
    assert forall|p: u64| #[trigger] stays(p) <==> rest.contains_key(p) by {}
    lemma_told_once(stays, rest, left_message(session.peer_id), outcome.deliveries@);
    if exists|p: u64| #[trigger] stays(p) {
        let p = choose|p: u64| #[trigger] stays(p);
        assert(rest.contains_key(p));
        assert(rest != Map::<u64, Role>::empty());
    } else {
        assert forall|p: u64| !rest.contains_key(p) by {
            assert(!stays(p));
        }
        assert(rest =~= Map::<u64, Role>::empty());
    }
}

/// A first frame that is no greeting ends the connection without a word, and so does
/// anything after its end; nobody hears of it and no room changes.
pub proof fn law_strangers_are_dropped(
    turn: Option<TurnService>,
    credentials: Option<(Seq<char>, Seq<char>)>,
    before: RegistryView,
    after: RegistryView,
    connection: Connection,
    frame: Frame,
    next: Connection,
    outcome: Outcome,
)
    requires
        is_transition(turn, credentials, before, after, connection, frame, next, outcome),
        connection is Over || (connection is Waiting && !(frame matches Frame::Text(Some(e))
            && e.msg@ is Hello)),
    ensures
        next is Over,
        after == before,
        outcome.reply is None,
        outcome.deliveries@.len() == 0,
{
}

/// A client of another protocol version, and a subscriber that asks for a room that
/// does not exist, are told so. Their connections are over, nobody else hears of
/// them, and the rooms stay as they are. Every other greeting is admitted.
pub proof fn law_refusals_are_told_why(
    turn: Option<TurnService>,
    credentials: Option<(Seq<char>, Seq<char>)>,
    before: RegistryView,
    after: RegistryView,
    greeting: Envelope,
    next: Connection,
    outcome: Outcome,
    version: u32,
    role: Role,
    room: Seq<char>,
)
    requires
        is_transition(
            turn,
            credentials,
            before,
            after,
            Connection::Waiting,
            Frame::Text(Some(greeting)),
            next,
            outcome,
        ),
        greeting.msg@ == (MessageView::Hello { protocol_version: version, role, room }),
    ensures
        ({
            let stranger = role == Role::Subscriber && !before.rooms.contains_key(room);
            if version != PROTOCOL_VERSION || stranger {
                &&& next is Over
                &&& after == before
                &&& outcome.deliveries@.len() == 0
                &&& outcome.reply matches Some(e)
                &&& e@.msg == if version != PROTOCOL_VERSION {
                    MessageView::Error {
                        code: ErrorCode::VersionMismatch,
                        detail: version_mismatch(version),
                    }
                } else {
                    MessageView::Error {
                        code: ErrorCode::RoomNotFound,
                        detail: room_not_found(room),
                    }
                }
            } else {
                &&& next matches Connection::Joined(session)
                &&& session.room@ == room
                &&& outcome.reply matches Some(e)
                &&& e@.msg is Welcome
            }
        }),
{
}

/// Whether the peer of a connection that has joined is in its room, with its role.
pub open spec fn holds_place(registry: RegistryView, connection: Connection) -> bool {
    connection matches Connection::Joined(session) ==> registry.members(
        session.room@,
    ).contains_pair(session.peer_id.0, session.role)
}

/// Whether two connections do not belong to one peer.
pub open spec fn of_two_peers(a: Connection, b: Connection) -> bool {
    match (a, b) {
        (Connection::Joined(s), Connection::Joined(t)) => s.peer_id != t.peer_id,
        _ => true,
    }
}

/// Whatever a connection does, its own peer is in its room exactly as long as it has
/// joined and is not over, and the peers of the other connections stay where they
/// are, as long as the identifiers have not run out.
pub proof fn law_connections_keep_their_places(
    turn: Option<TurnService>,
    credentials: Option<(Seq<char>, Seq<char>)>,
    before: RegistryView,
    after: RegistryView,
    connection: Connection,
    frame: Frame,
    next: Connection,
    outcome: Outcome,
    other: Connection,
)
    requires
        is_transition(turn, credentials, before, after, connection, frame, next, outcome),
        before.ids_below_next(),
        before.next_peer_id < u64::MAX,
        holds_place(before, connection),
        holds_place(before, other),
        of_two_peers(connection, other),
    ensures
        after.ids_below_next(),
        holds_place(after, next),
        holds_place(after, other),
        of_two_peers(next, other),
        connection matches Connection::Joined(session) ==> next is Over ==> !after.members(
            session.room@,
        ).contains_key(session.peer_id.0),
{
    match connection {
        Connection::Waiting => {
            if let Frame::Text(Some(greeting)) = frame {
                if let Verdict::Admitted { role, room } = verdict(before, greeting.msg@) {
                    law_joining_disturbs_nobody(before, room, role);
                    if let Connection::Joined(theirs) = other {
                        assert(before.rooms.contains_key(theirs.room@));
                        assert(before.rooms[theirs.room@].contains_key(theirs.peer_id.0));
                    }
                }
            }
        },
        Connection::Joined(session) => {
            if frame is Close || frame is Failed {
                let (room, id) = (session.room@, session.peer_id.0);
                let rest = before.members(room).remove(id);
                assert forall|code: Seq<char>, i: u64|
                    after.rooms.contains_key(code) && #[trigger] after.rooms[code].contains_key(
                        i,
                    ) implies i < after.next_peer_id by {
                    if code == room {
                        assert(before.rooms[room].contains_key(i));
                    } else {
                        assert(before.rooms[code].contains_key(i));
                    }
                }
                if let Connection::Joined(theirs) = other {
                    if theirs.room@ == room {
                        assert(rest.contains_key(theirs.peer_id.0));
                        assert(rest != Map::<u64, Role>::empty());
                    }
                }
            }
        },
        Connection::Over => {},
    }
}

/// What an admission says, for every greeting: one of this version by a publisher, or by a
/// subscriber whose room exists, is admitted with the next identifier, its own role and room,
/// and the ICE servers that were meant for it; one of another version or for a room that does
/// not exist is refused by the error that says so, and anything else is dropped. Only an
/// admission changes the rooms.
pub proof fn law_admissions(
    before: RegistryView,
    after: RegistryView,
    greeting: MessageView,
    ice_servers: Seq<IceServerView>,
    admission: Admission,
)
    requires
        admits(before, after, greeting, ice_servers, admission),
    ensures
        match greeting {
            MessageView::Hello { protocol_version, role, room } => if protocol_version != 2 {
                &&& admission matches Admission::Refused(e)
                &&& e@.msg matches MessageView::Error { code, .. }
                &&& code == ErrorCode::VersionMismatch
                &&& after == before
            } else if role == Role::Subscriber && !before.rooms.contains_key(room) {
                &&& admission matches Admission::Refused(e)
                &&& e@.msg matches MessageView::Error { code, .. }
                &&& code == ErrorCode::RoomNotFound
                &&& after == before
            } else {
                let id = before.next_peer_id;
                &&& admission matches Admission::Joined { session, welcome, announcements }
                &&& session.peer_id.0 == id && session.role == role && session.room@ == room
                &&& welcome@.msg matches MessageView::Welcome { peer_id, room_state }
                &&& peer_id.0 == id && room_state.code == room
                &&& room_state.ice_servers == ice_servers
                &&& after.rooms.contains_key(room) && after.rooms[room].contains_pair(id, role)
                &&& forall|p: u64|
                    p != id && #[trigger] before.members(room).contains_key(p) ==> exists|i: int|
                        0 <= i < announcements@.len() && (#[trigger] announcements@[i]).to.0 == p
                &&& forall|i: int|
                    0 <= i < announcements@.len() ==> (
                    #[trigger] announcements@[i]).envelope.msg@ == (MessageView::PeerJoined {
                        peer: PeerInfo { peer_id: PeerId(id), role },
                    }) && announcements@[i].to.0 != id && before.members(room).contains_key(
                        announcements@[i].to.0,
                    )
            },
            _ => admission is Dropped && after == before,
        },
{
    if let Admission::Joined { session, welcome, announcements } = admission {
        if let MessageView::Hello { protocol_version, role, room } = greeting {
            let others = before.members(room).remove(before.next_peer_id);
            let joined = joined_message(PeerId(before.next_peer_id), role);
            crate::room::law_reaching(others, joined, announcements@);
            assert forall|p: u64|
                p != before.next_peer_id && #[trigger] before.members(room).contains_key(
                    p,
                ) implies exists|i: int|
                0 <= i < announcements@.len() && (#[trigger] announcements@[i]).to.0 == p by {
                assert(others.contains_key(p));
            }
        }
    }
}

/// A refusal says both versions, or the code that there is no room for.
pub proof fn law_refusal_texts(version: u32, code: Seq<char>)
    ensures
        version_mismatch(version) == "relay speaks v"@ + decimal(2) + ", client sent v"@ + decimal(
            version as nat,
        ),
        room_not_found(code) == "no room with code "@ + code,
        error_message(ErrorCode::RoomNotFound, code).msg == (MessageView::Error {
            code: ErrorCode::RoomNotFound,
            detail: code,
        }),
{
}

/// A connection that has joined hands each message that is addressed to a member of its room
/// to that member, with its kind and text kept and the sender named, and delivers nothing
/// else.
pub proof fn law_connection_delivers(
    session: Session,
    registry: &mut RoomRegistry,
    envelope: Envelope,
    turn: Option<TurnService>,
    to: PeerId,
    res: (Connection, Outcome),
)
    requires
        call_ensures(
            Connection::on_frame,
            (Connection::Joined(session), registry, Frame::Text(Some(envelope)), &turn),
            res,
        ),
        registry@.rooms.contains_key(session.room@),
        registry@.rooms[session.room@].contains_key(to.0),
        match envelope.msg@ {
            MessageView::Sdp { to: t, .. } => t == Some(to),
            MessageView::IceCandidate { to: t, .. } => t == Some(to),
            _ => false,
        },
    ensures
        res.0 == Connection::Joined(session),
        final(registry)@ == old(registry)@,
        res.1.reply is None,
        res.1.deliveries@.len() == 1,
        res.1.deliveries@[0].to == to,
        res.1.deliveries@[0].envelope.msg@ == match envelope.msg@ {
            MessageView::Sdp { kind, sdp, .. } => MessageView::Sdp {
                kind,
                sdp,
                from: Some(session.peer_id),
                to: Some(to),
            },
            MessageView::IceCandidate { candidate, .. } => MessageView::IceCandidate {
                candidate,
                from: Some(session.peer_id),
                to: Some(to),
            },
            other => other,
        },
{
    let frame = Frame::Text(Some(envelope));
    let connection = Connection::Joined(session);
    let before = registry@;
    let after = final(registry)@;
    let credentials = choose|credentials: Option<(Seq<char>, Seq<char>)>|
        issued(turn, credentials) && #[trigger] is_transition(
            turn,
            credentials,
            before,
            after,
            connection,
            frame,
            res.0,
            res.1,
        );
    law_addressed_messages_arrive(
        turn,
        credentials,
        before,
        after,
        session,
        envelope,
        to,
        res.0,
        res.1,
    );
}

/// A connection whose greeting is one of this version, by a publisher or for a room that
/// exists, is admitted: its peer is in the room with its role, is welcomed with the room and
/// the servers that it is owed, and each peer that was there is told once.
pub proof fn law_connection_joins(
    registry: &mut RoomRegistry,
    greeting: Envelope,
    turn: Option<TurnService>,
    credentials: Option<(String, String)>,
    role: Role,
    room: Seq<char>,
    res: (Connection, Outcome),
)
    requires
        call_ensures(
            Connection::on_frame_credentialed,
            (Connection::Waiting, registry, Frame::Text(Some(greeting)), &turn, credentials),
            res,
        ),
        greeting.msg@ == (MessageView::Hello { protocol_version: 2, role, room }),
        role == Role::Publisher || registry@.rooms.contains_key(room),
        registry@.ids_below_next(),
        registry@.next_peer_id < u64::MAX,
    ensures
        ({
            let id = old(registry)@.next_peer_id;
            let was_there = |p: u64|
                old(registry)@.rooms.contains_key(room) && old(
                    registry,
                )@.rooms[room].contains_key(p);
            &&& res.0 matches Connection::Joined(session)
            &&& session.peer_id == PeerId(id) && session.role == role && session.room@ == room
            &&& final(registry)@.rooms[room].contains_pair(id, role)
            &&& res.1.reply matches Some(reply)
            &&& reply@.msg matches MessageView::Welcome { peer_id, room_state }
            &&& peer_id == PeerId(id) && room_state.code == room
            &&& room_state.ice_servers == match (turn, credentials) {
                (Some(service), Some((username, password))) => seq![
                    stun(),
                    turn_server(service@.advertised_addr, service@.port, username@, password@),
                ],
                _ => seq![stun()],
            }
            &&& told_once(was_there, res.1.deliveries@)
            &&& forall|i: int|
                0 <= i < res.1.deliveries@.len() ==> (
                #[trigger] res.1.deliveries@[i]).envelope.msg@ == (MessageView::PeerJoined {
                    peer: PeerInfo { peer_id: PeerId(id), role },
                })
        }),
{
    let pair = pair_view(credentials);
    let (before, after) = (registry@, final(registry)@);
    law_joining(turn, pair, before, after, greeting, role, room, res.0, res.1);
    law_welcome_names_the_servers(turn, pair, before, after, greeting, res.0, res.1);
    let was_there = |p: u64| before.rooms.contains_key(room) && before.rooms[room].contains_key(p);
    assert(told_once(was_there, res.1.deliveries@));
}

/// A connection that closes or fails takes its peer out of the room, tells each of those that
/// stay once, and is over.
pub proof fn law_connection_leaves(
    session: Session,
    registry: &mut RoomRegistry,
    frame: Frame,
    turn: Option<TurnService>,
    res: (Connection, Outcome),
)
    requires
        call_ensures(
            Connection::on_frame,
            (Connection::Joined(session), registry, frame, &turn),
            res,
        ),
        frame is Close || frame is Failed,
        registry@.rooms.contains_key(session.room@),
    ensures
        ({
            let room = session.room@;
            let stays = |p: u64|
                p != session.peer_id.0 && old(registry)@.rooms[room].contains_key(p);
            &&& res.0 is Over
            &&& res.1.reply is None
            &&& final(registry)@.rooms.contains_key(room) <==> exists|p: u64| #[trigger] stays(p)
            &&& final(registry)@.rooms.contains_key(room) ==>
                !final(registry)@.rooms[room].contains_key(session.peer_id.0)
            &&& told_once(stays, res.1.deliveries@)
            &&& forall|i: int|
                0 <= i < res.1.deliveries@.len() ==> (
                #[trigger] res.1.deliveries@[i]).envelope.msg@ == (MessageView::PeerLeft {
                    peer_id: session.peer_id,
                })
        }),
{
    let connection = Connection::Joined(session);
    let (before, after) = (registry@, final(registry)@);
    let credentials = choose|credentials: Option<(Seq<char>, Seq<char>)>|
        issued(turn, credentials) && #[trigger] is_transition(
            turn,
            credentials,
            before,
            after,
            connection,
            frame,
            res.0,
            res.1,
        );
    law_leaving(turn, credentials, before, after, session, frame, res.0, res.1);
    let room = session.room@;
    let stays = |p: u64| p != session.peer_id.0 && before.rooms[room].contains_key(p);
    assert(!stays(session.peer_id.0));
    assert(told_once(stays, res.1.deliveries@));
}

/// What a session's frame asks for: what is addressed to a member is forwarded to it, the end
/// of the connection ends the session, and all else is ignored.
pub proof fn law_session_frames(
    registry: RoomRegistry,
    session: Session,
    frame: Frame,
    res: Step,
)
    requires
        call_ensures(on_frame, (&registry, &session, frame), res),
    ensures
        res is End <==> frame is Close || frame is Failed,
        res matches Step::Forward(delivery) ==> registry@.rooms.contains_key(session.room@)
            && registry@.rooms[session.room@].contains_key(delivery.to.0),
        frame matches Frame::Text(Some(envelope)) ==> match envelope.msg@ {
            MessageView::Sdp { kind, sdp, to: Some(to), .. } => if registry@.rooms.contains_key(
                session.room@,
            ) && registry@.rooms[session.room@].contains_key(to.0) {
                &&& res matches Step::Forward(delivery)
                &&& delivery.to == to
                &&& delivery.envelope.msg@ == (MessageView::Sdp {
                    kind,
                    sdp,
                    from: Some(session.peer_id),
                    to: Some(to),
                })
            } else {
                res is Ignore
            },
            MessageView::IceCandidate { candidate, to: Some(to), .. } => if registry@.rooms.contains_key(
                session.room@,
            ) && registry@.rooms[session.room@].contains_key(to.0) {
                &&& res matches Step::Forward(delivery)
                &&& delivery.to == to
                &&& delivery.envelope.msg@ == (MessageView::IceCandidate {
                    candidate,
                    from: Some(session.peer_id),
                    to: Some(to),
                })
            } else {
                res is Ignore
            },
            _ => res is Ignore,
        },
{
}

/// A room that is handed out exists from then on, and did not before.
pub proof fn law_new_rooms(registry: &mut RoomRegistry, res: Option<NewRoomResponse>, word: u64)
    requires
        call_ensures(new_room, (registry,), res),
    ensures
        match res {
            Some(response) => {
                &&& !old(registry)@.rooms.contains_key(response.code@)
                &&& final(registry)@.rooms.contains_key(response.code@)
                &&& response.code@.len() == 6
            },
            None => final(registry)@ == old(registry)@ && old(registry)@.rooms.contains_key(
                room_code(word),
            ),
        },
{
}

/// The publisher's own greeting is admitted, whether or not its room exists.
pub proof fn law_publisher_is_admitted(room: &str, greeting: Envelope, registry: RegistryView)
    requires
        call_ensures(crate::publisher::hello, (room,), greeting),
    ensures
        verdict(registry, greeting.msg@) == (Verdict::Admitted { role: Role::Publisher, room: room@ }),
{
}

/// A greeting is judged by what it says and by what rooms there are. One that is admitted is
/// welcomed with the servers at hand, and everyone who is there is told of it.
pub proof fn law_greeting(
    registry: &mut RoomRegistry,
    greeting: Envelope,
    ice_servers: Vec<IceServer>,
    version: u32,
    role: Role,
    room: Seq<char>,
    res: Admission,
)
    requires
        call_ensures(greet_with, (registry, greeting, ice_servers), res),
        greeting.msg@ == (MessageView::Hello { protocol_version: version, role, room }),
    ensures
        ({
            let before = old(registry)@;
            let stranger = role == Role::Subscriber && !before.rooms.contains_key(room);
            &&& version != 2 || stranger ==> final(registry)@ == before && (
            res matches Admission::Refused(e) && e@.msg matches MessageView::Error { code, .. }
                && code == if version != 2 {
                ErrorCode::VersionMismatch
            } else {
                ErrorCode::RoomNotFound
            })
            &&& version == 2 && !stranger ==> {
                let id = before.next_peer_id;
                &&& res matches Admission::Joined { session, welcome, announcements }
                &&& session.peer_id.0 == id && session.role == role && session.room@ == room
                &&& welcome@.msg matches MessageView::Welcome { peer_id, room_state }
                &&& peer_id.0 == id && room_state.code == room
                &&& room_state.ice_servers == ice_views(ice_servers@)
                &&& final(registry)@.rooms[room].contains_pair(id, role)
                &&& forall|p: u64|
                    p != id && #[trigger] before.members(room).contains_key(p) ==> exists|i: int|
                        0 <= i < announcements@.len() && (#[trigger] announcements@[i]).to.0 == p
            }
        }),
{
    law_admissions(
        old(registry)@,
        final(registry)@,
        greeting.msg@,
        ice_views(ice_servers@),
        res,
    );
}

/// Of those who are welcomed, one with credentials is told of the TURN server and one without is
/// told of STUN alone; only a greeting is an answer to a first frame.
pub proof fn law_welcomed_with_servers(
    registry: &mut RoomRegistry,
    greeting: Envelope,
    turn: Option<TurnService>,
    credentials: Option<(String, String)>,
    res: Admission,
    frame: Frame,
    read: Option<Envelope>,
)
    requires
        call_ensures(greet_credentialed, (registry, greeting, &turn, credentials), res),
        call_ensures(greeting_of, (frame,), read),
    ensures
        res matches Admission::Joined { welcome, .. } ==> (
        welcome@.msg matches MessageView::Welcome { room_state, .. } && room_state.ice_servers
            == match (turn, credentials) {
            (Some(service), Some((username, password))) => seq![
                stun(),
                turn_server(service@.advertised_addr, service@.port, username@, password@),
            ],
            _ => seq![stun()],
        }),
        read matches Some(e) ==> frame == Frame::Text(Some(e)),
        frame matches Frame::Text(Some(e)) ==> read == Some(e),
{
    law_admissions(
        old(registry)@,
        final(registry)@,
        greeting@.msg,
        owed_servers(turn, pair_view(credentials)),
        res,
    );
}

/// A peer that leaves is gone, and its room with it where it was the last; each of those who stay
/// is told once.
pub proof fn law_departing(registry: &mut RoomRegistry, session: Session, res: Vec<Delivery>)
    requires
        call_ensures(leave, (registry, &session), res),
        registry@.rooms.contains_key(session.room@),
    ensures
        ({
            let room = session.room@;
            let stays = |p: u64|
                p != session.peer_id.0 && old(registry)@.rooms[room].contains_key(p);
            &&& final(registry)@.rooms.contains_key(room) <==> exists|p: u64| #[trigger] stays(p)
            &&& final(registry)@.rooms.contains_key(room) ==> forall|p: u64| #[trigger]
                final(registry)@.rooms[room].contains_key(p) <==> stays(p)
            &&& told_once(stays, res@)
            &&& forall|i: int|
                0 <= i < res@.len() ==> (#[trigger] res@[i]).envelope.msg@ == (
                MessageView::PeerLeft { peer_id: session.peer_id })
        }),
{
    let room = session.room@;
    let id = session.peer_id.0;
    let before = old(registry)@;
    let rest = before.rooms[room].remove(id);
    let stays = |p: u64| p != id && before.rooms[room].contains_key(p);
    assert forall|p: u64| #[trigger] stays(p) <==> rest.contains_key(p) by {}
    lemma_told_once(stays, rest, left_message(session.peer_id), res@);
    if exists|p: u64| #[trigger] stays(p) {
        let p = choose|p: u64| #[trigger] stays(p);
        assert(rest.contains_key(p));
        assert(rest != Map::<u64, Role>::empty());
    } else {
        assert forall|p: u64| !rest.contains_key(p) by {
            assert(!stays(p));
        }
        assert(rest =~= Map::<u64, Role>::empty());
    }
}

/// What the relay says of its own accord bears no number.
pub proof fn law_own_messages_are_unnumbered(
    registry: &mut RoomRegistry,
    greeting: Envelope,
    ice_servers: Vec<IceServer>,
    res: Admission,
    other: &mut RoomRegistry,
    session: Session,
    left: Vec<Delivery>,
    i: int,
)
    requires
        call_ensures(greet_with, (registry, greeting, ice_servers), res),
        call_ensures(leave, (other, &session), left),
    ensures
        res matches Admission::Refused(e) ==> e.seq == 0,
        res matches Admission::Joined { welcome, announcements, .. } ==> welcome.seq == 0 && (0 <= i
            < announcements@.len() ==> announcements@[i].envelope.seq == 0),
        0 <= i < left@.len() ==> left@[i].envelope.seq == 0,
{
    if let Admission::Joined { welcome, announcements, .. } = res {
        assert(welcome@.seq == 0);
        if 0 <= i < announcements@.len() {
            assert(announcements@[i].envelope@.seq == 0);
        }
    }
    if let Admission::Refused(e) = res {
        assert(e@.seq == 0);
    }
    if 0 <= i < left@.len() {
        assert(left@[i].envelope@.seq == 0);
    }
}

/// Whoever is welcomed is told of STUN, and of the TURN server only with a pair that it honours.
pub proof fn law_welcomed_with_honoured_pairs(
    registry: &mut RoomRegistry,
    greeting: Envelope,
    turn: Option<TurnService>,
    res: Admission,
)
    requires
        call_ensures(greet, (registry, greeting, &turn), res),
    ensures
        res matches Admission::Joined { welcome, .. } ==> (
        welcome@.msg matches MessageView::Welcome { room_state, .. } && (room_state.ice_servers
            == seq![stun()] || (turn matches Some(service) && exists|
            username: Seq<char>,
            password: Seq<char>,
        |
            service.honours(username, password) && room_state.ice_servers == seq![
                stun(),
                #[trigger] turn_server(
                    service@.advertised_addr,
                    service@.port,
                    username,
                    password,
                ),
            ]))),
{
    let credentials = choose|credentials: Option<(Seq<char>, Seq<char>)>|
        issued(turn, credentials) && admits(
            old(registry)@,
            final(registry)@,
            greeting@.msg,
            #[trigger] owed_servers(turn, credentials),
            res,
        );
    law_admissions(
        old(registry)@,
        final(registry)@,
        greeting@.msg,
        owed_servers(turn, credentials),
        res,
    );
}

} // verus!
