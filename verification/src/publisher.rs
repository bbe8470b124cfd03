//! The publisher's side of signaling.
//!
//! The publisher offers one direct connection to each subscriber: to those
//! already in the room when it is welcomed, and to those that join later.
//! Answers and candidates come back through the relay, which names the
//! subscriber they are from. What has to be done with the connections
//! themselves is a list of actions.

use std::collections::HashSet;

use vstd::prelude::*;

use crate::config::lemma_slashes_are_cut_off;
use crate::protocol::{clone_texts, ice_views, optional_text, Envelope, EnvelopeView, IceServer,
    IceServerView, Message, MessageView, PeerId, PeerInfo, Role, RoomCode, SdpKind,
    PROTOCOL_VERSION};
use crate::text::{has_at, law_replacing, occurs, replace, replaced, texts, trim_end_matches,
    without_trailing};
use crate::ws::Frame;

verus! {

broadcast use vstd::std_specs::hash::group_hash_axioms;

/// Why signaling ended.
#[derive(Debug)]
pub enum PumpEnded {
    /// The relay closed the connection, or reading from it failed.
    WsClosed,
    /// The relay sent an error.
    RelayError(String),
    /// Nothing is left to send.
    OutboundClosed,
}

/// The errors of JSON texts, carried through unread.
#[verifier::external_type_specification]
#[verifier::external_body]
pub struct ExJsonError(serde_json::Error);

/// The errors of the WebRTC implementation, carried through unread.
#[verifier::external_type_specification]
#[verifier::external_body]
pub struct ExWebrtcError(webrtc::Error);

/// An ICE candidate in the shape of the W3C `RTCIceCandidateInit` dictionary.
#[derive(Debug)]
pub struct CandidateInit {
    pub candidate: String,
    pub sdp_mid: Option<String>,
    pub sdp_mline_index: Option<u16>,
    pub username_fragment: Option<String>,
}

/// The content of a [`CandidateInit`].
#[verifier::ext_equal]
pub struct CandidateView {
    pub candidate: Seq<char>,
    pub sdp_mid: Option<Seq<char>>,
    pub sdp_mline_index: Option<u16>,
    pub username_fragment: Option<Seq<char>>,
}

impl View for CandidateInit {
    type V = CandidateView;

    open spec fn view(&self) -> CandidateView {
        CandidateView {
            candidate: self.candidate@,
            sdp_mid: optional_text(self.sdp_mid),
            sdp_mline_index: self.sdp_mline_index,
            username_fragment: optional_text(self.username_fragment),
        }
    }
}

/// Whether a text is a session description.
pub uninterp spec fn is_session_description(sdp: Seq<char>) -> bool;

/// The candidate that a JSON text denotes, if it denotes one.
pub uninterp spec fn candidate_of(json: Seq<char>) -> Option<CandidateView>;

/// The JSON text of a candidate.
pub uninterp spec fn candidate_json(candidate: CandidateView) -> Seq<char>;

/// `webrtc`'s `RTCSessionDescription::answer`. Whether it succeeds depends on
/// the text alone, and the description that it makes holds the text unchanged.
#[verifier::external_body]
fn check_answer(sdp: String) -> (res: Result<String, webrtc::Error>)
    ensures
        match res {
            Ok(text) => is_session_description(sdp@) && text@ == sdp@,
            Err(_) => !is_session_description(sdp@),
        },
{
    let description =
        webrtc::peer_connection::sdp::session_description::RTCSessionDescription::answer(sdp)?;
    Ok(description.sdp)
}

/// `serde_json::from_str` of `webrtc`'s `RTCIceCandidateInit`. The outcome
/// depends on the text alone.
#[verifier::external_body]
fn read_candidate(json: &str) -> (res: Result<CandidateInit, serde_json::Error>)
    ensures
        match res {
            Ok(candidate) => candidate_of(json@) == Some(candidate@),
            Err(_) => candidate_of(json@) is None,
        },
{
    let init = serde_json::from_str::<
        webrtc::ice_transport::ice_candidate::RTCIceCandidateInit,
    >(json)?;
    Ok(
        CandidateInit {
            candidate: init.candidate,
            sdp_mid: init.sdp_mid,
            sdp_mline_index: init.sdp_mline_index,
            username_fragment: init.username_fragment,
        },
    )
}

/// `serde_json::to_string` of `webrtc`'s `RTCIceCandidateInit`. It fails only on
/// values that refuse to be written and on maps whose keys are not texts, and a
/// candidate is neither. The text depends on the candidate alone, and reading it
/// gives the candidate back.
#[verifier::external_body]
fn write_candidate(candidate: CandidateInit) -> (res: Result<String, serde_json::Error>)
    ensures
        match res {
            Ok(json) => json@ == candidate_json(candidate@) && candidate_of(json@) == Some(
                candidate@,
            ),
            Err(_) => false,
        },
{
    serde_json::to_string(
        &webrtc::ice_transport::ice_candidate::RTCIceCandidateInit {
            candidate: candidate.candidate,
            sdp_mid: candidate.sdp_mid,
            sdp_mline_index: candidate.sdp_mline_index,
            username_fragment: candidate.username_fragment,
        },
    )
}

/// The signaling address of a relay.
pub open spec fn signaling_url(relay: Seq<char>) -> Seq<char> {
    without_trailing(
        replaced(replaced(relay, "http://"@, "ws://"@), "https://"@, "wss://"@),
        '/',
    ) + "/ws"@
}

/// The signaling address of a relay.
pub fn ws_url(relay_url: &str) -> (res: String)
    ensures
        res@ == signaling_url(relay_url@),
{
    proof {
        reveal_strlit("http://");
        reveal_strlit("https://");
    }
    let plain = replace(relay_url, "http://", "ws://");
    let secure = replace(plain.as_str(), "https://", "wss://");
    let mut url = trim_end_matches(secure.as_str(), '/');
    url.append("/ws");
    url
}

/// An envelope as the publisher sends it.
pub open spec fn outgoing(msg: MessageView) -> EnvelopeView {
    EnvelopeView { seq: 0, msg }
}

/// An envelope as the publisher sends it.
fn envelope(msg: Message) -> (res: Envelope)
    ensures
        res@ == outgoing(msg@),
{
    Envelope { seq: 0, msg }
}

/// The publisher's greeting.
pub fn hello(room: &str) -> (res: Envelope)
    ensures
        res@ == outgoing(
            MessageView::Hello {
                protocol_version: PROTOCOL_VERSION,
                role: Role::Publisher,
                room: room@,
            },
        ),
{
    envelope(
        Message::Hello {
            protocol_version: PROTOCOL_VERSION,
            role: Role::Publisher,
            room: RoomCode(room.to_string()),
        },
    )
}

/// The message that carries a local candidate to a subscriber, as a text that reads
/// back as the candidate.
pub fn candidate_envelope(subscriber: PeerId, candidate: CandidateInit) -> (res: Option<Envelope>)
    ensures
        res matches Some(e) && e@ == outgoing(
            MessageView::IceCandidate {
                candidate: candidate_json(candidate@),
                from: None,
                to: Some(subscriber),
            },
        ) && candidate_of(candidate_json(candidate@)) == Some(candidate@),
{
    match write_candidate(candidate) {
        Ok(json) => Some(
            envelope(
                Message::IceCandidate { candidate: json, from: None, to: Some(subscriber) },
            ),
        ),
        Err(_) => None,
    }
}

/// An ICE server as connections are configured with it.
#[derive(Debug)]
pub struct RtcIceServer {
    pub urls: Vec<String>,
    pub username: String,
    pub credential: String,
}

/// Whether a configured server is the one that was advertised: what it lacks is
/// left empty.
pub open spec fn configures(server: IceServerView, rtc: RtcIceServer) -> bool {
    &&& texts(rtc.urls@) == server.urls
    &&& rtc.username@ == match server.username {
        Some(s) => s,
        None => seq![],
    }
    &&& rtc.credential@ == match server.credential {
        Some(s) => s,
        None => seq![],
    }
}

/// A copy of the text, or an empty one.
fn text_or_empty(s: &Option<String>) -> (res: String)
    ensures
        res@ == match optional_text(*s) {
            Some(t) => t,
            None => seq![],
        },
{
    match s {
        Some(t) => t.clone(),
        None => {
            let res = String::new();
            assert(res@ =~= seq![]);
            res
        },
    }
}

/// An ICE server as connections are configured with it.
fn to_rtc_ice_server(s: &IceServer) -> (res: RtcIceServer)
    ensures
        configures(s@, res),
{
    RtcIceServer {
        urls: clone_texts(&s.urls),
        username: text_or_empty(&s.username),
        credential: text_or_empty(&s.credential),
    }
}

/// Something to do with the connections, or to send.
#[derive(Debug)]
pub enum Action {
    /// Set up a connection to a subscriber and make an offer.
    Connect(PeerId),
    /// Close the connection to a subscriber.
    Close(PeerId),
    /// Apply a subscriber's answer to its connection.
    ApplyAnswer { subscriber: PeerId, sdp: String },
    /// Add a subscriber's candidate to its connection.
    AddCandidate { subscriber: PeerId, candidate: CandidateInit },
    /// Send an envelope to the relay.
    Send(Envelope),
}

/// The content of an [`Action`].
#[verifier::ext_equal]
pub enum ActionView {
    Connect(PeerId),
    Close(PeerId),
    ApplyAnswer { subscriber: PeerId, sdp: Seq<char> },
    AddCandidate { subscriber: PeerId, candidate: CandidateView },
    Send(EnvelopeView),
}

impl View for Action {
    type V = ActionView;

    open spec fn view(&self) -> ActionView {
        match *self {
            Action::Connect(id) => ActionView::Connect(id),
            Action::Close(id) => ActionView::Close(id),
            Action::ApplyAnswer { subscriber, sdp } => ActionView::ApplyAnswer {
                subscriber,
                sdp: sdp@,
            },
            Action::AddCandidate { subscriber, candidate } => ActionView::AddCandidate {
                subscriber,
                candidate: candidate@,
            },
            Action::Send(e) => ActionView::Send(e@),
        }
    }
}

/// The contents of a sequence of actions.
pub open spec fn action_views(v: Seq<Action>) -> Seq<ActionView> {
    Seq::new(v.len(), |i: int| v[i]@)
}

/// Why a message of the relay could not be acted upon.
#[derive(Debug, PartialEq, Eq, Clone, Copy, Structural)]
pub enum InboundError {
    /// An answer is not a session description.
    ParseAnswer,
    /// A candidate is not a candidate.
    ParseCandidate,
    /// The relay reports an error.
    Relay,
}

/// What the publisher knows: the ICE servers that it was told to use, and the
/// subscribers that it has made an offer to.
#[verifier::ext_equal]
pub struct PublisherView {
    pub ice_servers: Seq<IceServerView>,
    pub subscribers: Set<u64>,
}

/// What the publisher knows of its room.
pub struct Publisher {
    ice_servers: Vec<IceServer>,
    subscribers: HashSet<u64>,
}

impl View for Publisher {
    type V = PublisherView;

    closed spec fn view(&self) -> PublisherView {
        PublisherView {
            ice_servers: ice_views(self.ice_servers@),
            subscribers: self.subscribers@,
        }
    }
}

/// A connection to each subscriber of a list, in its order.
pub open spec fn connects(peers: Seq<PeerInfo>) -> Seq<ActionView>
    decreases peers.len(),
{
    if peers.len() == 0 {
        seq![]
    } else {
        let before = connects(peers.drop_last());
        if peers.last().role == Role::Subscriber {
            before.push(ActionView::Connect(peers.last().peer_id))
        } else {
            before
        }
    }
}

/// What a message of the relay changes, and what is to be done about it.
/// `answer` says whether the message's session description is one, `candidate`
/// is what its candidate denotes.
pub open spec fn handled(
    state: PublisherView,
    msg: MessageView,
    answer: bool,
    candidate: Option<CandidateView>,
) -> (PublisherView, Result<Seq<ActionView>, InboundError>) {
    match msg {
        MessageView::Welcome { peer_id: _, room_state } => (
            PublisherView {
                ice_servers: room_state.ice_servers,
                subscribers: state.subscribers,
            },
            Ok(connects(room_state.peers)),
        ),
        MessageView::PeerJoined { peer } => (
            state,
            Ok(
                if peer.role == Role::Subscriber {
                    seq![ActionView::Connect(peer.peer_id)]
                } else {
                    seq![]
                },
            ),
        ),
        MessageView::PeerLeft { peer_id } => if state.subscribers.contains(peer_id.0) {
            (
                PublisherView {
                    ice_servers: state.ice_servers,
                    subscribers: state.subscribers.remove(peer_id.0),
                },
                Ok(seq![ActionView::Close(peer_id)]),
            )
        } else {
            (state, Ok(seq![]))
        },
        MessageView::Sdp { kind: SdpKind::Answer, sdp, from: Some(from), to: _ } => (
            state,
            if !state.subscribers.contains(from.0) {
                Ok(seq![])
            } else if answer {
                Ok(seq![ActionView::ApplyAnswer { subscriber: from, sdp }])
            } else {
                Err(InboundError::ParseAnswer)
            },
        ),
        MessageView::IceCandidate { candidate: _, from: Some(from), to: _ } => (
            state,
            if !state.subscribers.contains(from.0) {
                Ok(seq![])
            } else {
                match candidate {
                    Some(c) => Ok(
                        seq![ActionView::AddCandidate { subscriber: from, candidate: c }],
                    ),
                    None => Err(InboundError::ParseCandidate),
                }
            },
        ),
        MessageView::Error { code: _, detail: _ } => (state, Err(InboundError::Relay)),
        MessageView::Ping { nonce } => (
            state,
            Ok(seq![ActionView::Send(outgoing(MessageView::Pong { nonce }))]),
        ),
        _ => (state, Ok(seq![])),
    }
}

/// Whether the session description in a message is one.
pub open spec fn carries_description(msg: MessageView) -> bool {
    msg matches MessageView::Sdp { sdp, .. } && is_session_description(sdp)
}

/// What the candidate in a message denotes.
pub open spec fn carried_candidate(msg: MessageView) -> Option<CandidateView> {
    match msg {
        MessageView::IceCandidate { candidate, .. } => candidate_of(candidate),
        _ => None,
    }
}

/// What an outcome says.
pub open spec fn outcome_view(res: Result<Vec<Action>, InboundError>) -> Result<
    Seq<ActionView>,
    InboundError,
> {
    match res {
        Ok(actions) => Ok(action_views(actions@)),
        Err(e) => Err(e),
    }
}

/// One action.
fn one(action: Action) -> (res: Result<Vec<Action>, InboundError>)
    ensures
        outcome_view(res) == Ok::<Seq<ActionView>, InboundError>(seq![action@]),
{
    let v = vec![action];
    assert(action_views(v@) =~= seq![action@]);
    Ok(v)
}

/// No action.
fn none() -> (res: Result<Vec<Action>, InboundError>)
    ensures
        outcome_view(res) == Ok::<Seq<ActionView>, InboundError>(seq![]),
{
    let v: Vec<Action> = Vec::new();
    assert(action_views(v@) =~= seq![]);
    Ok(v)
}

/// A connection to each subscriber of a list, in its order.
fn connect_all(peers: &Vec<PeerInfo>) -> (res: Vec<Action>)
    ensures
        action_views(res@) == connects(peers@),
{
    let mut out: Vec<Action> = Vec::new();
    let len: usize = peers.len();
    let mut i: usize = 0;
    assert(action_views(out@) =~= connects(peers@.take(0)));
    while i < len
        invariant
            i <= len,
            len == peers@.len(),
            action_views(out@) == connects(peers@.take(i as int)),
        decreases len - i,
    {
        let peer = peers[i];
        let ghost before = out@;
        assert(peers@.take(i + 1).drop_last() =~= peers@.take(i as int));
        if peer.role == Role::Subscriber {
            out.push(Action::Connect(peer.peer_id));
            assert(action_views(out@) =~= action_views(before).push(
                ActionView::Connect(peer.peer_id),
            ));
        }
        i += 1;
    }
    assert(peers@.take(len as int) =~= peers@);
    out
}

/// What a frame of the relay leads to.
#[derive(Debug)]
pub enum Reaction {
    /// Do this and go on. An error leaves nothing to do.
    Continue(Result<Vec<Action>, InboundError>),
    /// Signaling is over.
    End(PumpEnded),
}

/// Whether a reaction is the one that a frame leads to.
pub open spec fn is_reaction(
    before: PublisherView,
    after: PublisherView,
    frame: Frame,
    reaction: Reaction,
) -> bool {
    match frame {
        Frame::Close | Frame::Failed => reaction == Reaction::End(PumpEnded::WsClosed) && after
            == before,
        Frame::Other | Frame::Text(None) => reaction matches Reaction::Continue(outcome)
            && outcome_view(outcome) == Ok::<Seq<ActionView>, InboundError>(seq![]) && after
            == before,
        Frame::Text(Some(e)) => match e.msg {
            Message::Error { code: _, detail } => reaction matches Reaction::End(
                PumpEnded::RelayError(text),
            ) && text@ == detail@ && after == before,
            _ => reaction matches Reaction::Continue(outcome) && (after, outcome_view(outcome))
                == handled(
                before,
                e.msg@,
                carries_description(e.msg@),
                carried_candidate(e.msg@),
            ),
        },
    }
}

impl Publisher {
    /// Knows nothing yet.
    pub fn new() -> (res: Self)
        ensures
            res@ == (PublisherView { ice_servers: seq![], subscribers: Set::empty() }),
    {
        let res = Publisher { ice_servers: Vec::new(), subscribers: HashSet::new() };
        assert(ice_views(res.ice_servers@) =~= seq![]);
        res
    }

    /// Acts upon a message of the relay, of which `answer` and `candidate` say
    /// what the message's text denotes.
    pub fn handle_parsed(
        &mut self,
        msg: Message,
        answer: bool,
        candidate: Option<CandidateInit>,
    ) -> (res: Result<Vec<Action>, InboundError>)
        ensures
            (final(self)@, outcome_view(res)) == handled(
                old(self)@,
                msg@,
                answer,
                match candidate {
                    Some(c) => Some(c@),
                    None => None,
                },
            ),
    {
        match msg {
            Message::Welcome { peer_id: _, room_state } => {
                let actions = connect_all(&room_state.peers);
                self.ice_servers = room_state.ice_servers;
                Ok(actions)
            },
            Message::PeerJoined { peer } => {
                if peer.role == Role::Subscriber {
                    one(Action::Connect(peer.peer_id))
                } else {
                    none()
                }
            },
            Message::PeerLeft { peer_id } => {
                if self.subscribers.remove(&peer_id.0) {
                    one(Action::Close(peer_id))
                } else {
                    assert(self.subscribers@ =~= old(self)@.subscribers);
                    none()
                }
            },
            Message::Sdp { kind, sdp, from, to: _ } => {
                let from = match from {
                    Some(from) => from,
                    None => {
                        return none();
                    },
                };
                if kind == SdpKind::Offer || !self.subscribers.contains(&from.0) {
                    none()
                } else if answer {
                    one(Action::ApplyAnswer { subscriber: from, sdp })
                } else {
                    Err(InboundError::ParseAnswer)
                }
            },
            Message::IceCandidate { candidate: _, from, to: _ } => {
                let from = match from {
                    Some(from) => from,
                    None => {
                        return none();
                    },
                };
                if !self.subscribers.contains(&from.0) {
                    none()
                } else {
                    match candidate {
                        Some(c) => one(Action::AddCandidate { subscriber: from, candidate: c }),
                        None => Err(InboundError::ParseCandidate),
                    }
                }
            },
            Message::Error { code: _, detail: _ } => Err(InboundError::Relay),
            Message::Ping { nonce } => one(Action::Send(envelope(Message::Pong { nonce }))),
            _ => none(),
        }
    }

    /// Acts upon a message of the relay.
    pub fn handle_inbound(&mut self, env: Envelope) -> (res: Result<Vec<Action>, InboundError>)
        ensures
            (final(self)@, outcome_view(res)) == handled(
                old(self)@,
                env@.msg,
                carries_description(env@.msg),
                carried_candidate(env@.msg),
            ),
    {
        let answer = match &env.msg {
            Message::Sdp { kind: _, sdp, from: _, to: _ } => check_answer(sdp.clone()).is_ok(),
            _ => false,
        };
        let candidate = match &env.msg {
            Message::IceCandidate { candidate, from: _, to: _ } => match read_candidate(
                candidate.as_str(),
            ) {
                Ok(c) => Some(c),
                Err(_) => None,
            },
            _ => None,
        };
        self.handle_parsed(env.msg, answer, candidate)
    }

    /// Reacts to a frame of the relay.
    pub fn on_frame(&mut self, frame: Frame) -> (res: Reaction)
        ensures
            is_reaction(old(self)@, final(self)@, frame, res),
    {
        match frame {
            Frame::Close => Reaction::End(PumpEnded::WsClosed),
            Frame::Failed => Reaction::End(PumpEnded::WsClosed),
            Frame::Other => Reaction::Continue(none()),
            Frame::Text(None) => Reaction::Continue(none()),
            Frame::Text(Some(env)) => {
                if let Message::Error { code: _, detail } = &env.msg {
                    return Reaction::End(PumpEnded::RelayError(detail.clone()));
                }
                Reaction::Continue(self.handle_inbound(env))
            },
        }
    }

    /// The servers to configure a connection with.
    pub fn rtc_ice_servers(&self) -> (res: Vec<RtcIceServer>)
        ensures
            res@.len() == self@.ice_servers.len(),
            forall|i: int|
                0 <= i < res@.len() ==> configures(self@.ice_servers[i], #[trigger] res@[i]),
    {
        let mut out: Vec<RtcIceServer> = Vec::new();
        let len: usize = self.ice_servers.len();
        let mut i: usize = 0;
        while i < len
            invariant
                i <= len,
                len == self.ice_servers@.len(),
                out@.len() == i,
                forall|j: int|
                    0 <= j < i ==> configures(self@.ice_servers[j], #[trigger] out@[j]),
            decreases len - i,
        {
            out.push(to_rtc_ice_server(&self.ice_servers[i]));
            i += 1;
        }
        out
    }

    /// Notes that a connection to a subscriber stands, and makes the offer that
    /// carries its local description.
    pub fn offer(&mut self, subscriber: PeerId, local_sdp: String) -> (res: Envelope)
        ensures
            final(self)@ == (PublisherView {
                ice_servers: old(self)@.ice_servers,
                subscribers: old(self)@.subscribers.insert(subscriber.0),
            }),
            res@ == outgoing(
                MessageView::Sdp {
                    kind: SdpKind::Offer,
                    sdp: local_sdp@,
                    from: None,
                    to: Some(subscriber),
                },
            ),
    {
        self.subscribers.insert(subscriber.0);
        envelope(
            Message::Sdp { kind: SdpKind::Offer, sdp: local_sdp, from: None, to: Some(subscriber) },
        )
    }
}

/// Why signaling ended, where the task that knows may have died.
pub fn pump_result(ended: Option<PumpEnded>) -> (res: PumpEnded)
    ensures
        res == match ended {
            Some(e) => e,
            None => PumpEnded::WsClosed,
        },
{
    match ended {
        Some(e) => e,
        None => PumpEnded::WsClosed,
    }
}

/// Each subscriber in the room gets one offer for its entry, and nobody else
/// gets one.
pub proof fn law_welcome_offers_to_the_subscribers(peers: Seq<PeerInfo>, id: PeerId)
    ensures
        connects(peers).contains(ActionView::Connect(id)) <==> peers.contains(
            PeerInfo { peer_id: id, role: Role::Subscriber },
        ),
        forall|i: int| 0 <= i < connects(peers).len() ==> #[trigger] connects(peers)[i] is Connect,
    decreases peers.len(),
{
    let wanted = PeerInfo { peer_id: id, role: Role::Subscriber };
    let action = ActionView::Connect(id);
    if peers.len() > 0 {
        let rest = peers.drop_last();
        law_welcome_offers_to_the_subscribers(rest, id);
        if connects(peers).contains(action) {
            if connects(rest).contains(action) {
                let j = choose|j: int| 0 <= j < rest.len() && rest[j] == wanted;
                assert(peers[j] == wanted);
            } else {
                assert(peers.last() == wanted);
                assert(peers[peers.len() - 1] == wanted);
            }
        }
        if peers.contains(wanted) {
            if peers.last() == wanted {
                assert(connects(peers).last() == action);
                assert(connects(peers)[connects(peers).len() - 1] == action);
            } else {
                let j = choose|j: int| 0 <= j < peers.len() && peers[j] == wanted;
                assert(rest[j] == wanted);
                assert(connects(rest).contains(action));
                let k = choose|k: int| 0 <= k < connects(rest).len() && connects(rest)[k] == action;
                assert(connects(peers)[k] == action);
            }
        }
    }
}

/// Answers, candidates and departures concern only subscribers that an offer
/// was made to, and a subscriber that left is forgotten.
pub proof fn law_only_known_subscribers_are_touched(
    state: PublisherView,
    msg: MessageView,
    answer: bool,
    candidate: Option<CandidateView>,
)
    ensures
        ({
            let (after, outcome) = handled(state, msg, answer, candidate);
            &&& outcome matches Ok(actions) ==> forall|i: int|
                0 <= i < actions.len() ==> match #[trigger] actions[i] {
                    ActionView::Close(id) => state.subscribers.contains(id.0)
                        && !after.subscribers.contains(id.0),
                    ActionView::ApplyAnswer { subscriber, .. } => state.subscribers.contains(
                        subscriber.0,
                    ),
                    ActionView::AddCandidate { subscriber, .. } => state.subscribers.contains(
                        subscriber.0,
                    ),
                    _ => true,
                }
            &&& after.subscribers.subset_of(state.subscribers)
        }),
{
    if let MessageView::Welcome { peer_id: _, room_state } = msg {
        law_welcome_offers_to_the_subscribers(room_state.peers, PeerId(0));
    }
}

/// Whoever joins as a subscriber gets a connection of its own and an offer, whoever
/// else is connected already; nothing else is done, and what is known stays. Nothing
/// is done about a publisher that joins.
pub proof fn law_joining_subscribers_get_an_offer(
    state: PublisherView,
    peer: PeerInfo,
    answer: bool,
    candidate: Option<CandidateView>,
)
    ensures
        handled(state, MessageView::PeerJoined { peer }, answer, candidate).0 == state,
        peer.role == Role::Subscriber ==> handled(
            state,
            MessageView::PeerJoined { peer },
            answer,
            candidate,
        ).1 == Ok::<Seq<ActionView>, InboundError>(seq![ActionView::Connect(peer.peer_id)]),
        peer.role == Role::Publisher ==> handled(
            state,
            MessageView::PeerJoined { peer },
            answer,
            candidate,
        ).1 == Ok::<Seq<ActionView>, InboundError>(seq![]),
{
}

/// A welcome has the publisher use the ICE servers that it names, and connect to each
/// subscriber that it lists, once for each entry and in their order, whatever was
/// known before. It forgets nobody.
pub proof fn law_welcome(
    state: PublisherView,
    msg: MessageView,
    answer: bool,
    candidate: Option<CandidateView>,
)
    requires
        msg is Welcome,
    ensures
        ({
            let room_state = msg->room_state;
            let (after, outcome) = handled(state, msg, answer, candidate);
            &&& after.ice_servers == room_state.ice_servers
            &&& after.subscribers == state.subscribers
            &&& outcome == Ok::<Seq<ActionView>, InboundError>(
                room_state.peers.filter(|p: PeerInfo| p.role == Role::Subscriber).map_values(
                    |p: PeerInfo| ActionView::Connect(p.peer_id),
                ),
            )
        }),
{
    lemma_connects_is_filter(msg->room_state.peers);
}

/// Connecting to the subscribers of a list is picking them out of it.
proof fn lemma_connects_is_filter(peers: Seq<PeerInfo>)
    ensures
        connects(peers) == peers.filter(|p: PeerInfo| p.role == Role::Subscriber).map_values(
            |p: PeerInfo| ActionView::Connect(p.peer_id),
        ),
    decreases peers.len(),
{
    reveal(Seq::filter);
    let wanted = |p: PeerInfo| p.role == Role::Subscriber;
    let action = |p: PeerInfo| ActionView::Connect(p.peer_id);
    if peers.len() == 0 {
        assert(peers.filter(wanted).map_values(action) =~= connects(peers));
    } else {
        lemma_connects_is_filter(peers.drop_last());
        let rest = peers.drop_last().filter(wanted);
        if wanted(peers.last()) {
            assert(peers.filter(wanted) == rest.push(peers.last()));
            assert(rest.push(peers.last()).map_values(action) =~= rest.map_values(action).push(
                action(peers.last()),
            ));
        }
    }
}

/// When a subscriber that an offer was made to leaves, its connection is closed and
/// it is forgotten; all others stay. Nothing is done about anybody else who leaves.
pub proof fn law_departures_are_closed(
    state: PublisherView,
    id: PeerId,
    answer: bool,
    candidate: Option<CandidateView>,
)
    ensures
        ({
            let (after, outcome) = handled(
                state,
                MessageView::PeerLeft { peer_id: id },
                answer,
                candidate,
            );
            &&& after.ice_servers == state.ice_servers
            &&& !after.subscribers.contains(id.0)
            &&& forall|other: u64|
                other != id.0 ==> (#[trigger] after.subscribers.contains(other)
                    <==> state.subscribers.contains(other))
            &&& outcome == Ok::<Seq<ActionView>, InboundError>(
                if state.subscribers.contains(id.0) {
                    seq![ActionView::Close(id)]
                } else {
                    seq![]
                },
            )
        }),
{
}

/// The answer of a subscriber that an offer was made to is applied to its connection
/// as it is, and one that cannot be read is an error. Answers of anybody else, those
/// that name nobody, and offers lead to nothing. What is known stays.
pub proof fn law_answers_are_applied(
    state: PublisherView,
    kind: SdpKind,
    sdp: Seq<char>,
    from: Option<PeerId>,
    to: Option<PeerId>,
    answer: bool,
    candidate: Option<CandidateView>,
)
    ensures
        ({
            let (after, outcome) = handled(
                state,
                MessageView::Sdp { kind, sdp, from, to },
                answer,
                candidate,
            );
            &&& after == state
            &&& match from {
                Some(id) if kind == SdpKind::Answer && state.subscribers.contains(id.0) => {
                    &&& answer ==> outcome == Ok::<Seq<ActionView>, InboundError>(
                        seq![ActionView::ApplyAnswer { subscriber: id, sdp }],
                    )
                    &&& !answer ==> outcome == Err::<Seq<ActionView>, InboundError>(
                        InboundError::ParseAnswer,
                    )
                },
                _ => outcome == Ok::<Seq<ActionView>, InboundError>(seq![]),
            }
        }),
{
}

/// The candidate of a subscriber that an offer was made to is added to its connection,
/// and one that cannot be read is an error. Candidates of anybody else, and those that
/// name nobody, lead to nothing. What is known stays.
pub proof fn law_candidates_are_added(
    state: PublisherView,
    text: Seq<char>,
    from: Option<PeerId>,
    to: Option<PeerId>,
    answer: bool,
    candidate: Option<CandidateView>,
)
    ensures
        ({
            let (after, outcome) = handled(
                state,
                MessageView::IceCandidate { candidate: text, from, to },
                answer,
                candidate,
            );
            &&& after == state
            &&& match from {
                Some(id) if state.subscribers.contains(id.0) => match candidate {
                    Some(c) => outcome == Ok::<Seq<ActionView>, InboundError>(
                        seq![ActionView::AddCandidate { subscriber: id, candidate: c }],
                    ),
                    None => outcome == Err::<Seq<ActionView>, InboundError>(
                        InboundError::ParseCandidate,
                    ),
                },
                _ => outcome == Ok::<Seq<ActionView>, InboundError>(seq![]),
            }
        }),
{
}

/// A ping is answered by a pong that bears its number; an error of the relay is an
/// error here. Neither changes what is known.
pub proof fn law_pings_are_answered(
    state: PublisherView,
    nonce: u64,
    code: crate::protocol::ErrorCode,
    detail: Seq<char>,
    answer: bool,
    candidate: Option<CandidateView>,
)
    ensures
        handled(state, MessageView::Ping { nonce }, answer, candidate) == (
            state,
            Ok::<Seq<ActionView>, InboundError>(
                seq![ActionView::Send(EnvelopeView { seq: 0, msg: MessageView::Pong { nonce } })],
            ),
        ),
        handled(state, MessageView::Error { code, detail }, answer, candidate) == (
            state,
            Err::<Seq<ActionView>, InboundError>(InboundError::Relay),
        ),
{
}

/// Signaling goes on until the relay closes the connection, reading fails or the relay
/// reports an error, and ends then: with the relay's own words in the last case, and
/// with nothing changed. A frame that is no message leads to nothing.
pub proof fn law_signaling_ends_where_the_relay_ends_it(
    before: PublisherView,
    after: PublisherView,
    frame: Frame,
    reaction: Reaction,
)
    requires
        is_reaction(before, after, frame, reaction),
    ensures
        reaction is End <==> frame is Close || frame is Failed || (frame matches Frame::Text(
            Some(e),
        ) && e.msg is Error),
        reaction is End ==> after == before,
        frame is Close || frame is Failed ==> reaction == Reaction::End(PumpEnded::WsClosed),
        frame matches Frame::Text(Some(e)) ==> e.msg@ matches MessageView::Error {
            detail,
            ..
        } ==> (reaction matches Reaction::End(PumpEnded::RelayError(text)) && text@ == detail),
        frame is Other || frame == Frame::Text(None::<Envelope>) ==> after == before && (
        reaction matches Reaction::Continue(Ok(actions)) && actions@.len() == 0),
{
    if let Reaction::Continue(Ok(actions)) = reaction {
        if frame is Other || frame == Frame::Text(None::<Envelope>) {
            assert(action_views(actions@).len() == 0);
        }
    }
}

/// What a message asks for is done as its text says: an answer that is a session
/// description is applied, a candidate that denotes one is added.
pub proof fn law_messages_are_acted_upon(
    before: PublisherView,
    after: PublisherView,
    envelope: Envelope,
    reaction: Reaction,
    from: PeerId,
)
    requires
        is_reaction(before, after, Frame::Text(Some(envelope)), reaction),
        before.subscribers.contains(from.0),
    ensures
        envelope.msg@ matches MessageView::Sdp {
            kind: SdpKind::Answer,
            sdp,
            from: Some(f),
            ..
        } ==> f == from ==> (reaction matches Reaction::Continue(outcome) && outcome_view(outcome)
            == if is_session_description(sdp) {
            Ok::<Seq<ActionView>, InboundError>(
                seq![ActionView::ApplyAnswer { subscriber: from, sdp }],
            )
        } else {
            Err(InboundError::ParseAnswer)
        }),
        envelope.msg@ matches MessageView::IceCandidate {
            candidate,
            from: Some(f),
            ..
        } ==> f == from ==> (reaction matches Reaction::Continue(outcome) && outcome_view(outcome)
            == match candidate_of(candidate) {
            Some(c) => Ok::<Seq<ActionView>, InboundError>(
                seq![ActionView::AddCandidate { subscriber: from, candidate: c }],
            ),
            None => Err(InboundError::ParseCandidate),
        }),
        envelope.msg@ matches MessageView::PeerJoined { peer } ==> peer.role == Role::Subscriber
            ==> (reaction matches Reaction::Continue(outcome) && outcome_view(outcome) == Ok::<
            Seq<ActionView>,
            InboundError,
        >(seq![ActionView::Connect(peer.peer_id)]) && after == before),
        envelope.msg@ matches MessageView::PeerLeft { peer_id } ==> peer_id == from ==> (
        reaction matches Reaction::Continue(outcome) && outcome_view(outcome) == Ok::<
            Seq<ActionView>,
            InboundError,
        >(seq![ActionView::Close(from)]) && !after.subscribers.contains(from.0)),
{
}

/// A configured server has the addresses that were advertised, and their user name and
/// password; where there is none, the text is empty.
pub proof fn law_servers_are_configured(server: IceServer, rtc: RtcIceServer)
    requires
        configures(server@, rtc),
    ensures
        rtc.urls@.len() == server.urls@.len(),
        forall|i: int| 0 <= i < rtc.urls@.len() ==> (#[trigger] rtc.urls@[i])@ == server.urls@[i]@,
        match server.username {
            Some(s) => rtc.username@ == s@,
            None => rtc.username@.len() == 0,
        },
        match server.credential {
            Some(s) => rtc.credential@ == s@,
            None => rtc.credential@.len() == 0,
        },
{
    assert(texts(rtc.urls@).len() == texts(server.urls@).len());
    assert forall|i: int| 0 <= i < rtc.urls@.len() implies (#[trigger] rtc.urls@[i])@
        == server.urls@[i]@ by {
        assert(texts(rtc.urls@)[i] == texts(server.urls@)[i]);
    }
}

/// Whether a text mentions neither of two addresses' beginnings.
pub open spec fn names_no_scheme(s: Seq<char>) -> bool {
    !occurs(s, "http://"@) && !occurs(s, "https://"@)
}

/// Signaling goes to the relay's own address, whether or not it ends in slashes: to a
/// plain one over a plain connection, and to a secure one over a secure one.
pub proof fn law_signaling_address(host: Seq<char>, slashes: Seq<char>)
    requires
        host.len() > 0,
        host.last() != '/',
        forall|i: int| 0 <= i < slashes.len() ==> #[trigger] slashes[i] == '/',
        names_no_scheme(host + slashes),
    ensures
        signaling_url("http://"@ + host + slashes) == "ws://"@ + host + "/ws"@,
        signaling_url("https://"@ + host + slashes) == "wss://"@ + host + "/ws"@,
{
    reveal_strlit("http://");
    reveal_strlit("https://");
    reveal_strlit("ws://");
    reveal_strlit("wss://");
    let (http, https, ws, wss) = ("http://"@, "https://"@, "ws://"@, "wss://"@);
    let rest = host + slashes;
    law_replacing(rest, http, ws);
    law_replacing(rest, https, wss);
    assert(http + host + slashes =~= http + rest);
    assert(https + host + slashes =~= https + rest);
    // A plain address.
    assert(replaced(http + rest, http, ws) == ws + rest);
    lemma_no_scheme_added(ws, rest, https, wss);
    assert(ws + rest =~= (ws + host) + slashes);
    lemma_slashes_are_cut_off(ws + host, slashes);
    // A secure one.
    lemma_no_scheme_added(https, rest, http, ws);
    assert(replaced(https + rest, http, ws) == https + rest);
    assert(wss + rest =~= (wss + host) + slashes);
    lemma_slashes_are_cut_off(wss + host, slashes);
}

/// Where neither a text nor its first part and what follows hold an occurrence, nothing is
/// replaced.
proof fn lemma_no_scheme_added(front: Seq<char>, rest: Seq<char>, from: Seq<char>, to: Seq<char>)
    requires
        (front == "ws://"@ && from == "https://"@) || (front == "https://"@ && from == "http://"@),
        !occurs(rest, from),
    ensures
        replaced(front + rest, from, to) == front + rest,
{
    reveal_strlit("http://");
    reveal_strlit("https://");
    reveal_strlit("ws://");
    let s = front + rest;
    assert forall|i: int| !has_at(s, from, i) by {
        if has_at(s, from, i) {
            let found = s.subrange(i, i + from.len());
            if i >= front.len() {
                let j = i - front.len();
                assert(rest.subrange(j, j + from.len()) =~= found);
                assert(has_at(rest, from, j));
            } else {
                assert(found[0] == s[i] && found[4] == s[i + 4]);
                assert(s[i] == front[i]);
                assert(from[0] == 'h');
                if front.len() == 5 {
                    assert(i == 0 || i == 1 || i == 2 || i == 3 || i == 4);
                } else {
                    assert(i == 0 || i == 1 || i == 2 || i == 3 || i == 4 || i == 5 || i == 6 || i
                        == 7);
                    assert(i == 0);
                    assert(s[4] == front[4]);
                    assert(from[4] == ':');
                }
            }
        }
    }
    assert(!occurs(s, from));
    law_replacing(s, from, to);
}

/// A message that is no error is acted upon as it is, with its session description and its
/// candidate read for what they are.
pub proof fn law_frames_are_handled(
    before: PublisherView,
    after: PublisherView,
    envelope: Envelope,
    reaction: Reaction,
)
    requires
        is_reaction(before, after, Frame::Text(Some(envelope)), reaction),
        !(envelope.msg@ is Error),
    ensures
        reaction matches Reaction::Continue(outcome) && (after, outcome_view(outcome)) == handled(
            before,
            envelope.msg@,
            envelope.msg@ matches MessageView::Sdp { sdp, .. } && is_session_description(sdp),
            match envelope.msg@ {
                MessageView::IceCandidate { candidate, .. } => candidate_of(candidate),
                _ => None,
            },
        ),
{
}

/// What an outcome says is what each of its actions says, in their order, or its error.
pub proof fn law_outcomes(actions: Vec<Action>, error: InboundError, i: int)
    requires
        0 <= i < actions@.len(),
    ensures
        outcome_view(Err(error)) == Err::<Seq<ActionView>, InboundError>(error),
        outcome_view(Ok(actions)) matches Ok(views) && views.len() == actions@.len() && views[i]
            == actions@[i]@,
{
}

/// Once an offer was made to a subscriber, its answer is applied and its candidates are added,
/// until it leaves.
pub proof fn law_offer_then_answer(
    publisher: &mut Publisher,
    later: &mut Publisher,
    subscriber: PeerId,
    local_sdp: String,
    offered: Envelope,
    msg: Message,
    answer: bool,
    candidate: Option<CandidateInit>,
    res: Result<Vec<Action>, InboundError>,
)
    requires
        call_ensures(Publisher::offer, (publisher, subscriber, local_sdp), offered),
        *later == *final(publisher),
        call_ensures(Publisher::handle_parsed, (later, msg, answer, candidate), res),
    ensures
        offered.msg@ == (MessageView::Sdp {
            kind: SdpKind::Offer,
            sdp: local_sdp@,
            from: None,
            to: Some(subscriber),
        }),
        final(publisher)@.subscribers.contains(subscriber.0),
        forall|other: u64|
            other != subscriber.0 ==> (#[trigger] final(publisher)@.subscribers.contains(other)
                <==> old(publisher)@.subscribers.contains(other)),
        final(publisher)@.ice_servers == old(publisher)@.ice_servers,
        msg@ matches MessageView::Sdp { kind: SdpKind::Answer, sdp, from: Some(from), .. } ==> from
            == subscriber ==> answer ==> (res matches Ok(actions) && actions@.len() == 1
            && actions@[0]@ == (ActionView::ApplyAnswer { subscriber, sdp })),
        msg@ matches MessageView::IceCandidate { from: Some(from), .. } ==> from == subscriber ==> (
        candidate matches Some(c) ==> (res matches Ok(actions) && actions@.len() == 1
            && actions@[0]@ == (ActionView::AddCandidate { subscriber, candidate: c@ }))),
        msg@ matches MessageView::PeerLeft { peer_id } ==> peer_id == subscriber ==> (
        res matches Ok(actions) && actions@.len() == 1 && actions@[0]@ == ActionView::Close(
            subscriber,
        ) && !final(later)@.subscribers.contains(subscriber.0)),
{
    if let Ok(actions) = res {
        if actions@.len() > 0 {
            assert(action_views(actions@)[0] == actions@[0]@);
        }
        assert(action_views(actions@).len() == actions@.len());
    }
}

/// Every subscriber that joins gets a connection and an offer, whoever else is connected.
pub proof fn law_every_subscriber_is_offered(
    publisher: &mut Publisher,
    peer: PeerInfo,
    answer: bool,
    candidate: Option<CandidateInit>,
    res: Result<Vec<Action>, InboundError>,
)
    requires
        call_ensures(
            Publisher::handle_parsed,
            (publisher, Message::PeerJoined { peer }, answer, candidate),
            res,
        ),
    ensures
        final(publisher)@ == old(publisher)@,
        peer.role == Role::Subscriber ==> (res matches Ok(actions) && actions@.len() == 1
            && actions@[0]@ == ActionView::Connect(peer.peer_id)),
        peer.role == Role::Publisher ==> (res matches Ok(actions) && actions@.len() == 0),
{
    if let Ok(actions) = res {
        assert(action_views(actions@).len() == actions@.len());
        if actions@.len() > 0 {
            assert(action_views(actions@)[0] == actions@[0]@);
        }
    }
}

/// A welcome is followed by one connection for each subscriber that it lists, in their order,
/// and its servers are the ones to use.
pub proof fn law_welcomed(
    publisher: &mut Publisher,
    msg: Message,
    answer: bool,
    candidate: Option<CandidateInit>,
    res: Result<Vec<Action>, InboundError>,
    peers: Seq<PeerInfo>,
)
    requires
        call_ensures(Publisher::handle_parsed, (publisher, msg, answer, candidate), res),
        msg@ matches MessageView::Welcome { room_state, .. } && room_state.peers == peers,
    ensures
        msg@ matches MessageView::Welcome { room_state, .. } && final(publisher)@.ice_servers
            == room_state.ice_servers,
        final(publisher)@.subscribers == old(publisher)@.subscribers,
        res matches Ok(actions) && action_views(actions@) == peers.filter(
            |p: PeerInfo| p.role == Role::Subscriber,
        ).map_values(|p: PeerInfo| ActionView::Connect(p.peer_id)),
{
    lemma_connects_is_filter(peers);
}

/// A frame of the relay that holds an answer is read for what it is: one that is a session
/// description is applied to its subscriber's connection, any other is an error.
pub proof fn law_frame_with_an_answer(
    publisher: &mut Publisher,
    envelope: Envelope,
    from: PeerId,
    sdp: Seq<char>,
    to: Option<PeerId>,
    res: Reaction,
)
    requires
        call_ensures(Publisher::on_frame, (publisher, Frame::Text(Some(envelope))), res),
        envelope.msg@ == (MessageView::Sdp { kind: SdpKind::Answer, sdp, from: Some(from), to }),
        publisher@.subscribers.contains(from.0),
    ensures
        is_session_description(sdp) ==> (res matches Reaction::Continue(Ok(actions)) && actions@.len()
            == 1 && actions@[0]@ == (ActionView::ApplyAnswer { subscriber: from, sdp })),
        !is_session_description(sdp) ==> (res matches Reaction::Continue(Err(e)) && e
            == InboundError::ParseAnswer),
        final(publisher)@ == old(publisher)@,
{
    if let Reaction::Continue(Ok(actions)) = res {
        assert(action_views(actions@).len() == actions@.len());
        if actions@.len() > 0 {
            assert(action_views(actions@)[0] == actions@[0]@);
        }
    }
}

/// A local candidate travels as a text that reads back as it, addressed to its subscriber.
pub proof fn law_candidates_travel(
    subscriber: PeerId,
    candidate: CandidateInit,
    res: Option<Envelope>,
)
    requires
        call_ensures(candidate_envelope, (subscriber, candidate), res),
    ensures
        res matches Some(e) && (e.msg@ matches MessageView::IceCandidate {
            candidate: text,
            from,
            to,
        } && candidate_of(text) == Some(candidate@) && from is None && to == Some(subscriber)),
{
}

/// Where the task that knows has died, signaling ended as if the relay had closed it.
pub proof fn law_pump_results(ended: Option<PumpEnded>, res: PumpEnded)
    requires
        call_ensures(pump_result, (ended,), res),
    ensures
        ended matches Some(e) ==> res == e,
        ended is None ==> res is WsClosed,
{
}

/// What the relay sends is acted upon with the outside readings of it: a subscriber that joins
/// is connected to, one that leaves is closed where it is known, and a ping is answered.
pub proof fn law_inbound_messages(
    publisher: &mut Publisher,
    envelope: Envelope,
    res: Result<Vec<Action>, InboundError>,
)
    requires
        call_ensures(Publisher::handle_inbound, (publisher, envelope), res),
    ensures
        envelope.msg@ matches MessageView::PeerJoined { peer } ==> final(publisher)@ == old(
            publisher,
        )@ && outcome_view(res) == Ok::<Seq<ActionView>, InboundError>(
            if peer.role == Role::Subscriber {
                seq![ActionView::Connect(peer.peer_id)]
            } else {
                seq![]
            },
        ),
        envelope.msg@ matches MessageView::PeerLeft { peer_id } ==> {
            &&& !final(publisher)@.subscribers.contains(peer_id.0)
            &&& outcome_view(res) == Ok::<Seq<ActionView>, InboundError>(
                if old(publisher)@.subscribers.contains(peer_id.0) {
                    seq![ActionView::Close(peer_id)]
                } else {
                    seq![]
                },
            )
        },
        envelope.msg@ matches MessageView::Ping { nonce } ==> outcome_view(res) == Ok::<
            Seq<ActionView>,
            InboundError,
        >(seq![ActionView::Send(EnvelopeView { seq: 0, msg: MessageView::Pong { nonce } })]),
        envelope.msg@ matches MessageView::Sdp {
            kind: SdpKind::Answer,
            sdp,
            from: Some(id),
            ..
        } ==> old(publisher)@.subscribers.contains(id.0) ==> outcome_view(res)
            == if is_session_description(sdp) {
            Ok::<Seq<ActionView>, InboundError>(
                seq![ActionView::ApplyAnswer { subscriber: id, sdp }],
            )
        } else {
            Err(InboundError::ParseAnswer)
        },
        envelope.msg@ matches MessageView::IceCandidate {
            candidate,
            from: Some(id),
            ..
        } ==> old(publisher)@.subscribers.contains(id.0) ==> outcome_view(res) == match candidate_of(
            candidate,
        ) {
            Some(c) => Ok::<Seq<ActionView>, InboundError>(
                seq![ActionView::AddCandidate { subscriber: id, candidate: c }],
            ),
            None => Err(InboundError::ParseCandidate),
        },
{
}

/// Each server that the relay named is configured, with its addresses and its credentials.
pub proof fn law_configuring(publisher: Publisher, res: Vec<RtcIceServer>, i: int)
    requires
        call_ensures(Publisher::rtc_ice_servers, (&publisher,), res),
        0 <= i < res@.len(),
    ensures
        res@.len() == publisher@.ice_servers.len(),
        texts(res@[i].urls@) == publisher@.ice_servers[i].urls,
        publisher@.ice_servers[i].username matches Some(name) ==> res@[i].username@ == name,
        publisher@.ice_servers[i].credential matches Some(word) ==> res@[i].credential@ == word,
{
}

/// Signaling goes to the relay's own host, over a plain connection or a secure one.
pub proof fn law_signaling_url(relay: &str, host: Seq<char>, res: String)
    requires
        call_ensures(ws_url, (relay,), res),
        names_no_scheme(host),
        host.len() > 0,
        host.last() != '/',
    ensures
        relay@ == "http://"@ + host ==> res@ == "ws://"@ + host + "/ws"@,
        relay@ == "https://"@ + host ==> res@ == "wss://"@ + host + "/ws"@,
{
    law_signaling_address(host, seq![]);
    assert(host + Seq::<char>::empty() =~= host);
}

/// A publisher knows of nobody at first, and no server.
pub proof fn law_new_publisher(publisher: Publisher, id: u64)
    requires
        call_ensures(Publisher::new, (), publisher),
    ensures
        !publisher@.subscribers.contains(id),
        publisher@.ice_servers.len() == 0,
{
}

} // verus!
