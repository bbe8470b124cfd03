//! Signaling protocol shared by the relay, the sender and the receiver page.
//!
//! All traffic is an [`Envelope`] around a payload tagged by message type.

use vstd::arithmetic::div_mod::lemma_fundamental_div_mod_converse;
use vstd::prelude::*;

use crate::text::texts;

verus! {

/// The version that a peer's greeting must name.
pub const PROTOCOL_VERSION: u32 = 2;

/// Whether a peer publishes a stream into its room or consumes one.
#[derive(Debug, Clone, Copy, PartialEq, Eq, Structural)]
pub enum Role {
    /// The sender app.
    Publisher,
    /// The receiver page.
    Subscriber,
}

/// The two halves of a session description exchange.
#[derive(Debug, Clone, Copy, PartialEq, Eq, Structural)]
pub enum SdpKind {
    Offer,
    Answer,
}

/// Why the relay refuses a peer.
#[derive(Debug, Clone, Copy, PartialEq, Eq, Structural)]
pub enum ErrorCode {
    VersionMismatch,
    RoomFull,
    RoomNotFound,
    InvalidMessage,
    Internal,
}

/// Opaque peer identifier minted by the relay on join.
#[derive(Debug, Clone, Copy, PartialEq, Eq, Structural, Hash)]
pub struct PeerId(pub u64);

/// Short, human-friendly room identifier that the relay generates.
#[derive(Debug, Hash)]
pub struct RoomCode(pub String);

/// A peer as the others see it.
#[derive(Debug, Clone, Copy, PartialEq, Eq, Structural)]
pub struct PeerInfo {
    pub peer_id: PeerId,
    pub role: Role,
}

/// An ICE server in the shape of the W3C `RTCIceServer` dictionary.
#[derive(Debug)]
pub struct IceServer {
    pub urls: Vec<String>,
    pub username: Option<String>,
    pub credential: Option<String>,
}

/// What a peer is told of its room when it joins.
#[derive(Debug)]
pub struct RoomState {
    pub code: RoomCode,
    pub peers: Vec<PeerInfo>,
    /// The ICE servers that the relay wants this peer to use.
    pub ice_servers: Vec<IceServer>,
}

/// The messages of the protocol, for both directions.
#[derive(Debug)]
pub enum Message {
    /// First message of a peer.
    Hello { protocol_version: u32, role: Role, room: RoomCode },
    /// The relay's acknowledgement of `Hello`.
    Welcome { peer_id: PeerId, room_state: RoomState },
    /// Session description routed through the relay. The sending peer sets
    /// `to`; the relay sets `from` after the connection it came in on.
    Sdp { kind: SdpKind, sdp: String, from: Option<PeerId>, to: Option<PeerId> },
    /// ICE candidate, routed likewise.
    IceCandidate { candidate: String, from: Option<PeerId>, to: Option<PeerId> },
    /// Someone joined the room.
    PeerJoined { peer: PeerInfo },
    /// Someone left the room.
    PeerLeft { peer_id: PeerId },
    /// Connection-level error from the relay.
    Error { code: ErrorCode, detail: String },
    /// Liveness check.
    Ping { nonce: u64 },
    /// Answer to a liveness check.
    Pong { nonce: u64 },
}

/// A payload with its sequence number.
#[derive(Debug)]
pub struct Envelope {
    pub seq: u64,
    pub msg: Message,
}

/// The response to a request for a new room.
#[derive(Debug)]
pub struct NewRoomResponse {
    pub code: String,
}

/// What an optional string holds.
pub open spec fn optional_text(s: Option<String>) -> Option<Seq<char>> {
    match s {
        Some(t) => Some(t@),
        None => None,
    }
}

/// The content of an [`IceServer`].
#[verifier::ext_equal]
pub struct IceServerView {
    pub urls: Seq<Seq<char>>,
    pub username: Option<Seq<char>>,
    pub credential: Option<Seq<char>>,
}

impl View for IceServer {
    type V = IceServerView;

    open spec fn view(&self) -> IceServerView {
        IceServerView {
            urls: texts(self.urls@),
            username: optional_text(self.username),
            credential: optional_text(self.credential),
        }
    }
}

/// The contents of a sequence of ICE servers.
pub open spec fn ice_views(v: Seq<IceServer>) -> Seq<IceServerView> {
    Seq::new(v.len(), |i: int| v[i]@)
}

/// The content of a [`RoomState`].
#[verifier::ext_equal]
pub struct RoomStateView {
    pub code: Seq<char>,
    pub peers: Seq<PeerInfo>,
    pub ice_servers: Seq<IceServerView>,
}

impl View for RoomState {
    type V = RoomStateView;

    open spec fn view(&self) -> RoomStateView {
        RoomStateView {
            code: self.code@,
            peers: self.peers@,
            ice_servers: ice_views(self.ice_servers@),
        }
    }
}

/// The content of a [`Message`].
#[verifier::ext_equal]
pub enum MessageView {
    Hello { protocol_version: u32, role: Role, room: Seq<char> },
    Welcome { peer_id: PeerId, room_state: RoomStateView },
    Sdp { kind: SdpKind, sdp: Seq<char>, from: Option<PeerId>, to: Option<PeerId> },
    IceCandidate { candidate: Seq<char>, from: Option<PeerId>, to: Option<PeerId> },
    PeerJoined { peer: PeerInfo },
    PeerLeft { peer_id: PeerId },
    Error { code: ErrorCode, detail: Seq<char> },
    Ping { nonce: u64 },
    Pong { nonce: u64 },
}

impl View for Message {
    type V = MessageView;

    open spec fn view(&self) -> MessageView {
        match *self {
            Message::Hello { protocol_version, role, room } => MessageView::Hello {
                protocol_version,
                role,
                room: room@,
            },
            Message::Welcome { peer_id, room_state } => MessageView::Welcome {
                peer_id,
                room_state: room_state@,
            },
            Message::Sdp { kind, sdp, from, to } => MessageView::Sdp { kind, sdp: sdp@, from, to },
            Message::IceCandidate { candidate, from, to } => MessageView::IceCandidate {
                candidate: candidate@,
                from,
                to,
            },
            Message::PeerJoined { peer } => MessageView::PeerJoined { peer },
            Message::PeerLeft { peer_id } => MessageView::PeerLeft { peer_id },
            Message::Error { code, detail } => MessageView::Error { code, detail: detail@ },
            Message::Ping { nonce } => MessageView::Ping { nonce },
            Message::Pong { nonce } => MessageView::Pong { nonce },
        }
    }
}

/// The content of an [`Envelope`].
#[verifier::ext_equal]
pub struct EnvelopeView {
    pub seq: u64,
    pub msg: MessageView,
}

impl View for Envelope {
    type V = EnvelopeView;

    open spec fn view(&self) -> EnvelopeView {
        EnvelopeView { seq: self.seq, msg: self.msg@ }
    }
}

impl View for RoomCode {
    type V = Seq<char>;

    open spec fn view(&self) -> Seq<char> {
        self.0@
    }
}

impl RoomCode {
    /// The code's letters.
    pub fn as_str(&self) -> (res: &str)
        ensures
            res@ == self@,
    {
        self.0.as_str()
    }
}

impl Clone for RoomCode {
    fn clone(&self) -> (res: Self)
        ensures
            res@ == self@,
    {
        RoomCode(self.0.clone())
    }
}

impl PartialEq for RoomCode {
    fn eq(&self, other: &Self) -> (res: bool) {
        self.0 == other.0
    }
}

impl vstd::std_specs::cmp::PartialEqSpecImpl for RoomCode {
    open spec fn obeys_eq_spec() -> bool {
        true
    }

    open spec fn eq_spec(&self, other: &Self) -> bool {
        self@ == other@
    }
}

impl Eq for RoomCode {

}

/// A copy of a list of strings.
pub fn clone_texts(v: &Vec<String>) -> (res: Vec<String>)
    ensures
        texts(res@) == texts(v@),
{
    let mut out: Vec<String> = Vec::new();
    let len: usize = v.len();
    let mut i: usize = 0;
    while i < len
        invariant
            i <= len,
            len == v@.len(),
            texts(out@) == texts(v@).take(i as int),
        decreases len - i,
    {
        let ghost was = out@;
        let item = v[i].clone();
        out.push(item);
        assert(texts(out@) =~= texts(was).push(item@));
        assert(texts(v@).take(i + 1) =~= texts(v@).take(i as int).push(v@[i as int]@));
        i += 1;
    }
    assert(texts(v@).take(len as int) =~= texts(v@));
    out
}

/// A copy of an optional string.
pub fn clone_optional_text(s: &Option<String>) -> (res: Option<String>)
    ensures
        optional_text(res) == optional_text(*s),
{
    match s {
        Some(t) => Some(t.clone()),
        None => None,
    }
}

impl Clone for IceServer {
    fn clone(&self) -> (res: Self)
        ensures
            res@ == self@,
    {
        IceServer {
            urls: clone_texts(&self.urls),
            username: clone_optional_text(&self.username),
            credential: clone_optional_text(&self.credential),
        }
    }
}

/// A copy of a list of ICE servers.
pub fn clone_ice_servers(v: &Vec<IceServer>) -> (res: Vec<IceServer>)
    ensures
        ice_views(res@) == ice_views(v@),
{
    let mut out: Vec<IceServer> = Vec::new();
    let len: usize = v.len();
    let mut i: usize = 0;
    while i < len
        invariant
            i <= len,
            len == v@.len(),
            ice_views(out@) == ice_views(v@).take(i as int),
        decreases len - i,
    {
        let ghost was = out@;
        let item = v[i].clone();
        out.push(item);
        assert(ice_views(out@) =~= ice_views(was).push(item@));
        assert(ice_views(v@).take(i + 1) =~= ice_views(v@).take(i as int).push(v@[i as int]@));
        i += 1;
    }
    assert(ice_views(v@).take(len as int) =~= ice_views(v@));
    out
}

/// A copy of a list of peers.
fn clone_peers(v: &Vec<PeerInfo>) -> (res: Vec<PeerInfo>)
    ensures
        res@ == v@,
{
    let mut out: Vec<PeerInfo> = Vec::new();
    let len: usize = v.len();
    let mut i: usize = 0;
    while i < len
        invariant
            i <= len,
            len == v@.len(),
            out@ == v@.take(i as int),
        decreases len - i,
    {
        out.push(v[i]);
        assert(v@.take(i + 1) =~= v@.take(i as int).push(v@[i as int]));
        i += 1;
    }
    assert(v@.take(len as int) =~= v@);
    out
}

impl Clone for RoomState {
    fn clone(&self) -> (res: Self)
        ensures
            res@ == self@,
    {
        RoomState {
            code: self.code.clone(),
            peers: clone_peers(&self.peers),
            ice_servers: clone_ice_servers(&self.ice_servers),
        }
    }
}

impl Clone for Message {
    fn clone(&self) -> (res: Self)
        ensures
            res@ == self@,
    {
        match self {
            Message::Hello { protocol_version, role, room } => Message::Hello {
                protocol_version: *protocol_version,
                role: *role,
                room: room.clone(),
            },
            Message::Welcome { peer_id, room_state } => Message::Welcome {
                peer_id: *peer_id,
                room_state: room_state.clone(),
            },
            Message::Sdp { kind, sdp, from, to } => Message::Sdp {
                kind: *kind,
                sdp: sdp.clone(),
                from: *from,
                to: *to,
            },
            Message::IceCandidate { candidate, from, to } => Message::IceCandidate {
                candidate: candidate.clone(),
                from: *from,
                to: *to,
            },
            Message::PeerJoined { peer } => Message::PeerJoined { peer: *peer },
            Message::PeerLeft { peer_id } => Message::PeerLeft { peer_id: *peer_id },
            Message::Error { code, detail } => Message::Error {
                code: *code,
                detail: detail.clone(),
            },
            Message::Ping { nonce } => Message::Ping { nonce: *nonce },
            Message::Pong { nonce } => Message::Pong { nonce: *nonce },
        }
    }
}

impl Clone for Envelope {
    fn clone(&self) -> (res: Self)
        ensures
            res@ == self@,
    {
        Envelope { seq: self.seq, msg: self.msg.clone() }
    }
}

/// The consonants of room codes.
pub open spec fn consonants() -> Seq<char> {
    "bcdfghjklmnpqrstvwxz"@
}

/// The vowels of room codes.
pub open spec fn vowels() -> Seq<char> {
    "aeiouy"@
}

/// Byte `i` of a word, the lowest first.
pub open spec fn word_byte(word: u64, i: int) -> int {
    (word >> ((8 * i) as u64) & 0xff) as int
}

/// The room code of a word: six letters, consonants and vowels in turn, each
/// picked by a byte of the word.
pub open spec fn room_code(word: u64) -> Seq<char> {
    Seq::new(
        6,
        |i: int|
            if i % 2 == 0 {
                consonants()[word_byte(word, i) % 20]
            } else {
                vowels()[word_byte(word, i) % 6]
            },
    )
}

/// The room code of a word.
pub fn room_code_of(word: u64) -> (res: RoomCode)
    ensures
        res@ == room_code(word),
{
    let cons = "bcdfghjklmnpqrstvwxz";
    let vows = "aeiouy";
    proof {
        reveal_strlit("bcdfghjklmnpqrstvwxz");
        reveal_strlit("aeiouy");
    }
    let mut s = String::new();
    let mut i: u64 = 0;
    while i < 6
        invariant
            i <= 6,
            cons@ == consonants(),
            vows@ == vowels(),
            consonants().len() == 20,
            vowels().len() == 6,
            s@ == room_code(word).take(i as int),
        decreases 6 - i,
    {
        let shifted: u64 = word >> (8 * i);
        assert(shifted & 0xff <= 0xff) by (bit_vector);
        let byte: usize = (shifted & 0xff) as usize;
        let c = if i % 2 == 0 {
            cons.get_char(byte % 20)
        } else {
            vows.get_char(byte % 6)
        };
        s.push(c);
        assert(room_code(word).take(i + 1) =~= room_code(word).take(i as int).push(
            room_code(word)[i as int],
        ));
        i += 1;
    }
    assert(room_code(word).take(6) =~= room_code(word));
    RoomCode(s)
}

/// The room code of one draw. Its type lets the source be drawn from once only.
pub fn room_code_drawn(draw: impl FnOnce() -> u64) -> (res: RoomCode)
    requires
        call_requires(draw, ()),
    ensures
        exists|word: u64| call_ensures(draw, (), word) && res@ == #[trigger] room_code(word),
{
    let word = draw();
    room_code_of(word)
}

/// Generates a short, lowercase room code in which consonants and vowels take
/// turns, from one word of `rng`. Not cryptographic: whoever inserts it checks
/// for collisions.
pub fn generate_room_code(rng: &mut impl FnMut() -> u64) -> (res: RoomCode)
    requires
        call_requires(*old(rng), ()),
    ensures
        exists|word: u64| call_ensures(*old(rng), (), word) && res@ == #[trigger] room_code(word),
{
    room_code_drawn(rng)
}

/// A room code has six letters, all of them lowercase.
pub proof fn law_room_code_is_six_lowercase_letters(word: u64)
    ensures
        room_code(word).len() == 6,
        forall|i: int| 0 <= i < 6 ==> 'a' <= #[trigger] room_code(word)[i] <= 'z',
{
    reveal_strlit("bcdfghjklmnpqrstvwxz");
    reveal_strlit("aeiouy");
}

/// A room code depends on the low six bytes of its word alone.
pub proof fn law_room_code_is_of_the_low_bytes(a: u64, b: u64)
    requires
        a & 0xffff_ffff_ffff == b & 0xffff_ffff_ffff,
    ensures
        room_code(a) == room_code(b),
{
    assert(a >> 0 & 0xff == b >> 0 & 0xff && a >> 8 & 0xff == b >> 8 & 0xff && a >> 16 & 0xff == b
        >> 16 & 0xff && a >> 24 & 0xff == b >> 24 & 0xff && a >> 32 & 0xff == b >> 32 & 0xff && a
        >> 40 & 0xff == b >> 40 & 0xff) by (bit_vector)
        requires
            a & 0xffff_ffff_ffff == b & 0xffff_ffff_ffff,
    ;
    assert forall|i: int| 0 <= i < 6 implies #[trigger] word_byte(a, i) == word_byte(b, i) by {
        assert(i == 0 || i == 1 || i == 2 || i == 3 || i == 4 || i == 5);
    }
    assert(room_code(a) =~= room_code(b));
}

/// How many numbers the room codes have: the ways to pick three of twenty
/// consonants and three of six vowels.
pub const ROOM_CODES: u64 = 1_728_000;

/// The room codes, numbered from zero.
pub open spec fn numbered_code(n: nat) -> Seq<char> {
    seq![
        consonants()[n as int % 20],
        vowels()[n as int / 20 % 6],
        consonants()[n as int / 120 % 20],
        vowels()[n as int / 2_400 % 6],
        consonants()[n as int / 14_400 % 20],
        vowels()[n as int / 288_000 % 6],
    ]
}

/// A word with the room code of a number.
pub fn numbered_word(n: u64) -> (res: u64)
    ensures
        room_code(res) == numbered_code(n as nat),
{
    let a: u64 = n % 20;
    let b: u64 = n / 20 % 6;
    let c: u64 = n / 120 % 20;
    let d: u64 = n / 2_400 % 6;
    let e: u64 = n / 14_400 % 20;
    let f: u64 = n / 288_000 % 6;
    let word: u64 = a | (b << 8) | (c << 16) | (d << 24) | (e << 32) | (f << 40);
    assert(word >> 0 & 0xff == a && word >> 8 & 0xff == b && word >> 16 & 0xff == c && word >> 24
        & 0xff == d && word >> 32 & 0xff == e && word >> 40 & 0xff == f) by (bit_vector)
        requires
            a < 20,
            b < 6,
            c < 20,
            d < 6,
            e < 20,
            f < 6,
            word == a | (b << 8) | (c << 16) | (d << 24) | (e << 32) | (f << 40),
    ;
    assert(room_code(word) =~= numbered_code(n as nat));
    word
}

/// A digit of a number that is written out in digits.
proof fn lemma_digit(n: int, unit: int, base: int, above: int, digit: int, below: int)
    requires
        n == (above * base + digit) * unit + below,
        0 <= below < unit,
        0 <= digit < base,
    ensures
        n / unit % base == digit,
{
    lemma_fundamental_div_mod_converse(n, unit, above * base + digit, below);
    lemma_fundamental_div_mod_converse(above * base + digit, base, above, digit);
}

/// Every room code has a number.
pub proof fn law_room_codes_are_numbered(word: u64)
    ensures
        exists|n: nat| n < ROOM_CODES && room_code(word) == #[trigger] numbered_code(n),
{
    assert forall|i: int| 0 <= i < 6 implies 0 <= #[trigger] word_byte(word, i) by {}
    let a = word_byte(word, 0) % 20;
    let b = word_byte(word, 1) % 6;
    let c = word_byte(word, 2) % 20;
    let d = word_byte(word, 3) % 6;
    let e = word_byte(word, 4) % 20;
    let f = word_byte(word, 5) % 6;
    let n = (a + 20 * b + 120 * c + 2_400 * d + 14_400 * e + 288_000 * f) as nat;
    lemma_digit(n as int, 1, 20, b + 6 * c + 120 * d + 720 * e + 14_400 * f, a, 0);
    lemma_digit(n as int, 20, 6, c + 20 * d + 120 * e + 2_400 * f, b, a);
    lemma_digit(n as int, 120, 20, d + 6 * e + 120 * f, c, a + 20 * b);
    lemma_digit(n as int, 2_400, 6, e + 20 * f, d, a + 20 * b + 120 * c);
    lemma_digit(n as int, 14_400, 20, f, e, a + 20 * b + 120 * c + 2_400 * d);
    lemma_digit(n as int, 288_000, 6, 0, f, a + 20 * b + 120 * c + 2_400 * d + 14_400 * e);
    assert(room_code(word) =~= numbered_code(n));
}

/// The letters of room codes stand in the order of the alphabet, so no two are equal.
proof fn lemma_letters_differ(i: int, j: int)
    ensures
        consonants().len() == 20,
        vowels().len() == 6,
        0 <= i < j < 20 ==> consonants()[i] < consonants()[j],
        0 <= i < j < 6 ==> vowels()[i] < vowels()[j],
    decreases j - i,
{
    reveal_strlit("bcdfghjklmnpqrstvwxz");
    reveal_strlit("aeiouy");
    if i + 1 < j {
        lemma_letters_differ(i, j - 1);
        lemma_letters_differ(j - 1, j);
    } else if 0 <= i && j == i + 1 && j < 20 {
        assert(i == 0 || i == 1 || i == 2 || i == 3 || i == 4 || i == 5 || i == 6 || i == 7 || i == 8
            || i == 9 || i == 10 || i == 11 || i == 12 || i == 13 || i == 14 || i == 15 || i == 16
            || i == 17 || i == 18);
    }
}

/// Consonants and vowels take turns in a room code, and each letter tells its byte apart
/// from every other that does not leave the same remainder: of twenty for a consonant, of
/// six for a vowel. So two words have the same code exactly where all six bytes agree in
/// that.
pub proof fn law_room_codes_tell_words_apart(a: u64, b: u64)
    ensures
        forall|i: int|
            0 <= i < 6 ==> {
                let c = #[trigger] room_code(a)[i];
                (c == 'a' || c == 'e' || c == 'i' || c == 'o' || c == 'u' || c == 'y') <==> i % 2
                    == 1
            },
        room_code(a) == room_code(b) <==> {
            &&& (a >> 0 & 0xff) % 20 == (b >> 0 & 0xff) % 20
            &&& (a >> 8 & 0xff) % 6 == (b >> 8 & 0xff) % 6
            &&& (a >> 16 & 0xff) % 20 == (b >> 16 & 0xff) % 20
            &&& (a >> 24 & 0xff) % 6 == (b >> 24 & 0xff) % 6
            &&& (a >> 32 & 0xff) % 20 == (b >> 32 & 0xff) % 20
            &&& (a >> 40 & 0xff) % 6 == (b >> 40 & 0xff) % 6
        },
{
    let bytes = |w: u64| seq![
        (w >> 0 & 0xff) as int,
        (w >> 8 & 0xff) as int,
        (w >> 16 & 0xff) as int,
        (w >> 24 & 0xff) as int,
        (w >> 32 & 0xff) as int,
        (w >> 40 & 0xff) as int,
    ];
    assert forall|w: u64, i: int| 0 <= i < 6 implies #[trigger] word_byte(w, i) == bytes(w)[i]
        && 0 <= bytes(w)[i] by {
        assert(i == 0 || i == 1 || i == 2 || i == 3 || i == 4 || i == 5);
    }
    lemma_letters_differ(0, 1);
    assert forall|i: int| 0 <= i < 6 implies {
        let c = #[trigger] room_code(a)[i];
        (c == 'a' || c == 'e' || c == 'i' || c == 'o' || c == 'u' || c == 'y') <==> i % 2 == 1
    } by {
        let k = if i % 2 == 0 {
            word_byte(a, i) % 20
        } else {
            word_byte(a, i) % 6
        };
        lemma_letter_kinds(k);
    }
    assert forall|i: int| 0 <= i < 6 implies (#[trigger] room_code(a)[i] == room_code(b)[i] <==> if i
        % 2 == 0 {
        word_byte(a, i) % 20 == word_byte(b, i) % 20
    } else {
        word_byte(a, i) % 6 == word_byte(b, i) % 6
    }) by {
        let (m, n) = if i % 2 == 0 {
            (word_byte(a, i) % 20, word_byte(b, i) % 20)
        } else {
            (word_byte(a, i) % 6, word_byte(b, i) % 6)
        };
        lemma_letters_differ(m, n);
        lemma_letters_differ(n, m);
    }
    if room_code(a) == room_code(b) {
        assert(room_code(a)[0] == room_code(b)[0]);
        assert(room_code(a)[1] == room_code(b)[1]);
        assert(room_code(a)[2] == room_code(b)[2]);
        assert(room_code(a)[3] == room_code(b)[3]);
        assert(room_code(a)[4] == room_code(b)[4]);
        assert(room_code(a)[5] == room_code(b)[5]);
    } else if (a >> 0 & 0xff) % 20 == (b >> 0 & 0xff) % 20 && (a >> 8 & 0xff) % 6 == (b >> 8 & 0xff)
        % 6 && (a >> 16 & 0xff) % 20 == (b >> 16 & 0xff) % 20 && (a >> 24 & 0xff) % 6 == (b >> 24
        & 0xff) % 6 && (a >> 32 & 0xff) % 20 == (b >> 32 & 0xff) % 20 && (a >> 40 & 0xff) % 6 == (b
        >> 40 & 0xff) % 6 {
        assert forall|i: int| 0 <= i < 6 implies room_code(a)[i] == room_code(b)[i] by {
            assert(i == 0 || i == 1 || i == 2 || i == 3 || i == 4 || i == 5);
            assert(word_byte(a, i) == bytes(a)[i] && word_byte(b, i) == bytes(b)[i]);
        }
        assert(room_code(a) =~= room_code(b));
    }
}

/// The vowels are vowels, and the consonants are none.
proof fn lemma_letter_kinds(k: int)
    requires
        0 <= k,
    ensures
        ({
            let is_vowel = |c: char|
                c == 'a' || c == 'e' || c == 'i' || c == 'o' || c == 'u' || c == 'y';
            &&& k < 20 ==> !is_vowel(consonants()[k])
            &&& k < 6 ==> is_vowel(vowels()[k])
        }),
{
    reveal_strlit("bcdfghjklmnpqrstvwxz");
    reveal_strlit("aeiouy");
    if k < 20 {
        assert(k == 0 || k == 1 || k == 2 || k == 3 || k == 4 || k == 5 || k == 6 || k == 7 || k == 8
            || k == 9 || k == 10 || k == 11 || k == 12 || k == 13 || k == 14 || k == 15 || k == 16
            || k == 17 || k == 18 || k == 19);
    }
}

/// The contents of a list of ICE servers are those of each, in their order, and an optional
/// text is the text where there is one.
pub proof fn law_contents(v: Seq<IceServer>, i: int, s: String)
    requires
        0 <= i < v.len(),
    ensures
        ice_views(v).len() == v.len(),
        ice_views(v)[i].urls == texts(v[i].urls@),
        ice_views(v)[i].username == optional_text(v[i].username),
        ice_views(v)[i].credential == optional_text(v[i].credential),
        optional_text(Some(s)) == Some(s@),
        optional_text(None) is None,
{
}

/// A code drawn is the code of the word that was drawn: six letters, consonants and vowels in
/// turn, told by the low six bytes of the word alone.
pub proof fn law_coding(a: u64, b: u64, first: RoomCode, second: RoomCode, text: &str, i: int)
    requires
        call_ensures(room_code_of, (a,), first),
        call_ensures(room_code_of, (b,), second),
        call_ensures(RoomCode::as_str, (&first,), text),
        0 <= i < 6,
    ensures
        text@ == first@,
        text@.len() == 6,
        'a' <= text@[i] <= 'z',
        ({
            let c = text@[i];
            (c == 'a' || c == 'e' || c == 'i' || c == 'o' || c == 'u' || c == 'y') <==> i % 2 == 1
        }),
        first@ == second@ <==> {
            &&& (a >> 0 & 0xff) % 20 == (b >> 0 & 0xff) % 20
            &&& (a >> 8 & 0xff) % 6 == (b >> 8 & 0xff) % 6
            &&& (a >> 16 & 0xff) % 20 == (b >> 16 & 0xff) % 20
            &&& (a >> 24 & 0xff) % 6 == (b >> 24 & 0xff) % 6
            &&& (a >> 32 & 0xff) % 20 == (b >> 32 & 0xff) % 20
            &&& (a >> 40 & 0xff) % 6 == (b >> 40 & 0xff) % 6
        },
{
    law_room_codes_tell_words_apart(a, b);
    law_room_code_is_six_lowercase_letters(a);
}

/// Copies hold what is copied.
pub proof fn law_copying(
    texts_in: Vec<String>,
    texts_out: Vec<String>,
    text_in: Option<String>,
    text_out: Option<String>,
    servers_in: Vec<IceServer>,
    servers_out: Vec<IceServer>,
    i: int,
)
    requires
        call_ensures(clone_texts, (&texts_in,), texts_out),
        call_ensures(clone_optional_text, (&text_in,), text_out),
        call_ensures(clone_ice_servers, (&servers_in,), servers_out),
    ensures
        texts_out@.len() == texts_in@.len(),
        0 <= i < texts_in@.len() ==> texts_out@[i]@ == texts_in@[i]@,
        text_out is Some <==> text_in is Some,
        text_in is Some ==> text_out->0@ == text_in->0@,
        servers_out@.len() == servers_in@.len(),
        0 <= i < servers_in@.len() ==> servers_out@[i]@ == servers_in@[i]@,
{
    assert(texts(texts_out@).len() == texts(texts_in@).len());
    assert(ice_views(servers_out@).len() == ice_views(servers_in@).len());
    if 0 <= i < texts_in@.len() {
        assert(texts(texts_out@)[i] == texts(texts_in@)[i]);
    }
    if 0 <= i < servers_in@.len() {
        assert(ice_views(servers_out@)[i] == ice_views(servers_in@)[i]);
    }
}

} // verus!
