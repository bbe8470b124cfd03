//! Room registry: in memory, no persistence. Rooms hold the peers connected
//! to them. The relay only routes signaling messages, so what a room has to
//! say is a list of deliveries.

use std::collections::HashMap;

use vstd::prelude::*;

use crate::protocol::{law_room_codes_are_numbered, numbered_code, numbered_word, room_code,
    room_code_of, Envelope, EnvelopeView, PeerId, PeerInfo, Role, RoomCode, ROOM_CODES};

verus! {

broadcast use vstd::std_specs::hash::group_hash_axioms;

/// A peer that is connected to a room.
#[derive(Debug, Clone, Copy, PartialEq, Eq, Structural)]
pub struct Peer {
    pub id: PeerId,
    pub role: Role,
}

impl Peer {
    /// The peer as the others see it.
    pub fn info(&self) -> (res: PeerInfo)
        ensures
            res.peer_id == self.id,
            res.role == self.role,
    {
        PeerInfo { peer_id: self.id, role: self.role }
    }
}

/// An envelope on its way to a peer.
#[derive(Debug)]
pub struct Delivery {
    pub to: PeerId,
    pub envelope: Envelope,
}

/// The role of each peer of a room, by its identifier.
pub type Members = Map<u64, Role>;

/// Whether `infos` holds each member once and nobody else, in whatever order.
pub open spec fn lists(members: Members, infos: Seq<PeerInfo>) -> bool {
    &&& infos.no_duplicates()
    &&& forall|info: PeerInfo|
        #[trigger] infos.contains(info) <==> members.contains_key(info.peer_id.0)
            && members[info.peer_id.0] == info.role
}

/// Where deliveries go.
pub open spec fn addressees(deliveries: Seq<Delivery>) -> Seq<u64> {
    Seq::new(deliveries.len(), |i: int| deliveries[i].to.0)
}

/// Whether each of `members` gets `envelope` once and nobody else gets
/// anything, in whatever order.
pub open spec fn reaches(
    members: Members,
    envelope: EnvelopeView,
    deliveries: Seq<Delivery>,
) -> bool {
    &&& addressees(deliveries).no_duplicates()
    &&& forall|id: u64| #[trigger]
        addressees(deliveries).contains(id) <==> members.contains_key(id)
    &&& forall|i: int|
        0 <= i < deliveries.len() ==> (#[trigger] deliveries[i]).envelope@ == envelope
}

/// The peers that share a code.
pub struct Room {
    pub code: RoomCode,
    pub peers: HashMap<u64, Role>,
}

/// The content of a [`Room`].
#[verifier::ext_equal]
pub struct RoomView {
    pub code: Seq<char>,
    pub peers: Members,
}

impl View for Room {
    type V = RoomView;

    open spec fn view(&self) -> RoomView {
        RoomView { code: self.code@, peers: self.peers@ }
    }
}

impl Room {
    /// A room without peers.
    pub fn new(code: RoomCode) -> (res: Self)
        ensures
            res@ == (RoomView { code: code@, peers: Map::empty() }),
    {
        Room { code, peers: HashMap::new() }
    }

    /// Registers a peer.
    pub fn insert(&mut self, peer: Peer)
        ensures
            final(self)@ == (RoomView {
                code: old(self)@.code,
                peers: old(self)@.peers.insert(peer.id.0, peer.role),
            }),
    {
        self.peers.insert(peer.id.0, peer.role);
    }

    /// Forgets a peer.
    pub fn remove(&mut self, id: PeerId)
        ensures
            final(self)@ == (RoomView {
                code: old(self)@.code,
                peers: old(self)@.peers.remove(id.0),
            }),
    {
        self.peers.remove(&id.0);
    }

    /// Whether no peer is connected.
    pub fn is_empty(&self) -> (res: bool)
        ensures
            res == (self@.peers == Map::<u64, Role>::empty()),
    {
        let res = self.peers.is_empty();
        proof {
            if res {
                assert(self.peers@ =~= Map::empty());
            }
        }
        res
    }

    /// Deliveries of `env` to every peer but one.
    pub fn broadcast_except(&self, except: PeerId, env: &Envelope) -> (res: Vec<Delivery>)
        ensures
            reaches(self@.peers.remove(except.0), env@, res@),
    {
        let mut out: Vec<Delivery> = Vec::new();
        let ghost others = self.peers@.remove(except.0);
        for entry in it: self.peers.iter()
            invariant
                others == self.peers@.remove(except.0),
                it.seq().no_duplicates(),
                forall|i: int|
                    0 <= i < it.seq().len() ==> self.peers@.contains_key(
                        *(#[trigger] it.seq()[i]).0,
                    ) && self.peers@[*it.seq()[i].0] == *it.seq()[i].1,
                forall|k: u64| #[trigger]
                    self.peers@.contains_key(k) ==> it.seq().contains((&k, &self.peers@[k])),
                addressees(out@).no_duplicates(),
                forall|id: u64| #[trigger]
                    addressees(out@).contains(id) <==> id != except.0 && exists|i: int|
                        0 <= i < it.index() && *(#[trigger] it.seq()[i]).0 == id,
                forall|i: int| 0 <= i < out@.len() ==> (#[trigger] out@[i]).envelope@ == env@,
        {
            let (id, _) = entry;
            let ghost before = out@;
            let ghost n = it.index();
            assert(*it.seq()[n].0 == *id);
            if *id != except.0 {
                proof {
                    if addressees(before).contains(*id) {
                        let i = choose|i: int| 0 <= i < n && *(#[trigger] it.seq()[i]).0 == *id;
                        assert(it.seq()[i] == it.seq()[n]);
                        assert(false);
                    }
                }
                out.push(Delivery { to: PeerId(*id), envelope: env.clone() });
                proof {
                    assert(addressees(out@) =~= addressees(before).push(*id));
                    assert forall|k: u64| #[trigger] addressees(out@).contains(k) implies k
                        != except.0 && exists|i: int|
                        0 <= i < n + 1 && *(#[trigger] it.seq()[i]).0 == k by {
                        let j = choose|j: int| 0 <= j < addressees(out@).len() && addressees(out@)[j] == k;
                        if j < before.len() {
                            assert(addressees(before)[j] == k);
                            assert(addressees(before).contains(k));
                        } else {
                            assert(*it.seq()[n].0 == k);
                        }
                    }
                    assert forall|k: u64|
                        k != except.0 && exists|i: int|
                            0 <= i < n + 1 && *(#[trigger] it.seq()[i]).0 == k implies #[trigger] addressees(
                        out@,
                    ).contains(k) by {
                        let i = choose|i: int| 0 <= i < n + 1 && *(#[trigger] it.seq()[i]).0 == k;
                        if i < n {
                            assert(addressees(before).contains(k));
                            let j = choose|j: int| 0 <= j < addressees(before).len() && addressees(before)[j] == k;
                            assert(addressees(out@)[j] == k);
                        } else {
                            assert(addressees(out@)[before.len() as int] == k);
                        }
                    }
                }
            } else {
                proof {
                    assert forall|k: u64|
                        k != except.0 && exists|i: int|
                            0 <= i < n + 1 && *(#[trigger] it.seq()[i]).0 == k implies #[trigger] addressees(
                        out@,
                    ).contains(k) by {
                        let i = choose|i: int| 0 <= i < n + 1 && *(#[trigger] it.seq()[i]).0 == k;
                        assert(i < n);
                    }
                }
            }
        }
        out
    }

    /// The peers, each once, in no particular order.
    pub fn snapshot(&self) -> (res: Vec<PeerInfo>)
        ensures
            lists(self@.peers, res@),
    {
        let mut out: Vec<PeerInfo> = Vec::new();
        for entry in it: self.peers.iter()
            invariant
                it.seq().no_duplicates(),
                forall|i: int|
                    0 <= i < it.seq().len() ==> self.peers@.contains_key(
                        *(#[trigger] it.seq()[i]).0,
                    ) && self.peers@[*it.seq()[i].0] == *it.seq()[i].1,
                forall|k: u64| #[trigger]
                    self.peers@.contains_key(k) ==> it.seq().contains((&k, &self.peers@[k])),
                out@.len() == it.index(),
                forall|i: int|
                    #![trigger out@[i]]
                    #![trigger it.seq()[i]]
                    0 <= i < out@.len() ==> out@[i] == (PeerInfo {
                        peer_id: PeerId(*it.seq()[i].0),
                        role: *it.seq()[i].1,
                    }),
        {
            let (id, role) = entry;
            out.push(PeerInfo { peer_id: PeerId(*id), role: *role });
        }
        proof {
            assert forall|info: PeerInfo|
                self@.peers.contains_key(info.peer_id.0) && self@.peers[info.peer_id.0]
                    == info.role implies #[trigger] out@.contains(info) by {}
        }
        out
    }

    /// The address that deliveries to a peer go to. None if the peer is not in
    /// this room.
    pub fn peer_tx(&self, id: PeerId) -> (res: Option<PeerId>)
        ensures
            res == if self@.peers.contains_key(id.0) {
                Some(id)
            } else {
                None
            },
    {
        if self.peers.contains_key(&id.0) {
            Some(id)
        } else {
            None
        }
    }
}

/// The rooms of a registry by their codes, and the next peer identifier.
#[verifier::ext_equal]
pub struct RegistryView {
    pub rooms: Map<Seq<char>, Members>,
    pub next_peer_id: u64,
}

/// All rooms, each code once.
pub struct RoomRegistry {
    rooms: Vec<Room>,
    next_peer_id: u64,
}

/// Whether no two rooms share a code.
spec fn codes_differ(rooms: Seq<Room>) -> bool {
    forall|i: int, j: int|
        0 <= i < j < rooms.len() ==> (#[trigger] rooms[i])@.code != (#[trigger] rooms[j])@.code
}

/// Whether `i` is the place of the room with a code.
spec fn is_place(rooms: Seq<Room>, code: Seq<char>, i: int) -> bool {
    0 <= i < rooms.len() && rooms[i]@.code == code
}

/// The rooms by their codes.
spec fn by_code(rooms: Seq<Room>) -> Map<Seq<char>, Members> {
    Map::new(
        |code: Seq<char>| exists|i: int| is_place(rooms, code, i),
        |code: Seq<char>| rooms[choose|i: int| is_place(rooms, code, i)]@.peers,
    )
}

/// A room is found by its code.
proof fn lemma_by_code(rooms: Seq<Room>, i: int)
    requires
        codes_differ(rooms),
        0 <= i < rooms.len(),
    ensures
        by_code(rooms).contains_key(rooms[i]@.code),
        by_code(rooms)[rooms[i]@.code] == rooms[i]@.peers,
{
    let code = rooms[i]@.code;
    assert(is_place(rooms, code, i));
    let j = choose|j: int| is_place(rooms, code, j);
    assert(is_place(rooms, code, j));
    assert(j == i);
}

/// A map that holds the rooms and nothing else is the map of the rooms.
proof fn lemma_is_by_code(rooms: Seq<Room>, m: Map<Seq<char>, Members>)
    requires
        codes_differ(rooms),
        forall|i: int|
            0 <= i < rooms.len() ==> m.contains_key((#[trigger] rooms[i])@.code)
                && m[rooms[i]@.code] == rooms[i]@.peers,
        forall|code: Seq<char>| #[trigger]
            m.contains_key(code) ==> exists|i: int| is_place(rooms, code, i),
    ensures
        by_code(rooms) == m,
{
    assert forall|code: Seq<char>| #[trigger] by_code(rooms).contains_key(code) implies m.contains_key(
        code,
    ) && by_code(rooms)[code] == m[code] by {
        let i = choose|i: int| is_place(rooms, code, i);
        assert(is_place(rooms, code, i));
    }
    assert(by_code(rooms) =~= m);
}

impl View for RoomRegistry {
    type V = RegistryView;

    closed spec fn view(&self) -> RegistryView {
        RegistryView { rooms: by_code(self.rooms@), next_peer_id: self.next_peer_id }
    }
}

/// How many random codes are tried for a room.
pub const MAX_DRAWS: u64 = 10_000;

/// A word of the thread-local random generator, from `rand::random::<u64>`.
/// Nothing is claimed of the word.
#[verifier::external_body]
fn random_word() -> (res: u64) {
    rand::random::<u64>()
}

impl RegistryView {
    /// Whether every peer's identifier was minted before the next one, so that
    /// the next one is nobody's.
    pub open spec fn ids_below_next(&self) -> bool {
        forall|code: Seq<char>, id: u64|
            self.rooms.contains_key(code) && #[trigger] self.rooms[code].contains_key(id) ==> id
                < self.next_peer_id
    }

    /// The registry after an identifier was minted. The counter wraps.
    pub open spec fn minted(&self) -> RegistryView {
        RegistryView {
            rooms: self.rooms,
            next_peer_id: if self.next_peer_id == u64::MAX {
                0
            } else {
                (self.next_peer_id + 1) as u64
            },
        }
    }

    /// The members of a room; none where there is no such room.
    pub open spec fn members(&self, code: Seq<char>) -> Members {
        if self.rooms.contains_key(code) {
            self.rooms[code]
        } else {
            Map::empty()
        }
    }

    /// The registry with the members of a room replaced.
    pub open spec fn with_members(&self, code: Seq<char>, members: Members) -> RegistryView {
        RegistryView { rooms: self.rooms.insert(code, members), next_peer_id: self.next_peer_id }
    }

    /// The registry without a room if that room is empty.
    pub open spec fn collected(&self, code: Seq<char>) -> RegistryView {
        if self.rooms.contains_key(code) && self.rooms[code] == Map::<u64, Role>::empty() {
            RegistryView { rooms: self.rooms.remove(code), next_peer_id: self.next_peer_id }
        } else {
            *self
        }
    }
}

impl RoomRegistry {
    /// Whether no two rooms share a code.
    pub closed spec fn wf(&self) -> bool {
        codes_differ(self.rooms@)
    }

    /// A registry without rooms. Peers are numbered from one.
    pub fn new() -> (res: Self)
        ensures
            res.wf(),
            res@ == (RegistryView { rooms: Map::empty(), next_peer_id: 1 }),
            res@.ids_below_next(),
    {
        let res = RoomRegistry { rooms: Vec::new(), next_peer_id: 1 };
        proof {
            lemma_is_by_code(res.rooms@, Map::empty());
        }
        res
    }

    /// An identifier for a peer.
    pub fn mint_peer_id(&mut self) -> (res: PeerId)
        requires
            old(self).wf(),
        ensures
            final(self).wf(),
            res == PeerId(old(self)@.next_peer_id),
            final(self)@ == old(self)@.minted(),
    {
        let id = self.next_peer_id;
        self.next_peer_id = if id == u64::MAX {
            0
        } else {
            id + 1
        };
        PeerId(id)
    }

    /// The place of a room.
    fn place_of(&self, code: &RoomCode) -> (res: Option<usize>)
        requires
            self.wf(),
        ensures
            match res {
                Some(i) => is_place(self.rooms@, code@, i as int) && self@.rooms.contains_key(code@)
                    && self@.rooms[code@] == self.rooms@[i as int]@.peers,
                None => !self@.rooms.contains_key(code@) && forall|i: int|
                    !#[trigger] is_place(self.rooms@, code@, i),
            },
    {
        let len: usize = self.rooms.len();
        let mut i: usize = 0;
        while i < len
            invariant
                i <= len,
                len == self.rooms@.len(),
                self.wf(),
                forall|j: int| 0 <= j < i ==> !#[trigger] is_place(self.rooms@, code@, j),
            decreases len - i,
        {
            if self.rooms[i].code == *code {
                proof {
                    assert(is_place(self.rooms@, code@, i as int));
                    lemma_by_code(self.rooms@, i as int);
                }
                return Some(i);
            }
            i += 1;
        }
        None
    }

    /// The room with a code.
    pub fn get(&self, code: &RoomCode) -> (res: Option<&Room>)
        requires
            self.wf(),
        ensures
            match res {
                Some(room) => self@.rooms.contains_key(code@) && room@ == (RoomView {
                    code: code@,
                    peers: self@.rooms[code@],
                }),
                None => !self@.rooms.contains_key(code@),
            },
    {
        match self.place_of(code) {
            Some(i) => Some(&self.rooms[i]),
            None => None,
        }
    }

    /// Adds an empty room.
    fn add(&mut self, code: RoomCode)
        requires
            old(self).wf(),
            !old(self)@.rooms.contains_key(code@),
        ensures
            final(self).wf(),
            final(self)@ == old(self)@.with_members(code@, Map::empty()),
    {
        let ghost before = self.rooms@;
        let room = Room::new(code);
        self.rooms.push(room);
        proof {
            let rooms = self.rooms@;
            let m = by_code(before).insert(code@, Map::empty());
            assert forall|i: int| 0 <= i < before.len() implies (#[trigger] before[i])@.code
                != code@ by {
                lemma_by_code(before, i);
            }
            assert forall|i: int, j: int| 0 <= i < j < rooms.len() implies (
            #[trigger] rooms[i])@.code != (#[trigger] rooms[j])@.code by {
                assert(rooms[i] == before[i]);
                if j < before.len() {
                    assert(rooms[j] == before[j]);
                }
            }
            assert forall|i: int| 0 <= i < rooms.len() implies m.contains_key(
                (#[trigger] rooms[i])@.code,
            ) && m[rooms[i]@.code] == rooms[i]@.peers by {
                if i < before.len() {
                    assert(rooms[i] == before[i]);
                    lemma_by_code(before, i);
                }
            }
            assert forall|c: Seq<char>| #[trigger] m.contains_key(c) implies exists|i: int|
                is_place(rooms, c, i) by {
                if c == code@ {
                    assert(is_place(rooms, c, before.len() as int));
                } else {
                    let i = choose|i: int| is_place(before, c, i);
                    assert(rooms[i] == before[i]);
                    assert(is_place(rooms, c, i));
                }
            }
            lemma_is_by_code(rooms, m);
        }
    }

    /// Creates a room whose code comes from `word`. None if the code is taken.
    pub fn create_room_with(&mut self, word: u64) -> (res: Option<RoomCode>)
        requires
            old(self).wf(),
        ensures
            final(self).wf(),
            match res {
                Some(code) => code@ == room_code(word) && !old(self)@.rooms.contains_key(code@)
                    && final(self)@ == old(self)@.with_members(code@, Map::empty()),
                None => old(self)@.rooms.contains_key(room_code(word)) && final(self)@
                    == old(self)@,
            },
    {
        let code = room_code_of(word);
        match self.place_of(&code) {
            Some(_) => None,
            None => {
                self.add(code.clone());
                Some(code)
            },
        }
    }

    /// Creates a room under the first of all codes that is not taken. None if
    /// every code is taken.
    fn create_first_free(&mut self) -> (res: Option<RoomCode>)
        requires
            old(self).wf(),
        ensures
            final(self).wf(),
            match res {
                Some(code) => (exists|word: u64| code@ == #[trigger] room_code(word)) && !old(
                    self,
                )@.rooms.contains_key(code@) && final(self)@ == old(self)@.with_members(
                    code@,
                    Map::empty(),
                ),
                None => final(self)@ == old(self)@ && forall|word: u64|
                    old(self)@.rooms.contains_key(#[trigger] room_code(word)),
            },
    {
        let mut n: u64 = 0;
        while n < ROOM_CODES
            invariant
                n <= ROOM_CODES,
                self.wf(),
                self@ == old(self)@,
                forall|m: nat| m < n ==> old(self)@.rooms.contains_key(#[trigger] numbered_code(m)),
            decreases ROOM_CODES - n,
        {
            match self.create_room_with(numbered_word(n)) {
                Some(code) => {
                    return Some(code);
                },
                None => {},
            }
            n += 1;
        }
        proof {
            assert forall|word: u64| old(self)@.rooms.contains_key(#[trigger] room_code(word)) by {
                law_room_codes_are_numbered(word);
            }
        }
        None
    }

    /// Creates a room under a random code that is not taken. Where only taken
    /// codes come up, the room gets the first free one. None if every code is
    /// taken.
    pub fn create_room(&mut self) -> (res: Option<RoomCode>)
        requires
            old(self).wf(),
        ensures
            final(self).wf(),
            match res {
                Some(code) => (exists|word: u64| code@ == #[trigger] room_code(word)) && !old(
                    self,
                )@.rooms.contains_key(code@) && final(self)@ == old(self)@.with_members(
                    code@,
                    Map::empty(),
                ),
                None => final(self)@ == old(self)@ && forall|word: u64|
                    old(self)@.rooms.contains_key(#[trigger] room_code(word)),
            },
    {
        let mut draws: u64 = 0;
        while draws < MAX_DRAWS
            invariant
                self.wf(),
                self@ == old(self)@,
            decreases MAX_DRAWS - draws,
        {
            let word = random_word();
            match self.create_room_with(word) {
                Some(code) => {
                    return Some(code);
                },
                None => {},
            }
            draws += 1;
        }
        self.create_first_free()
    }

    /// Makes sure that there is a room with a code, and tells whether it had to
    /// be created. For a publisher that comes back after its room was
    /// collected: it still owns the code.
    pub fn get_or_resurrect(&mut self, code: &RoomCode) -> (res: bool)
        requires
            old(self).wf(),
        ensures
            final(self).wf(),
            res == !old(self)@.rooms.contains_key(code@),
            final(self)@ == old(self)@.with_members(code@, old(self)@.members(code@)),
    {
        match self.place_of(code) {
            Some(_) => {
                assert(self@.rooms.insert(code@, self@.rooms[code@]) =~= self@.rooms);
                false
            },
            None => {
                self.add(code.clone());
                true
            },
        }
    }

    /// Drops a room that has no peers.
    pub fn gc_if_empty(&mut self, code: &RoomCode)
        requires
            old(self).wf(),
        ensures
            final(self).wf(),
            final(self)@ == old(self)@.collected(code@),
    {
        match self.place_of(code) {
            Some(k) => {
                if self.rooms[k].is_empty() {
                    let ghost before = self.rooms@;
                    self.rooms.remove(k);
                    proof {
                        let rooms = self.rooms@;
                        let m = by_code(before).remove(code@);
                        assert forall|i: int| 0 <= i < rooms.len() implies #[trigger] rooms[i]
                            == before[if i < k {
                            i
                        } else {
                            i + 1
                        }] by {}
                        assert forall|i: int| 0 <= i < rooms.len() implies m.contains_key(
                            (#[trigger] rooms[i])@.code,
                        ) && m[rooms[i]@.code] == rooms[i]@.peers by {
                            let j = if i < k {
                                i
                            } else {
                                i + 1
                            };
                            assert(rooms[i] == before[j]);
                            lemma_by_code(before, j);
                            assert(before[k as int]@.code == code@);
                        }
                        assert forall|c: Seq<char>| #[trigger] m.contains_key(c) implies exists|
                            i: int,
                        | is_place(rooms, c, i) by {
                            let j = choose|j: int| is_place(before, c, j);
                            let i = if j < k {
                                j
                            } else {
                                j - 1
                            };
                            assert(rooms[i] == before[j]);
                            assert(is_place(rooms, c, i));
                        }
                        lemma_is_by_code(rooms, m);
                    }
                }
            },
            None => {},
        }
    }

    /// Registers a peer in a room.
    pub fn insert_peer(&mut self, code: &RoomCode, peer: Peer)
        requires
            old(self).wf(),
            old(self)@.rooms.contains_key(code@),
        ensures
            final(self).wf(),
            final(self)@ == old(self)@.with_members(
                code@,
                old(self)@.members(code@).insert(peer.id.0, peer.role),
            ),
    {
        if let Some(k) = self.place_of(code) {
            let ghost before = self.rooms@;
            self.rooms[k].insert(peer);
            proof {
                lemma_replaced(before, self.rooms@, k as int);
            }
        }
    }

    /// Forgets a peer of a room, if there is such a room.
    pub fn remove_peer(&mut self, code: &RoomCode, id: PeerId)
        requires
            old(self).wf(),
        ensures
            final(self).wf(),
            final(self)@ == if old(self)@.rooms.contains_key(code@) {
                old(self)@.with_members(code@, old(self)@.members(code@).remove(id.0))
            } else {
                old(self)@
            },
    {
        if let Some(k) = self.place_of(code) {
            let ghost before = self.rooms@;
            self.rooms[k].remove(id);
            proof {
                lemma_replaced(before, self.rooms@, k as int);
            }
        }
    }
}

/// Replacing the peers of one room replaces one entry of the map.
proof fn lemma_replaced(before: Seq<Room>, after: Seq<Room>, k: int)
    requires
        codes_differ(before),
        0 <= k < before.len(),
        after.len() == before.len(),
        after == before.update(k, after[k]),
        after[k]@.code == before[k]@.code,
    ensures
        codes_differ(after),
        by_code(after) == by_code(before).insert(before[k]@.code, after[k]@.peers),
{
    let m = by_code(before).insert(before[k]@.code, after[k]@.peers);
    assert forall|i: int| 0 <= i < after.len() implies (#[trigger] after[i])@.code
        == before[i]@.code by {}
    assert forall|i: int| 0 <= i < after.len() implies m.contains_key((#[trigger] after[i])@.code)
        && m[after[i]@.code] == after[i]@.peers by {
        lemma_by_code(before, i);
    }
    assert forall|c: Seq<char>| #[trigger] m.contains_key(c) implies exists|i: int|
        is_place(after, c, i) by {
        if c == before[k]@.code {
            assert(is_place(after, c, k));
        } else {
            let i = choose|i: int| is_place(before, c, i);
            assert(is_place(before, c, i));
            assert(is_place(after, c, i));
        }
    }
    lemma_is_by_code(after, m);
}

/// A call that changes a registry.
pub enum Call {
    /// [`RoomRegistry::mint_peer_id`].
    Mint,
    /// [`RoomRegistry::create_room`], under the code that the room got.
    Create(Seq<char>),
    /// [`RoomRegistry::get_or_resurrect`].
    Resurrect(Seq<char>),
    /// [`RoomRegistry::gc_if_empty`].
    Collect(Seq<char>),
    /// [`RoomRegistry::insert_peer`].
    Insert(Seq<char>, Peer),
    /// [`RoomRegistry::remove_peer`].
    Remove(Seq<char>, PeerId),
}

impl RegistryView {
    /// The registry after a call.
    pub open spec fn after(&self, call: Call) -> RegistryView {
        match call {
            Call::Mint => self.minted(),
            Call::Create(code) => self.with_members(code, Map::empty()),
            Call::Resurrect(code) => self.with_members(code, self.members(code)),
            Call::Collect(code) => self.collected(code),
            Call::Insert(code, peer) => self.with_members(
                code,
                self.members(code).insert(peer.id.0, peer.role),
            ),
            Call::Remove(code, id) => if self.rooms.contains_key(code) {
                self.with_members(code, self.members(code).remove(id.0))
            } else {
                *self
            },
        }
    }
}

/// A new registry after some calls.
pub open spec fn after_calls(calls: Seq<Call>) -> RegistryView
    decreases calls.len(),
{
    if calls.len() == 0 {
        RegistryView { rooms: Map::empty(), next_peer_id: 1 }
    } else {
        after_calls(calls.drop_last()).after(calls.last())
    }
}

/// The identifiers that a new registry hands out in some calls.
pub open spec fn minted_ids(calls: Seq<Call>) -> Seq<u64>
    decreases calls.len(),
{
    if calls.len() == 0 {
        Seq::empty()
    } else if calls.last() is Mint {
        minted_ids(calls.drop_last()).push(after_calls(calls.drop_last()).next_peer_id)
    } else {
        minted_ids(calls.drop_last())
    }
}

/// The counter is one ahead of the identifiers handed out, until it wraps.
proof fn lemma_minted_ids(calls: Seq<Call>)
    requires
        minted_ids(calls).len() <= u64::MAX,
    ensures
        forall|i: int| 0 <= i < minted_ids(calls).len() ==> #[trigger] minted_ids(calls)[i] == i + 1,
        after_calls(calls).next_peer_id == if minted_ids(calls).len() == u64::MAX {
            0
        } else {
            minted_ids(calls).len() + 1
        },
    decreases calls.len(),
{
    if calls.len() > 0 {
        lemma_minted_ids(calls.drop_last());
    }
}

/// The first identifier that a registry hands out is one, and each later one
/// is one more, whatever other calls stand between. So none is handed out
/// twice, not even where its peer has left, as long as the counter has not
/// wrapped.
pub proof fn law_ids_count_up(calls: Seq<Call>)
    requires
        minted_ids(calls).len() <= u64::MAX,
    ensures
        forall|i: int| 0 <= i < minted_ids(calls).len() ==> #[trigger] minted_ids(calls)[i] == i + 1,
        minted_ids(calls).no_duplicates(),
{
    lemma_minted_ids(calls);
}

/// Each call touches one room at most, and only minting moves the counter. What a room
/// is after a call:
/// a room that is created is empty, one that is brought back keeps who is in it, one that
/// is collected is gone where it was empty and stays where it was not, a peer that is
/// registered is in its room with its role, and one that is forgotten is not; all others
/// of the room stay.
pub proof fn law_calls_touch_one_room(view: RegistryView, code: Seq<char>, peer: Peer)
    ensures
        ({
            let after = view.after(Call::Create(code));
            &&& same_elsewhere(view, after, code)
            &&& after.rooms.contains_key(code)
            &&& forall|id: u64| !#[trigger] after.rooms[code].contains_key(id)
        }),
        ({
            let after = view.after(Call::Resurrect(code));
            &&& same_elsewhere(view, after, code)
            &&& after.rooms.contains_key(code)
            &&& view.rooms.contains_key(code) ==> after.rooms[code] == view.rooms[code]
            &&& !view.rooms.contains_key(code) ==> forall|id: u64|
                !#[trigger] after.rooms[code].contains_key(id)
        }),
        ({
            let after = view.after(Call::Collect(code));
            &&& same_elsewhere(view, after, code)
            &&& after.rooms.contains_key(code) <==> view.rooms.contains_key(code) && exists|id: u64|
                #[trigger] view.rooms[code].contains_key(id)
            &&& after.rooms.contains_key(code) ==> after.rooms[code] == view.rooms[code]
        }),
        view.rooms.contains_key(code) ==> ({
            let after = view.after(Call::Insert(code, peer));
            &&& same_elsewhere(view, after, code)
            &&& after.rooms.contains_key(code)
            &&& after.rooms[code].contains_key(peer.id.0)
            &&& after.rooms[code][peer.id.0] == peer.role
            &&& same_others(view.rooms[code], after.rooms[code], peer.id.0)
        }),
        view.rooms.contains_key(code) ==> ({
            let after = view.after(Call::Remove(code, peer.id));
            &&& same_elsewhere(view, after, code)
            &&& after.rooms.contains_key(code)
            &&& !after.rooms[code].contains_key(peer.id.0)
            &&& same_others(view.rooms[code], after.rooms[code], peer.id.0)
        }),
        !view.rooms.contains_key(code) ==> view.after(Call::Remove(code, peer.id)) == view,
        view.after(Call::Mint).rooms == view.rooms,
{
    if view.rooms.contains_key(code) {
        let members = view.rooms[code];
        if exists|id: u64| #[trigger] members.contains_key(id) {
            let id = choose|id: u64| #[trigger] members.contains_key(id);
            assert(members != Map::<u64, Role>::empty());
        } else {
            assert(members =~= Map::<u64, Role>::empty());
        }
    }
}

/// Whether only one room may differ, and the counter does not.
pub open spec fn same_elsewhere(a: RegistryView, b: RegistryView, code: Seq<char>) -> bool {
    &&& a.next_peer_id == b.next_peer_id
    &&& forall|other: Seq<char>|
        other != code ==> (#[trigger] b.rooms.contains_key(other) <==> a.rooms.contains_key(other))
            && (a.rooms.contains_key(other) ==> b.rooms[other] == a.rooms[other])
}

/// Whether only one peer may differ.
pub open spec fn same_others(a: Members, b: Members, id: u64) -> bool {
    forall|other: u64|
        other != id ==> (#[trigger] b.contains_key(other) <==> a.contains_key(other)) && (
        a.contains_key(other) ==> b[other] == a[other])
}

/// What reaches members reaches each of them once and nobody else, and all get the same.
pub proof fn law_reaching(members: Members, envelope: EnvelopeView, deliveries: Seq<Delivery>)
    requires
        reaches(members, envelope, deliveries),
    ensures
        forall|id: u64| #[trigger]
            members.contains_key(id) ==> exists|i: int|
                0 <= i < deliveries.len() && (#[trigger] deliveries[i]).to.0 == id,
        forall|i: int|
            0 <= i < deliveries.len() ==> members.contains_key((#[trigger] deliveries[i]).to.0)
                && deliveries[i].envelope@ == envelope,
        forall|i: int, j: int|
            0 <= i < j < deliveries.len() ==> (#[trigger] deliveries[i]).to != (
            #[trigger] deliveries[j]).to,
{
    let to = addressees(deliveries);
    assert forall|id: u64| #[trigger] members.contains_key(id) implies exists|i: int|
        0 <= i < deliveries.len() && (#[trigger] deliveries[i]).to.0 == id by {
        assert(to.contains(id));
        let i = choose|i: int| 0 <= i < to.len() && to[i] == id;
        assert(deliveries[i].to.0 == id);
    }
    assert forall|i: int| 0 <= i < deliveries.len() implies members.contains_key(
        (#[trigger] deliveries[i]).to.0,
    ) && deliveries[i].envelope@ == envelope by {
        assert(to[i] == deliveries[i].to.0);
        assert(to.contains(deliveries[i].to.0));
    }
    assert forall|i: int, j: int| 0 <= i < j < deliveries.len() implies (
    #[trigger] deliveries[i]).to != (#[trigger] deliveries[j]).to by {
        assert(to[i] != to[j]);
    }
}

/// What lists members names each of them once with its role, and nobody else.
pub proof fn law_listing(members: Members, infos: Seq<PeerInfo>)
    requires
        lists(members, infos),
    ensures
        forall|id: u64| #[trigger]
            members.contains_key(id) ==> infos.contains(
                PeerInfo { peer_id: PeerId(id), role: members[id] },
            ),
        forall|i: int|
            0 <= i < infos.len() ==> members.contains_key((#[trigger] infos[i]).peer_id.0)
                && members[infos[i].peer_id.0] == infos[i].role,
        forall|i: int, j: int|
            0 <= i < j < infos.len() ==> (#[trigger] infos[i]).peer_id != (
            #[trigger] infos[j]).peer_id,
{
    assert forall|i: int| 0 <= i < infos.len() implies members.contains_key(
        (#[trigger] infos[i]).peer_id.0,
    ) && members[infos[i].peer_id.0] == infos[i].role by {
        assert(infos.contains(infos[i]));
    }
    assert forall|i: int, j: int| 0 <= i < j < infos.len() implies (#[trigger] infos[i]).peer_id != (
    #[trigger] infos[j]).peer_id by {
        assert(infos.contains(infos[i]));
        assert(infos.contains(infos[j]));
    }
}

/// A room that was created is found, and is empty; its code was nobody's before, and is not
/// given again. Nothing happens to the other rooms.
pub proof fn law_creating_a_room(
    registry: &mut RoomRegistry,
    again: &mut RoomRegistry,
    word: u64,
    created: Option<RoomCode>,
    second: Option<RoomCode>,
    found: Option<&Room>,
    code: RoomCode,
)
    requires
        call_ensures(RoomRegistry::create_room_with, (registry, word), created),
        *again == *final(registry),
        call_ensures(RoomRegistry::create_room_with, (again, word), second),
        created matches Some(c) && c@ == code@,
        call_ensures(RoomRegistry::get, (&*final(registry), &code), found),
    ensures
        !old(registry)@.rooms.contains_key(code@),
        code@ == room_code(word),
        second is None,
        found matches Some(room) && room@.code == code@ && forall|id: u64|
            !#[trigger] room@.peers.contains_key(id),
        same_elsewhere(old(registry)@, final(registry)@, code@),
{
}

/// A room that was created under a random code is found, and is empty; its code was nobody's
/// before. None is created only where every code is taken.
pub proof fn law_creating_a_random_room(
    registry: &mut RoomRegistry,
    created: Option<RoomCode>,
    word: u64,
)
    requires
        call_ensures(RoomRegistry::create_room, (registry,), created),
    ensures
        match created {
            Some(code) => {
                &&& !old(registry)@.rooms.contains_key(code@)
                &&& final(registry)@.rooms.contains_key(code@)
                &&& forall|id: u64| !#[trigger] final(registry)@.rooms[code@].contains_key(id)
                &&& same_elsewhere(old(registry)@, final(registry)@, code@)
                &&& code@.len() == 6
            },
            None => final(registry)@ == old(registry)@ && old(registry)@.rooms.contains_key(
                room_code(word),
            ),
        },
{
}

/// A peer that was registered in a room is in it with its role, and in no other; whoever else
/// was there stays. One that is forgotten again is in it no longer.
pub proof fn law_registering_a_peer(
    registry: &mut RoomRegistry,
    later: &mut RoomRegistry,
    code: RoomCode,
    peer: Peer,
)
    requires
        registry@.rooms.contains_key(code@),
        call_ensures(RoomRegistry::insert_peer, (registry, &code, peer), ()),
        *later == *final(registry),
        call_ensures(RoomRegistry::remove_peer, (later, &code, peer.id), ()),
    ensures
        final(registry)@.rooms[code@].contains_pair(peer.id.0, peer.role),
        same_elsewhere(old(registry)@, final(registry)@, code@),
        same_others(old(registry)@.rooms[code@], final(registry)@.rooms[code@], peer.id.0),
        !final(later)@.rooms[code@].contains_key(peer.id.0),
        same_elsewhere(final(registry)@, final(later)@, code@),
        same_others(final(registry)@.rooms[code@], final(later)@.rooms[code@], peer.id.0),
{
}

/// A room is collected where it is empty, and only there. Bringing a room back keeps one that
/// exists, with whoever is in it, and tells whether there was none.
pub proof fn law_collecting_and_bringing_back(
    registry: &mut RoomRegistry,
    later: &mut RoomRegistry,
    code: RoomCode,
    created: bool,
)
    requires
        call_ensures(RoomRegistry::gc_if_empty, (registry, &code), ()),
        *later == *final(registry),
        call_ensures(RoomRegistry::get_or_resurrect, (later, &code), created),
    ensures
        final(registry)@.rooms.contains_key(code@) <==> old(registry)@.rooms.contains_key(code@)
            && exists|id: u64| #[trigger] old(registry)@.rooms[code@].contains_key(id),
        final(registry)@.rooms.contains_key(code@) ==> final(registry)@.rooms[code@] == old(
            registry,
        )@.rooms[code@],
        same_elsewhere(old(registry)@, final(registry)@, code@),
        created <==> !final(registry)@.rooms.contains_key(code@),
        final(later)@.rooms.contains_key(code@),
        !created ==> final(later)@.rooms[code@] == final(registry)@.rooms[code@],
        created ==> forall|id: u64| !#[trigger] final(later)@.rooms[code@].contains_key(id),
        same_elsewhere(final(registry)@, final(later)@, code@),
{
    law_calls_touch_one_room(registry@, code@, Peer { id: PeerId(0), role: Role::Publisher });
}

/// Each identifier is one more than the last, and minting one touches no room.
pub proof fn law_minting(
    first: &mut RoomRegistry,
    second: &mut RoomRegistry,
    a: PeerId,
    b: PeerId,
)
    requires
        first@.next_peer_id < u64::MAX,
        call_ensures(RoomRegistry::mint_peer_id, (first,), a),
        *second == *final(first),
        call_ensures(RoomRegistry::mint_peer_id, (second,), b),
    ensures
        a.0 == old(first)@.next_peer_id,
        b.0 == a.0 + 1,
        final(first)@.rooms == old(first)@.rooms,
{
}

/// A new registry has no rooms, and numbers peers from one.
pub proof fn law_new_registry(registry: RoomRegistry, code: Seq<char>)
    requires
        call_ensures(RoomRegistry::new, (), registry),
    ensures
        !registry@.rooms.contains_key(code),
        registry@.next_peer_id == 1,
{
}

/// What is broadcast in a room goes to each of its peers but one, once, and to nobody else, as
/// it is.
pub proof fn law_broadcasting(room: Room, except: PeerId, env: Envelope, res: Vec<Delivery>)
    requires
        call_ensures(Room::broadcast_except, (&room, except, &env), res),
    ensures
        forall|id: u64|
            id != except.0 && #[trigger] room.peers@.contains_key(id) ==> exists|i: int|
                0 <= i < res@.len() && (#[trigger] res@[i]).to.0 == id,
        forall|i: int|
            0 <= i < res@.len() ==> (#[trigger] res@[i]).to != except && room.peers@.contains_key(
                res@[i].to.0,
            ) && res@[i].envelope@ == env@,
        forall|i: int, j: int|
            0 <= i < j < res@.len() ==> (#[trigger] res@[i]).to != (#[trigger] res@[j]).to,
{
    let others = room.peers@.remove(except.0);
    law_reaching(others, env@, res@);
    assert forall|id: u64| id != except.0 && #[trigger] room.peers@.contains_key(
        id,
    ) implies exists|i: int| 0 <= i < res@.len() && (#[trigger] res@[i]).to.0 == id by {
        assert(others.contains_key(id));
    }
    assert forall|i: int| 0 <= i < res@.len() implies (#[trigger] res@[i]).to != except
        && room.peers@.contains_key(res@[i].to.0) && res@[i].envelope@ == env@ by {
        assert(others.contains_key(res@[i].to.0));
    }
}

/// A room lists each of its peers once with its role, knows where to reach each, and is empty
/// where there is none.
pub proof fn law_looking_into_a_room(
    room: Room,
    infos: Vec<PeerInfo>,
    empty: bool,
    id: PeerId,
    address: Option<PeerId>,
)
    requires
        call_ensures(Room::snapshot, (&room,), infos),
        call_ensures(Room::is_empty, (&room,), empty),
        call_ensures(Room::peer_tx, (&room, id), address),
    ensures
        room.peers@.contains_key(id.0) <==> infos@.contains(
            PeerInfo { peer_id: id, role: room.peers@[id.0] },
        ),
        forall|i: int, j: int|
            0 <= i < j < infos@.len() ==> (#[trigger] infos@[i]).peer_id != (
            #[trigger] infos@[j]).peer_id,
        empty ==> infos@.len() == 0,
        room.peers@.contains_key(id.0) ==> address == Some(id) && !empty,
        !room.peers@.contains_key(id.0) ==> address is None,
{
    law_listing(room.peers@, infos@);
    if empty && infos@.len() > 0 {
        assert(room.peers@.contains_key(infos@[0].peer_id.0));
    }
}

/// A peer that is put into a room is in it under its role, one that is taken out is not, and the
/// others are as they were.
pub proof fn law_coming_and_going(
    room: &mut Room,
    after: &mut Room,
    peer: Peer,
    id: PeerId,
    other: u64,
    info: PeerInfo,
)
    requires
        call_ensures(Room::insert, (room, peer), ()),
        *after == *final(room),
        call_ensures(Room::remove, (after, id), ()),
        call_ensures(Peer::info, (&peer,), info),
    ensures
        final(room)@.peers.contains_pair(peer.id.0, peer.role),
        other != peer.id.0 ==> (final(room)@.peers.contains_key(other) <==> old(
            room,
        )@.peers.contains_key(other)) && (old(room)@.peers.contains_key(other)
            ==> final(room)@.peers[other] == old(room)@.peers[other]),
        !final(after)@.peers.contains_key(id.0),
        other != id.0 ==> (final(after)@.peers.contains_key(other) <==> old(
            after,
        )@.peers.contains_key(other)),
        final(room)@.code == old(room)@.code,
        final(after)@.code == old(room)@.code,
        info == (PeerInfo { peer_id: peer.id, role: peer.role }),
{
}

/// A code that is taken makes no room and changes nothing, and one that is free makes one. A new
/// room has the code that it is given and nobody in it.
pub proof fn law_codes_are_taken_once(
    registry: &mut RoomRegistry,
    word: u64,
    created: Option<RoomCode>,
    code: RoomCode,
    room: Room,
    id: u64,
)
    requires
        call_ensures(RoomRegistry::create_room_with, (registry, word), created),
        call_ensures(Room::new, (code,), room),
    ensures
        created is None <==> old(registry)@.rooms.contains_key(room_code(word)),
        created is None ==> final(registry)@ == old(registry)@,
        created is Some ==> final(registry)@.rooms.contains_key(room_code(word)),
        room@.code == code@,
        !room@.peers.contains_key(id),
{
}

} // verus!
