//! The three registries of the server: clients that wait for an identity,
//! peers that wait for their session, and the active peers with their rooms.

use vstd::prelude::*;
use crate::protocol::{PeerId, PeerSignal, SignalEvent};
use crate::table::{Table, TableKey};
use tokio::sync::mpsc::UnboundedSender;

verus! {

/// The sending half of tokio's unbounded channel: opaque here, only handed on.
#[verifier::external_type_specification]
#[verifier::external_body]
#[verifier::reject_recursive_types(T)]
pub struct ExUnboundedSender<T>(UnboundedSender<T>);

/// The network address a connection came from.
#[derive(Debug, Clone, Copy, PartialEq, Eq, Structural, Hash)]
pub enum Origin {
    V4 { octets: u32, port: u16 },
    V6 { segments: u128, port: u16, flowinfo: u32, scope_id: u32 },
}

/// The name of a room.
#[derive(Debug, PartialEq, Eq, Hash)]
pub struct RoomId(pub String);

impl View for RoomId {
    type V = Seq<char>;

    open spec fn view(&self) -> Seq<char> {
        self.0@
    }
}

impl Clone for RoomId {
    fn clone(&self) -> (r: Self)
        ensures
            r == *self,
    {
        RoomId(self.0.clone())
    }
}

impl View for PeerId {
    type V = PeerId;

    open spec fn view(&self) -> PeerId {
        *self
    }
}

impl View for Origin {
    type V = Origin;

    open spec fn view(&self) -> Origin {
        *self
    }
}

impl TableKey for PeerId {
    fn same(&self, other: &Self) -> (r: bool) {
        self.0 == other.0
    }
}

impl TableKey for Origin {
    fn same(&self, other: &Self) -> (r: bool) {
        *self == *other
    }
}

impl TableKey for RoomId {
    fn same(&self, other: &Self) -> (r: bool) {
        self.0 == other.0
    }
}

/// The room a client asked for when it connected, if it named one.
#[derive(Debug, PartialEq, Eq, Hash)]
pub struct RequestedRoom {
    pub id: Option<RoomId>,
}

impl Clone for RequestedRoom {
    fn clone(&self) -> (r: Self)
        ensures
            r == *self,
    {
        match &self.id {
            Some(id) => RequestedRoom { id: Some(id.clone()) },
            None => RequestedRoom { id: None },
        }
    }
}

impl RequestedRoom {
    /// The request made by a connection path: an absent or empty path names no room.
    pub fn from_path(path: Option<String>) -> (r: RequestedRoom)
        ensures
            match path {
                Some(p) => if p@.len() == 0 {
                    r.id is None
                } else {
                    r.id == Some(RoomId(p))
                },
                None => r.id is None,
            },
    {
        match path {
            Some(p) => {
                if p.as_str().unicode_len() == 0 {
                    RequestedRoom { id: None }
                } else {
                    RequestedRoom { id: Some(RoomId(p)) }
                }
            },
            None => RequestedRoom { id: None },
        }
    }

    /// The room that is named, as a sequence of characters: `None` where none is,
    /// or where the name is empty.
    pub open spec fn named(&self) -> Option<Seq<char>> {
        match self.id {
            Some(id) => if id@.len() == 0 {
                None
            } else {
                Some(id@)
            },
            None => None,
        }
    }
}

/// An active peer.
#[derive(Debug)]
pub struct Peer {
    pub uuid: PeerId,
    pub requested_room: RequestedRoom,
    pub room: Option<RoomId>,
    pub sender: UnboundedSender<SignalEvent<PeerSignal>>,
}

impl Peer {
    /// The name of the room the peer is in, if it is in one.
    pub open spec fn room_name(&self) -> Option<Seq<char>> {
        match self.room {
            Some(id) => Some(id@),
            None => None,
        }
    }

    /// The same peer, in no room.
    pub open spec fn cleared(self) -> Peer {
        Peer { room: None, ..self }
    }
}

/// A room: its members in the order they joined, and its host.
#[derive(Debug)]
pub struct Room {
    pub id: RoomId,
    pub peers: Vec<PeerId>,
    pub host: PeerId,
}

/// Why an event could not be handed to a peer.
#[derive(Debug, Clone, Copy, PartialEq, Eq, Structural)]
pub enum SignalingError {
    /// No active peer has that id.
    UnknownPeer,
    /// The peer's endpoint did not take the event.
    Transport,
}

/// `s` with `x` as a member: unchanged where it is one already, else added at the end.
pub open spec fn with_member(s: Seq<PeerId>, x: PeerId) -> Seq<PeerId> {
    if s.contains(x) {
        s
    } else {
        s.push(x)
    }
}

/// `s` without the member `x`, the others in their order.
pub open spec fn without_member(s: Seq<PeerId>, x: PeerId) -> Seq<PeerId> {
    if s.contains(x) {
        s.remove(s.index_of(x))
    } else {
        s
    }
}

/// Among distinct members, leaving one out keeps the others, and them only.
pub proof fn lemma_without_member(s: Seq<PeerId>, x: PeerId)
    requires
        s.no_duplicates(),
    ensures
        without_member(s, x).no_duplicates(),
        forall|y: PeerId| #[trigger] without_member(s, x).contains(y) <==> (s.contains(y) && y != x),
{
    if s.contains(x) {
        let i = s.index_of(x);
        let t = s.remove(i);
        assert forall|a: int| 0 <= a < t.len() implies #[trigger] t[a] == s[if a < i { a } else { a + 1 }] by {}
        assert forall|a: int, b: int| 0 <= a < t.len() && 0 <= b < t.len() && a != b implies t[a] != t[b] by {
            let a2 = if a < i { a } else { a + 1 };
            let b2 = if b < i { b } else { b + 1 };
            assert(t[a] == s[a2] && t[b] == s[b2]);
        }
        assert forall|y: PeerId| #[trigger] t.contains(y) <==> (s.contains(y) && y != x) by {
            if t.contains(y) {
                let a = choose|a: int| 0 <= a < t.len() && t[a] == y;
                let a2 = if a < i { a } else { a + 1 };
                assert(t[a] == s[a2]);
            }
            if s.contains(y) && y != x {
                let a = choose|a: int| 0 <= a < s.len() && s[a] == y;
                let a2 = if a < i { a } else { a - 1 };
                assert(t[a2] == y);
            }
        }
    }
}

/// In sound registries every active peer that has a room is among the members
/// of that room.
pub proof fn lemma_active_peer_is_member(state: &ServerState, peer: PeerId)
    requires
        state.wf(),
        state.peers().contains_key(peer),
        state.peers()[peer].room is Some,
    ensures
        state.rooms().contains_key(state.peers()[peer].room->0@),
        state.members(state.peers()[peer].room->0@).contains(peer),
{
}

/// A peer that is added to a room that was not there before is the host of
/// that room and its only member, and is stored with the request it came with.
pub proof fn lemma_new_room_is_the_peers_own(before: &ServerState, peer: Peer, room: RoomId, after: &ServerState)
    requires
        ServerState::peer_added(before, peer, room, after),
        !before.rooms().contains_key(room@),
    ensures
        after.rooms().contains_key(room@),
        after.host(room@) == Some(peer.uuid),
        after.members(room@) == seq![peer.uuid],
        after.peers().contains_key(peer.uuid),
        after.peers()[peer.uuid].room_name() == Some(room@),
        after.peers()[peer.uuid].requested_room == peer.requested_room,
{
    assert(after.rooms().dom().contains(room@));
    assert(with_member(Seq::<PeerId>::empty(), peer.uuid) =~= seq![peer.uuid]);
}

/// Where every host is present, the host of each room is among its members.
pub proof fn lemma_host_is_member(state: &ServerState, room: Seq<char>)
    requires
        state.hosts_present(),
        state.rooms().contains_key(room),
    ensures
        state.host(room) is Some,
        state.members(room).contains(state.host(room)->0),
{
}

/// Where the registries are disjoint, a queued id is not active and an active
/// id is not queued; the waiting registry holds no id at all, only origins.
pub proof fn lemma_id_in_one_registry(state: &ServerState, peer: PeerId)
    requires
        state.disjoint(),
    ensures
        !(state.queue().contains_key(peer) && state.peers().contains_key(peer)),
{
}

/// The first place of `id` among `members`, if it is one of them.
pub fn member_position(members: &Vec<PeerId>, id: PeerId) -> (r: Option<usize>)
    ensures
        r is Some == members@.contains(id),
        r is Some ==> r->0 < members@.len() && members@[r->0 as int] == id,
        r is Some ==> forall|j: int| 0 <= j < r->0 ==> members@[j] != id,
{
    let mut i: usize = 0;
    while i < members.len()
        invariant
            i <= members@.len(),
            forall|j: int| 0 <= j < i ==> members@[j] != id,
        decreases members@.len() - i,
    {
        if members[i].0 == id.0 {
            return Some(i);
        }
        i += 1;
    }
    None
}


/// Whether `c` is a decimal digit or one of the letters `a` to `f`.
pub open spec fn is_lower_hex(c: char) -> bool {
    ('0' <= c && c <= '9') || ('a' <= c && c <= 'f')
}

/// The canonical text of a UUID: 36 characters, hyphens after the 8th, 12th,
/// 16th and 20th digit, and lower-case hexadecimal digits elsewhere.
pub open spec fn is_canonical_uuid(s: Seq<char>) -> bool {
    &&& s.len() == 36
    &&& forall|i: int|
        0 <= i < 36 ==> if i == 8 || i == 13 || i == 18 || i == 23 {
            s[i] == '-'
        } else {
            is_lower_hex(#[trigger] s[i])
        }
}

/// A room name that nobody chose: `Uuid::new_v4()` of the uuid crate, rendered by
/// its `Display`. The value is random; what is claimed is its shape only, the
/// hyphenated lower-case form that `Display` writes. Where the system has no
/// source of random numbers the call does not return.
#[verifier::external_body]
fn fresh_room_id() -> (id: RoomId)
    ensures
        is_canonical_uuid(id@),
{
    RoomId(uuid::Uuid::new_v4().to_string())
}

/// Hands `event` to tokio's `UnboundedSender::send`, which never waits, and says
/// whether the channel took it. Nothing is claimed of the answer: it depends on
/// whether the receiving half is still there.
#[verifier::external_body]
fn enqueue(sender: &UnboundedSender<SignalEvent<PeerSignal>>, event: SignalEvent<PeerSignal>) -> (accepted: bool) {
    sender.send(event).is_ok()
}

/// The active peers and their rooms.
#[derive(Debug)]
pub struct ActiveState {
    pub clients: Table<PeerId, Peer>,
    pub rooms: Table<RoomId, Room>,
}

/// All that the server knows of its clients.
#[derive(Debug)]
pub struct ServerState {
    pub clients_waiting: Table<Origin, RequestedRoom>,
    pub clients_in_queue: Table<PeerId, RequestedRoom>,
    pub active_state: ActiveState,
}

impl Default for ServerState {
    fn default() -> (s: Self)
        ensures
            s.wf(),
            s.hosts_present(),
            s.members_are_peers(),
            s.disjoint(),
            s.waiting() == Map::<Origin, RequestedRoom>::empty(),
            s.queue() == Map::<PeerId, RequestedRoom>::empty(),
            s.peers() == Map::<PeerId, Peer>::empty(),
            s.rooms() == Map::<Seq<char>, Room>::empty(),
    {
        ServerState {
            clients_waiting: Table::new(),
            clients_in_queue: Table::new(),
            active_state: ActiveState { clients: Table::new(), rooms: Table::new() },
        }
    }
}

/// What `try_send` answers, given whether the peer was found and whether its
/// endpoint took the event.
pub open spec fn send_outcome(found: bool, accepted: bool) -> Result<(), SignalingError> {
    if !found {
        Err(SignalingError::UnknownPeer)
    } else if accepted {
        Ok(())
    } else {
        Err(SignalingError::Transport)
    }
}

impl ServerState {
    /// The clients that wait for an identity, by origin.
    pub open spec fn waiting(&self) -> Map<Origin, RequestedRoom> {
        self.clients_waiting@
    }

    /// The peers that wait for their session to start.
    pub open spec fn queue(&self) -> Map<PeerId, RequestedRoom> {
        self.clients_in_queue@
    }

    /// The active peers.
    pub open spec fn peers(&self) -> Map<PeerId, Peer> {
        self.active_state.clients@
    }

    /// The rooms, by name.
    pub open spec fn rooms(&self) -> Map<Seq<char>, Room> {
        self.active_state.rooms@
    }

    /// The members of the room named `r`, in the order they joined; none where there is no such room.
    pub open spec fn members(&self, r: Seq<char>) -> Seq<PeerId> {
        if self.rooms().contains_key(r) {
            self.rooms()[r].peers@
        } else {
            Seq::empty()
        }
    }

    /// The host of the room named `r`, if there is such a room.
    pub open spec fn host(&self, r: Seq<char>) -> Option<PeerId> {
        if self.rooms().contains_key(r) {
            Some(self.rooms()[r].host)
        } else {
            None
        }
    }

    /// Every active peer that is in a room is a member of that room.
    pub open spec fn peers_are_members(&self) -> bool {
        forall|id: PeerId|
            (#[trigger] self.peers().contains_key(id)) && self.peers()[id].room is Some ==> self.rooms().contains_key(
                self.peers()[id].room->0@,
            ) && self.rooms()[self.peers()[id].room->0@].peers@.contains(id)
    }

    /// The registries are sound: no key twice, each record under its own key,
    /// no room without a name, no member twice in a room, and every active peer
    /// a member of its room.
    pub open spec fn wf(&self) -> bool {
        &&& self.clients_waiting.wf()
        &&& self.clients_in_queue.wf()
        &&& self.active_state.clients.wf()
        &&& self.active_state.rooms.wf()
        &&& forall|id: PeerId| (#[trigger] self.peers().contains_key(id)) ==> self.peers()[id].uuid == id
        &&& forall|r: Seq<char>|
            (#[trigger] self.rooms().contains_key(r)) ==> r.len() > 0 && self.rooms()[r].id@ == r
                && self.rooms()[r].peers@.no_duplicates()
        &&& self.peers_are_members()
    }

    /// The host of every room is one of its members.
    pub open spec fn hosts_present(&self) -> bool {
        forall|r: Seq<char>|
            (#[trigger] self.rooms().contains_key(r)) ==> self.rooms()[r].peers@.contains(self.rooms()[r].host)
    }

    /// Every member of a room is an active peer whose room it is: a peer is a
    /// member of no room but its own.
    pub open spec fn members_are_peers(&self) -> bool {
        forall|r: Seq<char>, id: PeerId|
            self.rooms().contains_key(r) && (#[trigger] self.rooms()[r].peers@.contains(id))
                ==> self.peers().contains_key(id) && self.peers()[id].room_name() == Some(r)
    }

    /// No id is at once in the queue and active.
    pub open spec fn disjoint(&self) -> bool {
        forall|id: PeerId| (#[trigger] self.queue().contains_key(id)) ==> !self.peers().contains_key(id)
    }

    /// A server without clients.
    pub fn new() -> (s: Self)
        ensures
            s.wf(),
            s.hosts_present(),
            s.members_are_peers(),
            s.disjoint(),
            s.waiting() == Map::<Origin, RequestedRoom>::empty(),
            s.queue() == Map::<PeerId, RequestedRoom>::empty(),
            s.peers() == Map::<PeerId, Peer>::empty(),
            s.rooms() == Map::<Seq<char>, Room>::empty(),
    {
        ServerState {
            clients_waiting: Table::new(),
            clients_in_queue: Table::new(),
            active_state: ActiveState { clients: Table::new(), rooms: Table::new() },
        }
    }

    /// Whether a client from `origin` waits for an identity.
    pub fn is_waiting(&self, origin: &Origin) -> (r: bool)
        requires
            self.wf(),
        ensures
            r == self.waiting().contains_key(*origin),
    {
        self.clients_waiting.contains_key(origin)
    }

    /// Whether `peer_id` waits for its session to start.
    pub fn is_queued(&self, peer_id: &PeerId) -> (r: bool)
        requires
            self.wf(),
        ensures
            r == self.queue().contains_key(*peer_id),
    {
        self.clients_in_queue.contains_key(peer_id)
    }

    /// Add a waiting client to matchmaking.
    pub fn add_waiting_client(&mut self, origin: Origin, room: RequestedRoom)
        requires
            old(self).wf(),
        ensures
            final(self).wf(),
            final(self).waiting() == old(self).waiting().insert(origin, room),
            final(self).clients_in_queue == old(self).clients_in_queue,
            final(self).active_state == old(self).active_state,
    {
        let _ = self.clients_waiting.insert(origin, room);
        assert(self.peers() == old(self).peers() && self.rooms() == old(self).rooms());
    }

    /// Assign a peer id to a waiting client: its request moves from the waiting
    /// registry to the queue.
    pub fn assign_id_to_waiting_client(&mut self, origin: Origin, peer_id: PeerId)
        requires
            old(self).wf(),
            old(self).waiting().contains_key(origin),
        ensures
            final(self).wf(),
            final(self).waiting() == old(self).waiting().remove(origin),
            final(self).queue() == old(self).queue().insert(peer_id, old(self).waiting()[origin]),
            final(self).active_state == old(self).active_state,
            old(self).disjoint() && !old(self).peers().contains_key(peer_id) ==> final(self).disjoint(),
    {
        let room = self.clients_waiting.remove(&origin);
        match room {
            Some(room) => {
                let _ = self.clients_in_queue.insert(peer_id, room);
            },
            None => {},
        }
        assert(self.peers() == old(self).peers() && self.rooms() == old(self).rooms());
    }

    /// Remove the waiting peer, returning the peer's requested room.
    pub fn remove_waiting_peer(&mut self, peer_id: PeerId) -> (room: RequestedRoom)
        requires
            old(self).wf(),
            old(self).queue().contains_key(peer_id),
        ensures
            final(self).wf(),
            room == old(self).queue()[peer_id],
            final(self).queue() == old(self).queue().remove(peer_id),
            final(self).clients_waiting == old(self).clients_waiting,
            final(self).active_state == old(self).active_state,
            old(self).disjoint() ==> final(self).disjoint(),
    {
        let room = self.clients_in_queue.remove(&peer_id);
        assert(self.peers() == old(self).peers() && self.rooms() == old(self).rooms());
        match room {
            Some(room) => room,
            None => RequestedRoom { id: None },
        }
    }

    /// What adding `peer` to the room `room` makes of the registries: the peer is
    /// stored with that room as its own; the room exists, with the peer as host
    /// where it is new and its old host where it is not, and with the peer among
    /// its members; nothing else changes.
    pub open spec fn peer_added(before: &ServerState, peer: Peer, room: RoomId, after: &ServerState) -> bool {
        &&& after.peers() == before.peers().insert(peer.uuid, Peer { room: Some(room), ..peer })
        &&& after.rooms().dom() == before.rooms().dom().insert(room@)
        &&& forall|r: Seq<char>|
            r != room@ && before.rooms().contains_key(r) ==> #[trigger] after.rooms()[r] == before.rooms()[r]
        &&& after.rooms()[room@].id@ == room@
        &&& after.host(room@) == if before.rooms().contains_key(room@) {
            before.host(room@)
        } else {
            Some(peer.uuid)
        }
        &&& after.members(room@) == with_member(before.members(room@), peer.uuid)
    }

    /// Add a peer to the room `room_id`, which is made if it is not there. The
    /// name of a room is not empty.
    pub fn add_peer_to_room(&mut self, peer: Peer, room_id: RoomId) -> (room: RoomId)
        requires
            old(self).wf(),
            room_id@.len() > 0,
        ensures
            room == room_id,
            final(self).wf(),
            final(self).clients_waiting == old(self).clients_waiting,
            final(self).clients_in_queue == old(self).clients_in_queue,
            Self::peer_added(old(self), peer, room, final(self)),
            old(self).hosts_present() ==> final(self).hosts_present(),
            old(self).members_are_peers() && !old(self).peers().contains_key(peer.uuid)
                ==> final(self).members_are_peers(),
            old(self).disjoint() && !old(self).queue().contains_key(peer.uuid) ==> final(self).disjoint(),
    {
        let peer_id = peer.uuid;
        let found = self.active_state.rooms.remove(&room_id);
        let mut entry = match found {
            Some(entry) => entry,
            None => Room { id: room_id.clone(), peers: Vec::new(), host: peer_id },
        };
        let ghost before_members = entry.peers@;
        assert(before_members == old(self).members(room_id@));
        if member_position(&entry.peers, peer_id).is_none() {
            entry.peers.push(peer_id);
            assert forall|a: int, b: int|
                0 <= a < entry.peers@.len() && 0 <= b < entry.peers@.len() && a != b implies entry.peers@[a]
                != entry.peers@[b] by {
                if a < before_members.len() {
                    assert(entry.peers@[a] == before_members[a]);
                }
                if b < before_members.len() {
                    assert(entry.peers@[b] == before_members[b]);
                }
            }
        }
        assert(entry.peers@ == with_member(before_members, peer_id));
        assert(entry.peers@.contains(peer_id)) by {
            if !before_members.contains(peer_id) {
                assert(entry.peers@[before_members.len() as int] == peer_id);
            }
        }
        assert forall|x: PeerId| before_members.contains(x) implies entry.peers@.contains(x) by {
            let a = choose|a: int| 0 <= a < before_members.len() && before_members[a] == x;
            assert(entry.peers@[a] == x);
        }
        let ghost placed = entry;
        let _ = self.active_state.rooms.insert(room_id.clone(), entry);
        let mut peer = peer;
        peer.room = Some(room_id.clone());
        let _ = self.active_state.clients.insert(peer_id, peer);
        proof {
            assert(self.rooms() =~= old(self).rooms().insert(room_id@, placed));
            assert(self.rooms().dom() =~= old(self).rooms().dom().insert(room_id@));
            assert forall|id: PeerId| (#[trigger] self.peers().contains_key(id)) && self.peers()[id].room is Some implies self.rooms().contains_key(
                self.peers()[id].room->0@,
            ) && self.rooms()[self.peers()[id].room->0@].peers@.contains(id) by {
                if id != peer_id {
                    assert(old(self).peers().contains_key(id));
                    assert(self.peers()[id] == old(self).peers()[id]);
                }
            }
            if old(self).members_are_peers() && !old(self).peers().contains_key(peer_id) {
                assert forall|r: Seq<char>, id: PeerId|
                    self.rooms().contains_key(r) && (#[trigger] self.rooms()[r].peers@.contains(
                        id,
                    )) implies self.peers().contains_key(id) && self.peers()[id].room_name() == Some(r) by {
                    if r == room_id@ {
                        if id != peer_id {
                            let a = choose|a: int| 0 <= a < placed.peers@.len() && placed.peers@[a] == id;
                            if a < before_members.len() {
                                assert(before_members[a] == id);
                            }
                            assert(before_members.contains(id));
                            assert(old(self).rooms()[r].peers@.contains(id));
                        }
                    } else {
                        assert(old(self).rooms().contains_key(r));
                        assert(old(self).rooms()[r].peers@.contains(id));
                    }
                }
            }
        }
        room_id
    }

    /// Add a peer, returning the room the peer was added to: the room it asked
    /// for, or one with a new name where it asked for none.
    pub fn add_peer(&mut self, peer: Peer) -> (room: RoomId)
        requires
            old(self).wf(),
        ensures
            match peer.requested_room.named() {
                Some(name) => room@ == name,
                None => is_canonical_uuid(room@),
            },
            final(self).wf(),
            final(self).clients_waiting == old(self).clients_waiting,
            final(self).clients_in_queue == old(self).clients_in_queue,
            Self::peer_added(old(self), peer, room, final(self)),
            old(self).hosts_present() ==> final(self).hosts_present(),
            old(self).members_are_peers() && !old(self).peers().contains_key(peer.uuid)
                ==> final(self).members_are_peers(),
            old(self).disjoint() && !old(self).queue().contains_key(peer.uuid) ==> final(self).disjoint(),
    {
        let room_id = match &peer.requested_room.id {
            Some(id) => {
                if id.0.as_str().unicode_len() == 0 {
                    fresh_room_id()
                } else {
                    id.clone()
                }
            },
            None => fresh_room_id(),
        };
        self.add_peer_to_room(peer, room_id)
    }

    /// Remove a peer from the state if it existed, returning the peer removed.
    /// The peer leaves the member list of its room; the room itself stays, also
    /// where the peer was its host.
    #[must_use]
    pub fn remove_peer(&mut self, peer_id: &PeerId) -> (r: Option<Peer>)
        requires
            old(self).wf(),
        ensures
            final(self).wf(),
            final(self).clients_waiting == old(self).clients_waiting,
            final(self).clients_in_queue == old(self).clients_in_queue,
            r is Some == old(self).peers().contains_key(*peer_id),
            r is Some ==> r->0 == old(self).peers()[*peer_id],
            final(self).peers() == old(self).peers().remove(*peer_id),
            final(self).rooms().dom() == old(self).rooms().dom(),
            forall|n: Seq<char>| #[trigger]
                old(self).rooms().contains_key(n) ==> if r is Some && r->0.room_name() == Some(n) {
                    &&& final(self).rooms()[n].id == old(self).rooms()[n].id
                    &&& final(self).rooms()[n].host == old(self).rooms()[n].host
                    &&& final(self).rooms()[n].peers@ == without_member(old(self).rooms()[n].peers@, *peer_id)
                } else {
                    final(self).rooms()[n] == old(self).rooms()[n]
                },
            old(self).disjoint() ==> final(self).disjoint(),
            old(self).members_are_peers() ==> final(self).members_are_peers(),
            old(self).hosts_present() ==> forall|n: Seq<char>| #[trigger]
                final(self).rooms().contains_key(n) && !(r is Some && r->0.room_name() == Some(n)
                    && old(self).rooms()[n].host == *peer_id) ==> final(self).rooms()[n].peers@.contains(
                    final(self).rooms()[n].host,
                ),
    {
        let peer = self.active_state.clients.remove(peer_id);
        match &peer {
            Some(p) => {
                match &p.room {
                    Some(room_id) => {
                        let found = self.active_state.rooms.remove(room_id);
                        match found {
                            Some(entry) => {
                                let mut entry = entry;
                                let ghost before_members = entry.peers@;
                                proof {
                                    lemma_without_member(before_members, *peer_id);
                                }
                                match member_position(&entry.peers, *peer_id) {
                                    Some(i) => {
                                        assert(before_members.index_of(*peer_id) == i);
                                        let _ = entry.peers.remove(i);
                                    },
                                    None => {},
                                }
                                assert(entry.peers@ == without_member(before_members, *peer_id));
                                let ghost placed = entry;
                                let _ = self.active_state.rooms.insert(room_id.clone(), entry);
                                proof {
                                    assert(self.rooms() =~= old(self).rooms().insert(room_id@, placed));
                                    assert(self.rooms().dom() =~= old(self).rooms().dom());
                                }
                            },
                            None => {
                                assert(self.rooms() =~= old(self).rooms());
                            },
                        }
                    },
                    None => {},
                }
            },
            None => {
                assert(self.peers() =~= old(self).peers());
            },
        }
        proof {
            assert(self.queue() == old(self).queue() && self.waiting() == old(self).waiting());
            assert(self.rooms().dom() =~= old(self).rooms().dom());
            assert forall|n: Seq<char>| #[trigger] self.rooms().contains_key(n) implies self.rooms()[n].id@ == n
                && self.rooms()[n].peers@.no_duplicates() by {
                assert(old(self).rooms().contains_key(n));
            }
            assert forall|id: PeerId| (#[trigger] self.peers().contains_key(id)) && self.peers()[id].room is Some implies self.rooms().contains_key(
                self.peers()[id].room->0@,
            ) && self.rooms()[self.peers()[id].room->0@].peers@.contains(id) by {
                assert(old(self).peers().contains_key(id));
                assert(id != *peer_id);
            }
            if old(self).members_are_peers() {
                assert forall|n: Seq<char>, id: PeerId|
                    self.rooms().contains_key(n) && (#[trigger] self.rooms()[n].peers@.contains(
                        id,
                    )) implies self.peers().contains_key(id) && self.peers()[id].room_name() == Some(n) by {
                    assert(old(self).rooms().contains_key(n));
                    lemma_without_member(old(self).rooms()[n].peers@, *peer_id);
                    assert(old(self).rooms()[n].peers@.contains(id));
                }
            }
        }
        peer
    }

    /// Remove a room, returning it if it existed. Every peer that was a member
    /// of it, and so every peer that had it as its room, is left in no room.
    pub fn remove_room(&mut self, room_id: &RoomId) -> (r: Option<Room>)
        requires
            old(self).wf(),
        ensures
            final(self).wf(),
            final(self).clients_waiting == old(self).clients_waiting,
            final(self).clients_in_queue == old(self).clients_in_queue,
            r is Some == old(self).rooms().contains_key(room_id@),
            r is Some ==> r->0 == old(self).rooms()[room_id@],
            final(self).rooms() == old(self).rooms().remove(room_id@),
            final(self).peers().dom() == old(self).peers().dom(),
            forall|id: PeerId| #[trigger]
                old(self).peers().contains_key(id) ==> final(self).peers()[id] == if old(self).members(
                    room_id@,
                ).contains(id) {
                    old(self).peers()[id].cleared()
                } else {
                    old(self).peers()[id]
                },
            forall|id: PeerId|
                (#[trigger] old(self).peers().contains_key(id)) && old(self).peers()[id].room_name() == Some(
                    room_id@,
                ) ==> final(self).peers()[id].room is None,
            old(self).hosts_present() ==> final(self).hosts_present(),
            old(self).members_are_peers() ==> final(self).members_are_peers(),
            old(self).disjoint() ==> final(self).disjoint(),
    {
        let room = self.active_state.rooms.remove(room_id);
        match &room {
            Some(entry) => {
                let mut i: usize = 0;
                while i < entry.peers.len()
                    invariant
                        i <= entry.peers@.len(),
                        old(self).wf(),
                        entry.peers@ == old(self).members(room_id@),
                        self.active_state.clients.wf(),
                        self.active_state.rooms.wf(),
                        self.rooms() == old(self).rooms().remove(room_id@),
                        self.clients_waiting == old(self).clients_waiting,
                        self.clients_in_queue == old(self).clients_in_queue,
                        self.peers().dom() == old(self).peers().dom(),
                        forall|id: PeerId| #[trigger]
                            old(self).peers().contains_key(id) ==> self.peers()[id] == if entry.peers@.take(
                                i as int,
                            ).contains(id) {
                                old(self).peers()[id].cleared()
                            } else {
                                old(self).peers()[id]
                            },
                    decreases entry.peers@.len() - i,
                {
                    let member = entry.peers[i];
                    let ghost before = self.peers();
                    assert(entry.peers@.take(i + 1) =~= entry.peers@.take(i as int).push(member));
                    assert forall|id: PeerId| entry.peers@.take(i + 1).contains(id) <==> (entry.peers@.take(
                        i as int,
                    ).contains(id) || id == member) by {
                        let longer = entry.peers@.take(i + 1);
                        let shorter = entry.peers@.take(i as int);
                        if longer.contains(id) {
                            let a = choose|a: int| 0 <= a < longer.len() && longer[a] == id;
                            if a < i {
                                assert(shorter[a] == id);
                            }
                        }
                        if shorter.contains(id) {
                            let a = choose|a: int| 0 <= a < shorter.len() && shorter[a] == id;
                            assert(longer[a] == id);
                        }
                        assert(longer[i as int] == member);
                    }
                    let found = self.active_state.clients.remove(&member);
                    match found {
                        Some(peer) => {
                            let mut peer = peer;
                            peer.room = None;
                            let _ = self.active_state.clients.insert(member, peer);
                            assert(self.peers().dom() =~= before.dom());
                        },
                        None => {
                            assert(self.peers() =~= before);
                        },
                    }
                    i += 1;
                }
                assert(entry.peers@.take(i as int) =~= entry.peers@);
            },
            None => {
                assert(old(self).members(room_id@) =~= Seq::<PeerId>::empty());
            },
        }
        assert(self.queue() == old(self).queue() && self.waiting() == old(self).waiting());
        proof {
            if old(self).members_are_peers() {
                assert forall|n: Seq<char>, id: PeerId|
                    self.rooms().contains_key(n) && (#[trigger] self.rooms()[n].peers@.contains(
                        id,
                    )) implies self.peers().contains_key(id) && self.peers()[id].room_name() == Some(n) by {
                    assert(old(self).rooms().contains_key(n));
                    assert(old(self).rooms()[n].peers@.contains(id));
                    assert(old(self).peers().contains_key(id));
                    if old(self).members(room_id@).contains(id) {
                        assert(old(self).rooms()[room_id@].peers@.contains(id));
                    }
                }
            }
        }
        room
    }

    /// Get a peer.
    pub fn get_peer(&self, peer_id: &PeerId) -> (r: Option<&Peer>)
        requires
            self.wf(),
        ensures
            r is Some == self.peers().contains_key(*peer_id),
            r is Some ==> *r->0 == self.peers()[*peer_id],
    {
        self.active_state.clients.get(peer_id)
    }

    /// Get the peers in a room currently, in the order they joined.
    pub fn get_room_peers(&self, room_id: &RoomId) -> (r: Vec<PeerId>)
        requires
            self.wf(),
        ensures
            r@ == self.members(room_id@),
    {
        let mut out: Vec<PeerId> = Vec::new();
        match self.active_state.rooms.get(room_id) {
            Some(room) => {
                let mut i: usize = 0;
                while i < room.peers.len()
                    invariant
                        i <= room.peers@.len(),
                        out@ == room.peers@.take(i as int),
                    decreases room.peers@.len() - i,
                {
                    out.push(room.peers[i]);
                    assert(room.peers@.take(i + 1) =~= room.peers@.take(i as int).push(room.peers@[i as int]));
                    i += 1;
                }
                assert(room.peers@.take(i as int) =~= room.peers@);
            },
            None => {},
        }
        out
    }

    /// The host of a room, if the room exists.
    pub fn get_room_host_peer(&self, room_id: &RoomId) -> (r: Option<PeerId>)
        requires
            self.wf(),
        ensures
            r == self.host(room_id@),
    {
        match self.active_state.rooms.get(room_id) {
            Some(room) => Some(room.host),
            None => None,
        }
    }

    /// Whether `peer` is an active peer and the host of the room `room_id`: false
    /// where there is no such peer or no such room.
    pub fn is_peer_host(&self, peer: &PeerId, room_id: &RoomId) -> (r: bool)
        requires
            self.wf(),
        ensures
            r == (self.peers().contains_key(*peer) && self.host(room_id@) == Some(*peer)),
    {
        if !self.active_state.clients.contains_key(peer) {
            return false;
        }
        match self.active_state.rooms.get(room_id) {
            Some(room) => room.host == *peer,
            None => false,
        }
    }

    /// What `try_send` returns once it is known whether the peer was found and
    /// whether its endpoint took the event.
    pub fn send_result(found: bool, accepted: bool) -> (r: Result<(), SignalingError>)
        ensures
            r == send_outcome(found, accepted),
    {
        if !found {
            Err(SignalingError::UnknownPeer)
        } else if accepted {
            Ok(())
        } else {
            Err(SignalingError::Transport)
        }
    }

    /// Send an event to a peer without blocking. An unknown peer gives
    /// `UnknownPeer`; for a known one the endpoint decides between `Ok` and
    /// `Transport`.
    pub fn try_send(&self, id: &PeerId, message: SignalEvent<PeerSignal>) -> (r: Result<(), SignalingError>)
        requires
            self.wf(),
        ensures
            !self.peers().contains_key(*id) ==> r == send_outcome(false, false),
            self.peers().contains_key(*id) ==> r == send_outcome(true, true) || r == send_outcome(true, false),
    {
        match self.active_state.clients.get(id) {
            Some(peer) => {
                let accepted = enqueue(&peer.sender, message);
                Self::send_result(true, accepted)
            },
            None => Self::send_result(false, false),
        }
    }
}

} // verus!
