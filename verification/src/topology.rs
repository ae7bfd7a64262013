//! The star topology: the first peer of a room is its host, guests are
//! announced to the host alone, and the room ends when the host leaves.
//!
//! Each step of a session changes the registries and returns the events that
//! are owed, in the order in which they are to be sent; `dispatch` sends them.

use vstd::prelude::*;
use crate::protocol::{PeerEvent, PeerId, PeerRequest, PeerSignal, SignalEvent};
use crate::state::{
    is_canonical_uuid, lemma_active_peer_is_member, lemma_host_is_member, lemma_without_member, without_member,
    Peer, RoomId, ServerState, SignalingError,
};
use crate::wire::{request_of, Json};
use tokio::sync::mpsc::UnboundedSender;

verus! {

/// An event and the peer it is meant for.
#[derive(Debug, PartialEq, Eq)]
pub struct Delivery {
    pub to: PeerId,
    pub event: SignalEvent<PeerSignal>,
}

/// Why no request could be read from a peer's connection.
#[derive(Debug, Clone, Copy, PartialEq, Eq, Structural)]
pub enum ClientRequestError {
    /// The transport failed for good.
    Transport,
    /// The peer closed the connection.
    Close,
    /// The frame was no valid request.
    Json,
    /// The frame was of a kind that carries no request.
    UnsupportedType,
}

impl ClientRequestError {
    /// Whether the session ends on this error.
    pub open spec fn is_final(self) -> bool {
        self is Transport || self is Close
    }
}

/// The star topology of the matchmaking server.
#[derive(Debug, Default)]
pub struct MatchmakingDemoTopology;

impl MatchmakingDemoTopology {
    /// What is owed when `peer` has been placed in `room`, whose host is `host`:
    /// a host is told of its room and its role; for a guest the host is told of
    /// the guest, then the guest of its role.
    pub open spec fn join_plan(peer: PeerId, room: RoomId, host: Option<PeerId>) -> Seq<Delivery> {
        if host == Some(peer) {
            seq![
                Delivery { to: peer, event: SignalEvent::RoomOpened(room.0) },
                Delivery { to: peer, event: SignalEvent::HostStatus(true) },
            ]
        } else if host is Some {
            seq![
                Delivery { to: host->0, event: SignalEvent::Peer(PeerEvent::NewPeer(peer)) },
                Delivery { to: peer, event: SignalEvent::HostStatus(false) },
            ]
        } else {
            seq![Delivery { to: peer, event: SignalEvent::HostStatus(false) }]
        }
    }

    /// What is owed when the host `peer` has left its room, to those who stay:
    /// each is told that the peer left, then each that the room is closed.
    pub open spec fn host_left_plan(peer: PeerId, survivors: Seq<PeerId>) -> Seq<Delivery> {
        Seq::new(
            2 * survivors.len(),
            |i: int|
                if i < survivors.len() {
                    Delivery { to: survivors[i], event: SignalEvent::Peer(PeerEvent::PeerLeft(peer)) }
                } else {
                    Delivery { to: survivors[i - survivors.len()], event: SignalEvent::RoomClosed }
                },
        )
    }

    /// What is owed when the guest `peer` has left a room whose host is `host`.
    pub open spec fn guest_left_plan(peer: PeerId, host: Option<PeerId>) -> Seq<Delivery> {
        match host {
            Some(h) => seq![Delivery { to: h, event: SignalEvent::Peer(PeerEvent::PeerLeft(peer)) }],
            None => Seq::empty(),
        }
    }

    /// What is owed for a request of `peer`: a signal goes to its receiver, with
    /// the sender filled in, if the receiver is known; nothing else is answered.
    pub open spec fn request_plan(
        known: Set<PeerId>,
        peer: PeerId,
        request: Result<PeerRequest<PeerSignal>, ClientRequestError>,
    ) -> Seq<Delivery> {
        match request {
            Ok(PeerRequest::Signal { receiver, data }) => if known.contains(receiver) {
                seq![Delivery { to: receiver, event: SignalEvent::Peer(PeerEvent::Signal { sender: peer, data }) }]
            } else {
                Seq::empty()
            },
            _ => Seq::empty(),
        }
    }

    /// The events for a peer that has just been placed in a room.
    pub fn join_notices(peer: PeerId, room: &RoomId, host: Option<PeerId>) -> (plan: Vec<Delivery>)
        ensures
            plan@ == Self::join_plan(peer, *room, host),
    {
        let mut plan: Vec<Delivery> = Vec::new();
        match host {
            Some(h) => {
                if h == peer {
                    plan.push(Delivery { to: peer, event: SignalEvent::RoomOpened(room.0.clone()) });
                    plan.push(Delivery { to: peer, event: SignalEvent::HostStatus(true) });
                } else {
                    plan.push(Delivery { to: h, event: SignalEvent::Peer(PeerEvent::NewPeer(peer)) });
                    plan.push(Delivery { to: peer, event: SignalEvent::HostStatus(false) });
                }
            },
            None => {
                plan.push(Delivery { to: peer, event: SignalEvent::HostStatus(false) });
            },
        }
        assert(plan@ =~= Self::join_plan(peer, *room, host));
        plan
    }

    /// The events for those who stay when the host `peer` has left.
    pub fn host_left_notices(peer: PeerId, survivors: &Vec<PeerId>) -> (plan: Vec<Delivery>)
        ensures
            plan@ == Self::host_left_plan(peer, survivors@),
    {
        let mut plan: Vec<Delivery> = Vec::new();
        let n = survivors.len();
        let mut i: usize = 0;
        while i < n
            invariant
                n == survivors@.len(),
                i <= n,
                plan@.len() == i,
                forall|j: int| 0 <= j < i ==> plan@[j] == Self::host_left_plan(peer, survivors@)[j],
            decreases n - i,
        {
            plan.push(Delivery { to: survivors[i], event: SignalEvent::Peer(PeerEvent::PeerLeft(peer)) });
            i += 1;
        }
        let mut k: usize = 0;
        while k < n
            invariant
                n == survivors@.len(),
                k <= n,
                plan@.len() == n + k,
                forall|j: int| 0 <= j < n + k ==> plan@[j] == Self::host_left_plan(peer, survivors@)[j],
            decreases n - k,
        {
            plan.push(Delivery { to: survivors[k], event: SignalEvent::RoomClosed });
            k += 1;
        }
        assert(plan@ =~= Self::host_left_plan(peer, survivors@));
        plan
    }

    /// Starts the session of a queued peer: it leaves the queue and is placed in
    /// the room it asked for, or in a new one. Returns the room and the events owed.
    pub fn start_session(
        state: &mut ServerState,
        peer_id: PeerId,
        sender: UnboundedSender<SignalEvent<PeerSignal>>,
    ) -> (r: (RoomId, Vec<Delivery>))
        requires
            old(state).wf(),
            old(state).queue().contains_key(peer_id),
        ensures
            final(state).wf(),
            final(state).clients_waiting == old(state).clients_waiting,
            final(state).queue() == old(state).queue().remove(peer_id),
            match old(state).queue()[peer_id].named() {
                Some(name) => r.0@ == name,
                None => is_canonical_uuid(r.0@),
            },
            ServerState::peer_added(
                old(state),
                Peer { uuid: peer_id, requested_room: old(state).queue()[peer_id], room: None, sender },
                r.0,
                final(state),
            ),
            r.1@ == Self::join_plan(peer_id, r.0, final(state).host(r.0@)),
            old(state).hosts_present() ==> final(state).hosts_present(),
            old(state).members_are_peers() && !old(state).peers().contains_key(peer_id)
                ==> final(state).members_are_peers(),
            old(state).disjoint() ==> final(state).disjoint(),
    {
        let requested = state.remove_waiting_peer(peer_id);
        let peer = Peer { uuid: peer_id, requested_room: requested, room: None, sender };
        let room_id = state.add_peer(peer);
        let host = state.get_room_host_peer(&room_id);
        let plan = Self::join_notices(peer_id, &room_id, host);
        (room_id, plan)
    }

    /// Reads a request from a document: `Json` is the error for a document that
    /// stands for no request.
    pub fn parse_request(document: &Json) -> (r: Result<PeerRequest<PeerSignal>, ClientRequestError>)
        ensures
            match r {
                Ok(request) => request_of(document@) == Some(request@),
                Err(e) => e == ClientRequestError::Json && request_of(document@) is None,
            },
    {
        match PeerRequest::from_json(document) {
            Some(request) => Ok(request),
            None => Err(ClientRequestError::Json),
        }
    }

    /// Answers one thing read from the connection of `peer_id`: a request, or the
    /// reason why none could be read. Returns the events owed, and whether the
    /// session goes on: it ends when the connection is closed or has failed.
    pub fn handle_request(
        state: &ServerState,
        peer_id: PeerId,
        request: Result<PeerRequest<PeerSignal>, ClientRequestError>,
    ) -> (r: (Vec<Delivery>, bool))
        requires
            state.wf(),
        ensures
            r.0@ == Self::request_plan(state.peers().dom(), peer_id, request),
            r.1 == !(request is Err && request->Err_0.is_final()),
    {
        let mut plan: Vec<Delivery> = Vec::new();
        match request {
            Ok(PeerRequest::Signal { receiver, data }) => {
                if state.get_peer(&receiver).is_some() {
                    plan.push(
                        Delivery { to: receiver, event: SignalEvent::Peer(PeerEvent::Signal { sender: peer_id, data }) },
                    );
                }
                assert(plan@ =~= Self::request_plan(state.peers().dom(), peer_id, request));
                (plan, true)
            },
            Ok(PeerRequest::KeepAlive) => (plan, true),
            Err(ClientRequestError::Transport) => (plan, false),
            Err(ClientRequestError::Close) => (plan, false),
            Err(ClientRequestError::Json) => (plan, true),
            Err(ClientRequestError::UnsupportedType) => (plan, true),
        }
    }

    /// Ends the session of `peer_id`. The peer leaves the registry and its room.
    /// Where it was the host, the room is removed and everyone left in it is
    /// owed the news; where it was a guest, the host is.
    pub fn end_session(state: &mut ServerState, peer_id: PeerId) -> (plan: Vec<Delivery>)
        requires
            old(state).wf(),
        ensures
            final(state).wf(),
            final(state).clients_waiting == old(state).clients_waiting,
            final(state).clients_in_queue == old(state).clients_in_queue,
            final(state).peers().dom() == old(state).peers().dom().remove(peer_id),
            old(state).hosts_present() ==> final(state).hosts_present(),
            old(state).members_are_peers() ==> final(state).members_are_peers(),
            old(state).disjoint() ==> final(state).disjoint(),
            match Self::departure(old(state), peer_id) {
                Departure::Unknown | Departure::Roomless => {
                    &&& plan@ == Seq::<Delivery>::empty()
                    &&& final(state).rooms() == old(state).rooms()
                    &&& final(state).peers() == old(state).peers().remove(peer_id)
                },
                Departure::Host(name) => {
                    let survivors = without_member(old(state).members(name), peer_id);
                    &&& plan@ == Self::host_left_plan(peer_id, survivors)
                    &&& final(state).rooms() == old(state).rooms().remove(name)
                    &&& forall|id: PeerId| #[trigger]
                        final(state).peers().contains_key(id) ==> final(state).peers()[id] == if survivors.contains(
                            id,
                        ) {
                            old(state).peers()[id].cleared()
                        } else {
                            old(state).peers()[id]
                        }
                },
                Departure::Guest(name) => {
                    &&& plan@ == Self::guest_left_plan(peer_id, old(state).host(name))
                    &&& final(state).peers() == old(state).peers().remove(peer_id)
                    &&& final(state).rooms().dom() == old(state).rooms().dom()
                    &&& final(state).members(name) == without_member(old(state).members(name), peer_id)
                    &&& final(state).host(name) == old(state).host(name)
                    &&& forall|n: Seq<char>|
                        n != name && old(state).rooms().contains_key(n) ==> #[trigger] final(state).rooms()[n]
                            == old(state).rooms()[n]
                },
            },
    {
        let removed = state.remove_peer(&peer_id);
        match removed {
            Some(peer) => {
                match peer.room {
                    Some(room_id) => {
                        let host = state.get_room_host_peer(&room_id);
                        let was_host = match host {
                            Some(h) => h == peer_id,
                            None => false,
                        };
                        if was_host {
                            let survivors = state.get_room_peers(&room_id);
                            let plan = Self::host_left_notices(peer_id, &survivors);
                            let _ = state.remove_room(&room_id);
                            proof {
                                lemma_without_member(old(state).members(room_id@), peer_id);
                                assert(final(state).peers().dom() =~= old(state).peers().dom().remove(peer_id));
                            }
                            plan
                        } else {
                            let mut plan: Vec<Delivery> = Vec::new();
                            match host {
                                Some(h) => {
                                    plan.push(
                                        Delivery { to: h, event: SignalEvent::Peer(PeerEvent::PeerLeft(peer_id)) },
                                    );
                                },
                                None => {},
                            }
                            assert(plan@ =~= Self::guest_left_plan(peer_id, old(state).host(room_id@)));
                            plan
                        }
                    },
                    None => {
                        assert(state.rooms() =~= old(state).rooms());
                        Vec::new()
                    },
                }
            },
            None => {
                assert(state.rooms() =~= old(state).rooms());
                Vec::new()
            },
        }
    }

    /// How `peer` stands in `state` when its session ends.
    pub open spec fn departure(state: &ServerState, peer: PeerId) -> Departure {
        if !state.peers().contains_key(peer) {
            Departure::Unknown
        } else {
            match state.peers()[peer].room_name() {
                None => Departure::Roomless,
                Some(name) => if state.host(name) == Some(peer) {
                    Departure::Host(name)
                } else {
                    Departure::Guest(name)
                },
            }
        }
    }

    /// Sends the events in their order, each to its peer, and returns what came of
    /// each: one that fails holds up none of the others.
    pub fn dispatch(state: &ServerState, deliveries: Vec<Delivery>) -> (outcomes: Vec<Result<(), SignalingError>>)
        requires
            state.wf(),
        ensures
            outcomes@.len() == deliveries@.len(),
            forall|i: int|
                0 <= i < deliveries@.len() ==> if state.peers().contains_key(deliveries@[i].to) {
                    #[trigger] outcomes@[i] == Ok::<(), SignalingError>(()) || outcomes@[i] == Err::<
                        (),
                        SignalingError,
                    >(SignalingError::Transport)
                } else {
                    outcomes@[i] == Err::<(), SignalingError>(SignalingError::UnknownPeer)
                },
    {
        let mut rest = deliveries;
        let mut outcomes: Vec<Result<(), SignalingError>> = Vec::new();
        while rest.len() > 0
            invariant
                state.wf(),
                outcomes@.len() + rest@.len() == deliveries@.len(),
                rest@ == deliveries@.skip(outcomes@.len() as int),
                forall|i: int|
                    0 <= i < outcomes@.len() ==> if state.peers().contains_key(deliveries@[i].to) {
                        #[trigger] outcomes@[i] == Ok::<(), SignalingError>(()) || outcomes@[i] == Err::<
                            (),
                            SignalingError,
                        >(SignalingError::Transport)
                    } else {
                        outcomes@[i] == Err::<(), SignalingError>(SignalingError::UnknownPeer)
                    },
            decreases rest@.len(),
        {
            let ghost done = outcomes@.len() as int;
            let next = rest.remove(0);
            assert(next == deliveries@[done]);
            assert(rest@ =~= deliveries@.skip(done + 1));
            let outcome = state.try_send(&next.to, next.event);
            outcomes.push(outcome);
        }
        outcomes
    }
}

/// When a host has left, each of those who stay is owed the closing of the
/// room exactly once, and nobody else is owed it.
pub proof fn lemma_one_room_closed_per_survivor(peer: PeerId, survivors: Seq<PeerId>, member: PeerId)
    requires
        survivors.no_duplicates(),
        survivors.contains(member),
    ensures
        ({
            let plan = MatchmakingDemoTopology::host_left_plan(peer, survivors);
            &&& exists|j: int|
                0 <= j < plan.len() && #[trigger] plan[j] == (Delivery { to: member, event: SignalEvent::RoomClosed })
                    && forall|k: int|
                    0 <= k < plan.len() && (#[trigger] plan[k]).to == member && plan[k].event is RoomClosed ==> k == j
            &&& forall|k: int|
                0 <= k < plan.len() && (#[trigger] plan[k]).event is RoomClosed ==> survivors.contains(plan[k].to)
        }),
{
    let plan = MatchmakingDemoTopology::host_left_plan(peer, survivors);
    let n = survivors.len() as int;
    let i = choose|i: int| 0 <= i < survivors.len() && survivors[i] == member;
    let j = n + i;
    assert(plan[j] == (Delivery { to: member, event: SignalEvent::RoomClosed }));
    assert forall|k: int|
        0 <= k < plan.len() && (#[trigger] plan[k]).to == member && plan[k].event is RoomClosed implies k == j by {
        if k >= n {
            assert(survivors[k - n] == member);
        }
    }
    assert forall|k: int| 0 <= k < plan.len() && (#[trigger] plan[k]).event is RoomClosed implies survivors.contains(
        plan[k].to,
    ) by {
        assert(k >= n);
        assert(survivors[k - n] == plan[k].to);
    }
}

/// A room is announced as opened when it is made, and then only: to the peer
/// that made it, which is its host, and before anything else. A peer that
/// joins a room that is there is owed no such announcement. This holds for a
/// peer that was not active before, where every member of a room is active and
/// every host is a member.
pub proof fn lemma_room_opened_when_made(before: &ServerState, peer: Peer, room: RoomId, after: &ServerState)
    requires
        before.wf(),
        before.hosts_present(),
        before.members_are_peers(),
        !before.peers().contains_key(peer.uuid),
        ServerState::peer_added(before, peer, room, after),
    ensures
        ({
            let plan = MatchmakingDemoTopology::join_plan(peer.uuid, room, after.host(room@));
            let opened = Delivery { to: peer.uuid, event: SignalEvent::RoomOpened(room.0) };
            &&& forall|k: int| 0 < k < plan.len() ==> !((#[trigger] plan[k]).event is RoomOpened)
            &&& if before.rooms().contains_key(room@) {
                !(plan[0].event is RoomOpened)
            } else {
                plan[0] == opened && after.host(room@) == Some(peer.uuid)
            }
        }),
{
    if before.rooms().contains_key(room@) {
        lemma_host_is_member(before, room@);
        assert(before.rooms()[room@].peers@.contains(before.rooms()[room@].host));
    }
}

/// When the host of a room ends its session, those who stay are the other
/// members of the room, each once, and each of them is owed the closing of the
/// room exactly once.
pub proof fn lemma_host_departure(state: &ServerState, peer: PeerId, member: PeerId)
    requires
        state.wf(),
        MatchmakingDemoTopology::departure(state, peer) is Host,
        member != peer,
        state.members(MatchmakingDemoTopology::departure(state, peer)->Host_0).contains(member),
    ensures
        ({
            let name = MatchmakingDemoTopology::departure(state, peer)->Host_0;
            let survivors = without_member(state.members(name), peer);
            let plan = MatchmakingDemoTopology::host_left_plan(peer, survivors);
            &&& survivors.no_duplicates()
            &&& !survivors.contains(peer)
            &&& survivors.contains(member)
            &&& exists|j: int|
                0 <= j < plan.len() && #[trigger] plan[j] == (Delivery { to: member, event: SignalEvent::RoomClosed })
                    && forall|k: int|
                    0 <= k < plan.len() && (#[trigger] plan[k]).to == member && plan[k].event is RoomClosed ==> k == j
        }),
{
    let name = MatchmakingDemoTopology::departure(state, peer)->Host_0;
    lemma_active_peer_is_member(state, peer);
    lemma_without_member(state.members(name), peer);
    lemma_one_room_closed_per_survivor(peer, without_member(state.members(name), peer), member);
}

/// How a peer stands when its session ends.
pub ghost enum Departure {
    /// It is not active.
    Unknown,
    /// It is active, in no room.
    Roomless,
    /// It is the host of the room of this name.
    Host(Seq<char>),
    /// It is in the room of this name, and not its host.
    Guest(Seq<char>),
}

} // verus!
