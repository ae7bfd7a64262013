//! The messages that cross the server: requests from a peer, events to a peer.

use vstd::prelude::*;

verus! {

/// The identity of a connected peer: an opaque 128-bit value.
#[derive(Debug, Clone, Copy, PartialEq, Eq, Structural, Hash, PartialOrd, Ord)]
pub struct PeerId(pub u128);

/// What one peer tells another through the server while they set up a direct channel.
#[derive(Debug, PartialEq, Eq)]
pub enum PeerSignal {
    IceCandidate(String),
    Offer(String),
    Answer(String),
}

/// Requests go from peer to signaling server.
#[derive(Debug, PartialEq, Eq)]
pub enum PeerRequest<S> {
    Signal { receiver: PeerId, data: S },
    KeepAlive,
}

/// Events go from signaling server to peer.
#[derive(Debug, PartialEq, Eq)]
pub enum PeerEvent<S> {
    /// Sent to the connecting peer right after the connection, before any other event.
    IdAssigned(PeerId),
    NewPeer(PeerId),
    PeerLeft(PeerId),
    Signal { sender: PeerId, data: S },
}

/// Everything the server may send to a peer.
#[derive(Debug, PartialEq, Eq)]
pub enum SignalEvent<S> {
    Peer(PeerEvent<S>),
    /// Id of the room that was created.
    RoomOpened(String),
    /// The host has left.
    RoomClosed,
    /// Whether the receiving peer is the host of its room.
    HostStatus(bool),
    /// Arbitrary data.
    Data(Vec<u8>),
}

} // verus!
