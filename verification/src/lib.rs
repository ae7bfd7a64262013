//! Signalling and matchmaking for peer-to-peer sessions: the registries of
//! waiting, queued and active peers, the rooms they meet in, and the rules
//! that decide who is told what when a peer joins, signals or leaves.

pub mod protocol;
pub mod state;
pub mod table;
pub mod topology;
pub mod wire;
