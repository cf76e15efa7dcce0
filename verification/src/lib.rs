//! Synchronization core of a client–server multiplayer game.
//!
//! The library covers the parts of the system with real invariants: the wire
//! message schema and its binary codec, the connect-time handshake payload,
//! the server's authoritative roster of players, the broadcast engine that
//! fans roster and gameplay events out to clients, and the client-side mirror
//! that replays server messages into a local cache of remote entities.
//! Transport (UDP sockets and the netcode handshake) lives outside the
//! library; it exchanges plain byte packets with the functions defined here.

pub mod codec;
pub mod engine;
pub mod handshake;
pub mod laws;
pub mod mirror;
pub mod orcs;
pub mod protocol;
pub mod roster;
