//! Wire message schema shared between client and server.
//!
//! Positions and angles travel on the wire as 32-bit IEEE-754 values. The
//! synchronization core never computes with them — it only stores, compares
//! and forwards them — so the library represents each one by its exact bit
//! pattern, a `u32`. The presentation layer converts with `f32::to_bits` /
//! `f32::from_bits` at the boundary, and the codec stays bit-exact.

use vstd::prelude::*;

verus! {

/// Protocol identifier exchanged at connect time; client and server must
/// agree on it or the handshake fails.
pub const PROTOCOL_ID: u64 = 1;

/// A 2-D vector as the bit patterns of its two `f32` components.
#[derive(Clone, Copy, PartialEq, Eq, Structural, Debug)]
pub struct Vec2Bits {
    pub x: u32,
    pub y: u32,
}

/// The spawn position every player starts at: the origin, whose `f32`
/// components are all-zero bit patterns.
pub open spec fn spec_spawn_position() -> Vec2Bits {
    Vec2Bits { x: 0, y: 0 }
}

/// Executable counterpart of [`spec_spawn_position`].
pub fn spawn_position() -> (r: Vec2Bits)
    ensures
        r == spec_spawn_position(),
{
    Vec2Bits { x: 0, y: 0 }
}

/// Record exchanged once at handshake time, out of band.
#[derive(Debug)]
pub struct UserData {
    pub username: String,
}

/// Mathematical model of [`UserData`].
pub struct UserDataView {
    pub username: Seq<char>,
}

impl View for UserData {
    type V = UserDataView;

    open spec fn view(&self) -> UserDataView {
        UserDataView { username: self.username@ }
    }
}

/// Message sent from a client to the server.
#[derive(Debug)]
pub enum ClientMessage {
    PlayerTransformUpdate { position: Vec2Bits, rotation: u32 },
    Shoot { direction: u32 },
    ChatMessage(String),
}

/// Mathematical model of [`ClientMessage`].
pub enum ClientMessageView {
    PlayerTransformUpdate { position: Vec2Bits, rotation: u32 },
    Shoot { direction: u32 },
    ChatMessage(Seq<char>),
}

impl View for ClientMessage {
    type V = ClientMessageView;

    open spec fn view(&self) -> ClientMessageView {
        match self {
            ClientMessage::PlayerTransformUpdate { position, rotation } => {
                ClientMessageView::PlayerTransformUpdate {
                    position: *position,
                    rotation: *rotation,
                }
            },
            ClientMessage::Shoot { direction } => {
                ClientMessageView::Shoot { direction: *direction }
            },
            ClientMessage::ChatMessage(text) => ClientMessageView::ChatMessage(text@),
        }
    }
}

/// Message sent from the server to one client or broadcast to many.
#[derive(Debug)]
pub enum ServerMessage {
    PlayerJoined { id: u64, username: String, position: Vec2Bits },
    PlayerLeft { id: u64 },
    PlayerTransformUpdate { id: u64, position: Vec2Bits, rotation: u32 },
    SpawnOrc { id: u64, position: Vec2Bits, direction: u32 },
    OrcTransformUpdate { id: u64, position: Vec2Bits, rotation: u32 },
    ChatMessage { author: u64, content: String },
}

/// Mathematical model of [`ServerMessage`].
pub enum ServerMessageView {
    PlayerJoined { id: u64, username: Seq<char>, position: Vec2Bits },
    PlayerLeft { id: u64 },
    PlayerTransformUpdate { id: u64, position: Vec2Bits, rotation: u32 },
    SpawnOrc { id: u64, position: Vec2Bits, direction: u32 },
    OrcTransformUpdate { id: u64, position: Vec2Bits, rotation: u32 },
    ChatMessage { author: u64, content: Seq<char> },
}

impl View for ServerMessage {
    type V = ServerMessageView;

    open spec fn view(&self) -> ServerMessageView {
        match self {
            ServerMessage::PlayerJoined { id, username, position } => {
                ServerMessageView::PlayerJoined {
                    id: *id,
                    username: username@,
                    position: *position,
                }
            },
            ServerMessage::PlayerLeft { id } => ServerMessageView::PlayerLeft { id: *id },
            ServerMessage::PlayerTransformUpdate { id, position, rotation } => {
                ServerMessageView::PlayerTransformUpdate {
                    id: *id,
                    position: *position,
                    rotation: *rotation,
                }
            },
            ServerMessage::SpawnOrc { id, position, direction } => {
                ServerMessageView::SpawnOrc {
                    id: *id,
                    position: *position,
                    direction: *direction,
                }
            },
            ServerMessage::OrcTransformUpdate { id, position, rotation } => {
                ServerMessageView::OrcTransformUpdate {
                    id: *id,
                    position: *position,
                    rotation: *rotation,
                }
            },
            ServerMessage::ChatMessage { author, content } => {
                ServerMessageView::ChatMessage { author: *author, content: content@ }
            },
        }
    }
}

} // verus!
