//! Binary codec for the wire messages.
//!
//! Every message is one tag byte followed by the variant's fields. Integers
//! are little-endian; positions and angles are the little-endian bytes of
//! their `f32` bit patterns. A text field is always the last field of its
//! variant and travels as its UTF-8 bytes with no length prefix: the
//! transport delivers each message as one packet, so the text runs to the
//! end of the packet. Encoding is total and deterministic; decoding accepts
//! exactly the encodings and reports every malformed packet as a
//! [`DecodeError`] instead of panicking.

use vstd::prelude::*;
use vstd::bytes::*;
use vstd::slice::*;
use vstd::string::*;
use vstd::utf8::*;

use crate::protocol::ClientMessage;
use crate::protocol::ClientMessageView;
use crate::protocol::ServerMessage;
use crate::protocol::ServerMessageView;
use crate::protocol::Vec2Bits;

verus! {

pub const TAG_CLIENT_TRANSFORM: u8 = 0;

pub const TAG_CLIENT_SHOOT: u8 = 1;

pub const TAG_CLIENT_CHAT: u8 = 2;

pub const TAG_SERVER_JOINED: u8 = 0;

pub const TAG_SERVER_LEFT: u8 = 1;

pub const TAG_SERVER_TRANSFORM: u8 = 2;

pub const TAG_SERVER_SPAWN_ORC: u8 = 3;

pub const TAG_SERVER_ORC_TRANSFORM: u8 = 4;

pub const TAG_SERVER_CHAT: u8 = 5;

/// Why an inbound packet was rejected. The packet is dropped and the
/// connection stays alive, whatever the reason.
#[derive(Clone, Copy, PartialEq, Eq, Structural, Debug)]
pub enum DecodeError {
    /// The packet is empty, or not the length its tag demands.
    BadLength,
    /// The tag byte matches no known message variant.
    UnknownTag,
    /// A text field is not valid UTF-8.
    InvalidUtf8,
}

/// The little-endian bytes of a 2-D vector: four bytes of `x`, then four of
/// `y`.
pub open spec fn spec_encode_vec2(v: Vec2Bits) -> Seq<u8> {
    spec_u32_to_le_bytes(v.x) + spec_u32_to_le_bytes(v.y)
}

/// The vector read back from eight little-endian bytes.
pub open spec fn spec_decode_vec2(s: Seq<u8>) -> Vec2Bits
    recommends
        s.len() == 8,
{
    Vec2Bits {
        x: spec_u32_from_le_bytes(s.subrange(0, 4)),
        y: spec_u32_from_le_bytes(s.subrange(4, 8)),
    }
}

/// The exact bytes that encode a client message.
pub open spec fn spec_encode_client(m: ClientMessageView) -> Seq<u8> {
    match m {
        ClientMessageView::PlayerTransformUpdate { position, rotation } => seq![
            TAG_CLIENT_TRANSFORM,
        ] + spec_encode_vec2(position) + spec_u32_to_le_bytes(rotation),
        ClientMessageView::Shoot { direction } => seq![TAG_CLIENT_SHOOT] + spec_u32_to_le_bytes(
            direction,
        ),
        ClientMessageView::ChatMessage(text) => seq![TAG_CLIENT_CHAT] + encode_utf8(text),
    }
}

/// The client message a byte sequence decodes to, or the reason it is
/// rejected.
pub open spec fn spec_decode_client(bytes: Seq<u8>) -> Result<ClientMessageView, DecodeError> {
    if bytes.len() == 0 {
        Err(DecodeError::BadLength)
    } else if bytes[0] == TAG_CLIENT_TRANSFORM {
        if bytes.len() == 13 {
            Ok(
                ClientMessageView::PlayerTransformUpdate {
                    position: spec_decode_vec2(bytes.subrange(1, 9)),
                    rotation: spec_u32_from_le_bytes(bytes.subrange(9, 13)),
                },
            )
        } else {
            Err(DecodeError::BadLength)
        }
    } else if bytes[0] == TAG_CLIENT_SHOOT {
        if bytes.len() == 5 {
            Ok(ClientMessageView::Shoot { direction: spec_u32_from_le_bytes(bytes.subrange(1, 5)) })
        } else {
            Err(DecodeError::BadLength)
        }
    } else if bytes[0] == TAG_CLIENT_CHAT {
        if valid_utf8(bytes.skip(1)) {
            Ok(ClientMessageView::ChatMessage(decode_utf8(bytes.skip(1))))
        } else {
            Err(DecodeError::InvalidUtf8)
        }
    } else {
        Err(DecodeError::UnknownTag)
    }
}

/// The exact bytes that encode a server message.
pub open spec fn spec_encode_server(m: ServerMessageView) -> Seq<u8> {
    match m {
        ServerMessageView::PlayerJoined { id, username, position } => seq![TAG_SERVER_JOINED]
            + spec_u64_to_le_bytes(id) + spec_encode_vec2(position) + encode_utf8(username),
        ServerMessageView::PlayerLeft { id } => seq![TAG_SERVER_LEFT] + spec_u64_to_le_bytes(id),
        ServerMessageView::PlayerTransformUpdate { id, position, rotation } => seq![
            TAG_SERVER_TRANSFORM,
        ] + spec_u64_to_le_bytes(id) + spec_encode_vec2(position) + spec_u32_to_le_bytes(rotation),
        ServerMessageView::SpawnOrc { id, position, direction } => seq![TAG_SERVER_SPAWN_ORC]
            + spec_u64_to_le_bytes(id) + spec_encode_vec2(position) + spec_u32_to_le_bytes(
            direction,
        ),
        ServerMessageView::OrcTransformUpdate { id, position, rotation } => seq![
            TAG_SERVER_ORC_TRANSFORM,
        ] + spec_u64_to_le_bytes(id) + spec_encode_vec2(position) + spec_u32_to_le_bytes(rotation),
        ServerMessageView::ChatMessage { author, content } => seq![TAG_SERVER_CHAT]
            + spec_u64_to_le_bytes(author) + encode_utf8(content),
    }
}

/// The server message a byte sequence decodes to, or the reason it is
/// rejected.
pub open spec fn spec_decode_server(bytes: Seq<u8>) -> Result<ServerMessageView, DecodeError> {
    if bytes.len() == 0 {
        Err(DecodeError::BadLength)
    } else if bytes[0] == TAG_SERVER_JOINED {
        if bytes.len() >= 17 {
            if valid_utf8(bytes.skip(17)) {
                Ok(
                    ServerMessageView::PlayerJoined {
                        id: spec_u64_from_le_bytes(bytes.subrange(1, 9)),
                        username: decode_utf8(bytes.skip(17)),
                        position: spec_decode_vec2(bytes.subrange(9, 17)),
                    },
                )
            } else {
                Err(DecodeError::InvalidUtf8)
            }
        } else {
            Err(DecodeError::BadLength)
        }
    } else if bytes[0] == TAG_SERVER_LEFT {
        if bytes.len() == 9 {
            Ok(ServerMessageView::PlayerLeft { id: spec_u64_from_le_bytes(bytes.subrange(1, 9)) })
        } else {
            Err(DecodeError::BadLength)
        }
    } else if bytes[0] == TAG_SERVER_TRANSFORM {
        if bytes.len() == 21 {
            Ok(
                ServerMessageView::PlayerTransformUpdate {
                    id: spec_u64_from_le_bytes(bytes.subrange(1, 9)),
                    position: spec_decode_vec2(bytes.subrange(9, 17)),
                    rotation: spec_u32_from_le_bytes(bytes.subrange(17, 21)),
                },
            )
        } else {
            Err(DecodeError::BadLength)
        }
    } else if bytes[0] == TAG_SERVER_SPAWN_ORC {
        if bytes.len() == 21 {
            Ok(
                ServerMessageView::SpawnOrc {
                    id: spec_u64_from_le_bytes(bytes.subrange(1, 9)),
                    position: spec_decode_vec2(bytes.subrange(9, 17)),
                    direction: spec_u32_from_le_bytes(bytes.subrange(17, 21)),
                },
            )
        } else {
            Err(DecodeError::BadLength)
        }
    } else if bytes[0] == TAG_SERVER_ORC_TRANSFORM {
        if bytes.len() == 21 {
            Ok(
                ServerMessageView::OrcTransformUpdate {
                    id: spec_u64_from_le_bytes(bytes.subrange(1, 9)),
                    position: spec_decode_vec2(bytes.subrange(9, 17)),
                    rotation: spec_u32_from_le_bytes(bytes.subrange(17, 21)),
                },
            )
        } else {
            Err(DecodeError::BadLength)
        }
    } else if bytes[0] == TAG_SERVER_CHAT {
        if bytes.len() >= 9 {
            if valid_utf8(bytes.skip(9)) {
                Ok(
                    ServerMessageView::ChatMessage {
                        author: spec_u64_from_le_bytes(bytes.subrange(1, 9)),
                        content: decode_utf8(bytes.skip(9)),
                    },
                )
            } else {
                Err(DecodeError::InvalidUtf8)
            }
        } else {
            Err(DecodeError::BadLength)
        }
    } else {
        Err(DecodeError::UnknownTag)
    }
}

/// Appends the four little-endian bytes of `x`.
pub(crate) fn push_u32(out: &mut Vec<u8>, x: u32)
    ensures
        final(out)@ == old(out)@ + spec_u32_to_le_bytes(x),
{
    let mut b = u32_to_le_bytes(x);
    out.append(&mut b);
}

/// Appends the eight little-endian bytes of `x`.
pub(crate) fn push_u64(out: &mut Vec<u8>, x: u64)
    ensures
        final(out)@ == old(out)@ + spec_u64_to_le_bytes(x),
{
    let mut b = u64_to_le_bytes(x);
    out.append(&mut b);
}

/// Appends the UTF-8 bytes of `text`.
pub(crate) fn push_str_bytes(out: &mut Vec<u8>, text: &str)
    ensures
        final(out)@ == old(out)@ + encode_utf8(text@),
{
    let mut b = text.as_bytes_vec();
    out.append(&mut b);
}

/// Reads the `u32` whose little-endian bytes sit at `offset`.
pub(crate) fn read_u32(bytes: &[u8], offset: usize) -> (x: u32)
    requires
        offset + 4 <= bytes@.len() <= usize::MAX,
    ensures
        x == spec_u32_from_le_bytes(bytes@.subrange(offset as int, offset as int + 4)),
{
    let s = slice_subrange(bytes, offset, offset + 4);
    u32_from_le_bytes(s)
}

/// Reads the `u64` whose little-endian bytes sit at `offset`.
pub(crate) fn read_u64(bytes: &[u8], offset: usize) -> (x: u64)
    requires
        offset + 8 <= bytes@.len() <= usize::MAX,
    ensures
        x == spec_u64_from_le_bytes(bytes@.subrange(offset as int, offset as int + 8)),
{
    let s = slice_subrange(bytes, offset, offset + 8);
    u64_from_le_bytes(s)
}

/// Reads the vector whose eight little-endian bytes sit at `offset`.
pub(crate) fn read_vec2(bytes: &[u8], offset: usize) -> (v: Vec2Bits)
    requires
        offset + 8 <= bytes@.len() <= usize::MAX,
    ensures
        v == spec_decode_vec2(bytes@.subrange(offset as int, offset as int + 8)),
{
    let x = read_u32(bytes, offset);
    let y = read_u32(bytes, offset + 4);
    proof {
        let w = bytes@.subrange(offset as int, offset as int + 8);
        assert(w.subrange(0, 4) =~= bytes@.subrange(offset as int, offset as int + 4));
        assert(w.subrange(4, 8) =~= bytes@.subrange(offset as int + 4, offset as int + 8));
    }
    Vec2Bits { x, y }
}

/// Relies on `core::str::from_utf8`: it accepts exactly the UTF-8-valid byte
/// sequences, and the string it returns views those bytes as characters.
#[verifier::external_body]
pub(crate) fn str_from_utf8<'a>(bytes: &'a [u8]) -> (r: Option<&'a str>)
    ensures
        r is Some <==> valid_utf8(bytes@),
        r matches Some(s) ==> encode_utf8(s@) == bytes@,
{
    core::str::from_utf8(bytes).ok()
}

/// Serializes a client message; total and deterministic.
pub fn encode_client_message(m: &ClientMessage) -> (r: Vec<u8>)
    ensures
        r@ == spec_encode_client(m@),
{
    let mut out: Vec<u8> = Vec::new();
    match m {
        ClientMessage::PlayerTransformUpdate { position, rotation } => {
            out.push(TAG_CLIENT_TRANSFORM);
            push_u32(&mut out, position.x);
            push_u32(&mut out, position.y);
            push_u32(&mut out, *rotation);
            assert(out@ =~= spec_encode_client(m@));
        },
        ClientMessage::Shoot { direction } => {
            out.push(TAG_CLIENT_SHOOT);
            push_u32(&mut out, *direction);
            assert(out@ =~= spec_encode_client(m@));
        },
        ClientMessage::ChatMessage(text) => {
            out.push(TAG_CLIENT_CHAT);
            push_str_bytes(&mut out, text.as_str());
            assert(out@ =~= spec_encode_client(m@));
        },
    }
    out
}

/// Serializes a server message; total and deterministic.
pub fn encode_server_message(m: &ServerMessage) -> (r: Vec<u8>)
    ensures
        r@ == spec_encode_server(m@),
{
    let mut out: Vec<u8> = Vec::new();
    match m {
        ServerMessage::PlayerJoined { id, username, position } => {
            out.push(TAG_SERVER_JOINED);
            push_u64(&mut out, *id);
            push_u32(&mut out, position.x);
            push_u32(&mut out, position.y);
            push_str_bytes(&mut out, username.as_str());
            assert(out@ =~= spec_encode_server(m@));
        },
        ServerMessage::PlayerLeft { id } => {
            out.push(TAG_SERVER_LEFT);
            push_u64(&mut out, *id);
            assert(out@ =~= spec_encode_server(m@));
        },
        ServerMessage::PlayerTransformUpdate { id, position, rotation } => {
            out.push(TAG_SERVER_TRANSFORM);
            push_u64(&mut out, *id);
            push_u32(&mut out, position.x);
            push_u32(&mut out, position.y);
            push_u32(&mut out, *rotation);
            assert(out@ =~= spec_encode_server(m@));
        },
        ServerMessage::SpawnOrc { id, position, direction } => {
            out.push(TAG_SERVER_SPAWN_ORC);
            push_u64(&mut out, *id);
            push_u32(&mut out, position.x);
            push_u32(&mut out, position.y);
            push_u32(&mut out, *direction);
            assert(out@ =~= spec_encode_server(m@));
        },
        ServerMessage::OrcTransformUpdate { id, position, rotation } => {
            out.push(TAG_SERVER_ORC_TRANSFORM);
            push_u64(&mut out, *id);
            push_u32(&mut out, position.x);
            push_u32(&mut out, position.y);
            push_u32(&mut out, *rotation);
            assert(out@ =~= spec_encode_server(m@));
        },
        ServerMessage::ChatMessage { author, content } => {
            out.push(TAG_SERVER_CHAT);
            push_u64(&mut out, *author);
            push_str_bytes(&mut out, content.as_str());
            assert(out@ =~= spec_encode_server(m@));
        },
    }
    out
}

/// Parses a client message, rejecting exactly the byte sequences that no
/// message encodes to.
pub fn decode_client_message(bytes: &[u8]) -> (r: Result<ClientMessage, DecodeError>)
    ensures
        match r {
            Ok(m) => spec_decode_client(bytes@) == Ok::<ClientMessageView, DecodeError>(m@),
            Err(e) => spec_decode_client(bytes@) == Err::<ClientMessageView, DecodeError>(e),
        },
{
    if bytes.len() == 0 {
        return Err(DecodeError::BadLength);
    }
    let tag = *slice_index_get(bytes, 0);
    if tag == TAG_CLIENT_TRANSFORM {
        if bytes.len() == 13 {
            let position = read_vec2(bytes, 1);
            let rotation = read_u32(bytes, 9);
            Ok(ClientMessage::PlayerTransformUpdate { position, rotation })
        } else {
            Err(DecodeError::BadLength)
        }
    } else if tag == TAG_CLIENT_SHOOT {
        if bytes.len() == 5 {
            let direction = read_u32(bytes, 1);
            Ok(ClientMessage::Shoot { direction })
        } else {
            Err(DecodeError::BadLength)
        }
    } else if tag == TAG_CLIENT_CHAT {
        let rest = slice_subrange(bytes, 1, bytes.len());
        proof {
            assert(rest@ =~= bytes@.skip(1));
        }
        match str_from_utf8(rest) {
            Some(s) => {
                proof {
                    encode_utf8_decode_utf8(s@);
                }
                Ok(ClientMessage::ChatMessage(s.to_owned()))
            },
            None => Err(DecodeError::InvalidUtf8),
        }
    } else {
        Err(DecodeError::UnknownTag)
    }
}

/// Parses a server message, rejecting exactly the byte sequences that no
/// message encodes to.
pub fn decode_server_message(bytes: &[u8]) -> (r: Result<ServerMessage, DecodeError>)
    ensures
        match r {
            Ok(m) => spec_decode_server(bytes@) == Ok::<ServerMessageView, DecodeError>(m@),
            Err(e) => spec_decode_server(bytes@) == Err::<ServerMessageView, DecodeError>(e),
        },
{
    if bytes.len() == 0 {
        return Err(DecodeError::BadLength);
    }
    let tag = *slice_index_get(bytes, 0);
    if tag == TAG_SERVER_JOINED {
        if bytes.len() >= 17 {
            let id = read_u64(bytes, 1);
            let position = read_vec2(bytes, 9);
            let rest = slice_subrange(bytes, 17, bytes.len());
            proof {
                assert(rest@ =~= bytes@.skip(17));
            }
            match str_from_utf8(rest) {
                Some(s) => {
                    proof {
                        encode_utf8_decode_utf8(s@);
                    }
                    Ok(ServerMessage::PlayerJoined { id, username: s.to_owned(), position })
                },
                None => Err(DecodeError::InvalidUtf8),
            }
        } else {
            Err(DecodeError::BadLength)
        }
    } else if tag == TAG_SERVER_LEFT {
        if bytes.len() == 9 {
            let id = read_u64(bytes, 1);
            Ok(ServerMessage::PlayerLeft { id })
        } else {
            Err(DecodeError::BadLength)
        }
    } else if tag == TAG_SERVER_TRANSFORM {
        if bytes.len() == 21 {
            let id = read_u64(bytes, 1);
            let position = read_vec2(bytes, 9);
            let rotation = read_u32(bytes, 17);
            Ok(ServerMessage::PlayerTransformUpdate { id, position, rotation })
        } else {
            Err(DecodeError::BadLength)
        }
    } else if tag == TAG_SERVER_SPAWN_ORC {
        if bytes.len() == 21 {
            let id = read_u64(bytes, 1);
            let position = read_vec2(bytes, 9);
            let direction = read_u32(bytes, 17);
            Ok(ServerMessage::SpawnOrc { id, position, direction })
        } else {
            Err(DecodeError::BadLength)
        }
    } else if tag == TAG_SERVER_ORC_TRANSFORM {
        if bytes.len() == 21 {
            let id = read_u64(bytes, 1);
            let position = read_vec2(bytes, 9);
            let rotation = read_u32(bytes, 17);
            Ok(ServerMessage::OrcTransformUpdate { id, position, rotation })
        } else {
            Err(DecodeError::BadLength)
        }
    } else if tag == TAG_SERVER_CHAT {
        if bytes.len() >= 9 {
            let author = read_u64(bytes, 1);
            let rest = slice_subrange(bytes, 9, bytes.len());
            proof {
                assert(rest@ =~= bytes@.skip(9));
            }
            match str_from_utf8(rest) {
                Some(s) => {
                    proof {
                        encode_utf8_decode_utf8(s@);
                    }
                    Ok(ServerMessage::ChatMessage { author, content: s.to_owned() })
                },
                None => Err(DecodeError::InvalidUtf8),
            }
        } else {
            Err(DecodeError::BadLength)
        }
    } else {
        Err(DecodeError::UnknownTag)
    }
}

/// Round trip: every client message decodes back from its own encoding, for
/// every field value, the empty string and all-zero vectors included.
pub proof fn lemma_client_round_trip(m: ClientMessageView)
    ensures
        spec_decode_client(spec_encode_client(m)) == Ok::<ClientMessageView, DecodeError>(m),
{
    let bytes = spec_encode_client(m);
    lemma_auto_spec_u32_to_from_le_bytes();
    match m {
        ClientMessageView::PlayerTransformUpdate { position, rotation } => {
            assert(bytes.subrange(1, 9) =~= spec_encode_vec2(position));
            assert(spec_encode_vec2(position).subrange(0, 4) =~= spec_u32_to_le_bytes(position.x));
            assert(spec_encode_vec2(position).subrange(4, 8) =~= spec_u32_to_le_bytes(position.y));
            assert(bytes.subrange(9, 13) =~= spec_u32_to_le_bytes(rotation));
        },
        ClientMessageView::Shoot { direction } => {
            assert(bytes.subrange(1, 5) =~= spec_u32_to_le_bytes(direction));
        },
        ClientMessageView::ChatMessage(text) => {
            assert(bytes.skip(1) =~= encode_utf8(text));
            encode_utf8_valid_utf8(text);
            encode_utf8_decode_utf8(text);
        },
    }
}

/// Round trip: every server message decodes back from its own encoding, for
/// every field value, the empty string and all-zero vectors included.
pub proof fn lemma_server_round_trip(m: ServerMessageView)
    ensures
        spec_decode_server(spec_encode_server(m)) == Ok::<ServerMessageView, DecodeError>(m),
{
    let bytes = spec_encode_server(m);
    lemma_auto_spec_u32_to_from_le_bytes();
    lemma_auto_spec_u64_to_from_le_bytes();
    match m {
        ServerMessageView::PlayerJoined { id, username, position } => {
            assert(bytes.subrange(1, 9) =~= spec_u64_to_le_bytes(id));
            assert(bytes.subrange(9, 17) =~= spec_encode_vec2(position));
            assert(spec_encode_vec2(position).subrange(0, 4) =~= spec_u32_to_le_bytes(position.x));
            assert(spec_encode_vec2(position).subrange(4, 8) =~= spec_u32_to_le_bytes(position.y));
            assert(bytes.skip(17) =~= encode_utf8(username));
            encode_utf8_valid_utf8(username);
            encode_utf8_decode_utf8(username);
        },
        ServerMessageView::PlayerLeft { id } => {
            assert(bytes.subrange(1, 9) =~= spec_u64_to_le_bytes(id));
        },
        ServerMessageView::PlayerTransformUpdate { id, position, rotation } => {
            assert(bytes.subrange(1, 9) =~= spec_u64_to_le_bytes(id));
            assert(bytes.subrange(9, 17) =~= spec_encode_vec2(position));
            assert(spec_encode_vec2(position).subrange(0, 4) =~= spec_u32_to_le_bytes(position.x));
            assert(spec_encode_vec2(position).subrange(4, 8) =~= spec_u32_to_le_bytes(position.y));
            assert(bytes.subrange(17, 21) =~= spec_u32_to_le_bytes(rotation));
        },
        ServerMessageView::SpawnOrc { id, position, direction } => {
            assert(bytes.subrange(1, 9) =~= spec_u64_to_le_bytes(id));
            assert(bytes.subrange(9, 17) =~= spec_encode_vec2(position));
            assert(spec_encode_vec2(position).subrange(0, 4) =~= spec_u32_to_le_bytes(position.x));
            assert(spec_encode_vec2(position).subrange(4, 8) =~= spec_u32_to_le_bytes(position.y));
            assert(bytes.subrange(17, 21) =~= spec_u32_to_le_bytes(direction));
        },
        ServerMessageView::OrcTransformUpdate { id, position, rotation } => {
            assert(bytes.subrange(1, 9) =~= spec_u64_to_le_bytes(id));
            assert(bytes.subrange(9, 17) =~= spec_encode_vec2(position));
            assert(spec_encode_vec2(position).subrange(0, 4) =~= spec_u32_to_le_bytes(position.x));
            assert(spec_encode_vec2(position).subrange(4, 8) =~= spec_u32_to_le_bytes(position.y));
            assert(bytes.subrange(17, 21) =~= spec_u32_to_le_bytes(rotation));
        },
        ServerMessageView::ChatMessage { author, content } => {
            assert(bytes.subrange(1, 9) =~= spec_u64_to_le_bytes(author));
            assert(bytes.skip(9) =~= encode_utf8(content));
            encode_utf8_valid_utf8(content);
            encode_utf8_decode_utf8(content);
        },
    }
}

/// No two distinct client messages share an encoding.
pub proof fn lemma_client_encoding_injective(m1: ClientMessageView, m2: ClientMessageView)
    requires
        spec_encode_client(m1) == spec_encode_client(m2),
    ensures
        m1 == m2,
{
    lemma_client_round_trip(m1);
    lemma_client_round_trip(m2);
}

/// No two distinct server messages share an encoding.
pub proof fn lemma_server_encoding_injective(m1: ServerMessageView, m2: ServerMessageView)
    requires
        spec_encode_server(m1) == spec_encode_server(m2),
    ensures
        m1 == m2,
{
    lemma_server_round_trip(m1);
    lemma_server_round_trip(m2);
}

} // verus!
