use netsync::codec::decode_client_message;
use netsync::codec::decode_server_message;
use netsync::codec::encode_client_message;
use netsync::codec::encode_server_message;
use netsync::codec::DecodeError;
use netsync::protocol::ClientMessage;
use netsync::protocol::ServerMessage;
use netsync::protocol::Vec2Bits;

fn vec2(x: f32, y: f32) -> Vec2Bits {
    Vec2Bits { x: x.to_bits(), y: y.to_bits() }
}

#[test]
fn client_transform_round_trip() {
    let m = ClientMessage::PlayerTransformUpdate {
        position: vec2(5.0, -2.5),
        rotation: 1.25f32.to_bits(),
    };
    let bytes = encode_client_message(&m);
    assert_eq!(bytes.len(), 13);
    match decode_client_message(&bytes) {
        Ok(ClientMessage::PlayerTransformUpdate { position, rotation }) => {
            assert_eq!(position, vec2(5.0, -2.5));
            assert_eq!(rotation, 1.25f32.to_bits());
        }
        other => panic!("wrong decode: {:?}", other.map(|_| ())),
    }
}

#[test]
fn client_transform_zero_vector_round_trip() {
    let m = ClientMessage::PlayerTransformUpdate {
        position: vec2(0.0, 0.0),
        rotation: 0.0f32.to_bits(),
    };
    let bytes = encode_client_message(&m);
    match decode_client_message(&bytes) {
        Ok(ClientMessage::PlayerTransformUpdate { position, rotation }) => {
            assert_eq!(position, Vec2Bits { x: 0, y: 0 });
            assert_eq!(rotation, 0);
        }
        _ => panic!("wrong decode"),
    }
}

#[test]
fn client_shoot_exact_bytes() {
    let direction = 1.0f32.to_bits();
    let m = ClientMessage::Shoot { direction };
    let bytes = encode_client_message(&m);
    let mut expected = vec![1u8];
    expected.extend_from_slice(&direction.to_le_bytes());
    assert_eq!(bytes, expected);
    match decode_client_message(&bytes) {
        Ok(ClientMessage::Shoot { direction: d }) => assert_eq!(d, direction),
        _ => panic!("wrong decode"),
    }
}

#[test]
fn client_chat_round_trip() {
    let m = ClientMessage::ChatMessage(String::from("hello, world"));
    let bytes = encode_client_message(&m);
    match decode_client_message(&bytes) {
        Ok(ClientMessage::ChatMessage(text)) => assert_eq!(text, "hello, world"),
        _ => panic!("wrong decode"),
    }
}

#[test]
fn client_chat_empty_round_trip() {
    let m = ClientMessage::ChatMessage(String::new());
    let bytes = encode_client_message(&m);
    assert_eq!(bytes, vec![2u8]);
    match decode_client_message(&bytes) {
        Ok(ClientMessage::ChatMessage(text)) => assert_eq!(text, ""),
        _ => panic!("wrong decode"),
    }
}

#[test]
fn client_chat_non_ascii_round_trip() {
    // The encoded form is UTF-8, not the character values: decoding must
    // reassemble multi-byte characters, so a codec that hands bytes through
    // unchanged fails here.
    let m = ClientMessage::ChatMessage(String::from("héllo ☺"));
    let bytes = encode_client_message(&m);
    assert_eq!(&bytes[1..], "héllo ☺".as_bytes());
    assert!(bytes.len() > 1 + "héllo ☺".chars().count());
    match decode_client_message(&bytes) {
        Ok(ClientMessage::ChatMessage(text)) => assert_eq!(text, "héllo ☺"),
        _ => panic!("wrong decode"),
    }
}

#[test]
fn client_decode_empty_is_bad_length() {
    assert_eq!(decode_client_message(&[]).unwrap_err(), DecodeError::BadLength);
}

#[test]
fn client_decode_unknown_tag() {
    assert_eq!(decode_client_message(&[9u8, 0, 0]).unwrap_err(), DecodeError::UnknownTag);
}

#[test]
fn client_decode_truncated_transform() {
    assert_eq!(decode_client_message(&[0u8, 1, 2, 3]).unwrap_err(), DecodeError::BadLength);
}

#[test]
fn client_decode_oversized_shoot() {
    assert_eq!(
        decode_client_message(&[1u8, 1, 2, 3, 4, 5]).unwrap_err(),
        DecodeError::BadLength
    );
}

#[test]
fn client_decode_invalid_utf8_chat() {
    assert_eq!(decode_client_message(&[2u8, 0xff, 0xfe]).unwrap_err(), DecodeError::InvalidUtf8);
}

#[test]
fn server_joined_round_trip() {
    let m = ServerMessage::PlayerJoined {
        id: 7,
        username: String::from("Alice"),
        position: vec2(0.0, 0.0),
    };
    let bytes = encode_server_message(&m);
    assert_eq!(bytes.len(), 17 + 5);
    match decode_server_message(&bytes) {
        Ok(ServerMessage::PlayerJoined { id, username, position }) => {
            assert_eq!(id, 7);
            assert_eq!(username, "Alice");
            assert_eq!(position, vec2(0.0, 0.0));
        }
        _ => panic!("wrong decode"),
    }
}

#[test]
fn server_joined_empty_username_round_trip() {
    let m = ServerMessage::PlayerJoined {
        id: u64::MAX,
        username: String::new(),
        position: vec2(-1.0, 1.0),
    };
    let bytes = encode_server_message(&m);
    assert_eq!(bytes.len(), 17);
    match decode_server_message(&bytes) {
        Ok(ServerMessage::PlayerJoined { id, username, position }) => {
            assert_eq!(id, u64::MAX);
            assert_eq!(username, "");
            assert_eq!(position, vec2(-1.0, 1.0));
        }
        _ => panic!("wrong decode"),
    }
}

#[test]
fn server_left_exact_bytes() {
    let m = ServerMessage::PlayerLeft { id: 0x0102030405060708 };
    let bytes = encode_server_message(&m);
    let mut expected = vec![1u8];
    expected.extend_from_slice(&0x0102030405060708u64.to_le_bytes());
    assert_eq!(bytes, expected);
    match decode_server_message(&bytes) {
        Ok(ServerMessage::PlayerLeft { id }) => assert_eq!(id, 0x0102030405060708),
        _ => panic!("wrong decode"),
    }
}

#[test]
fn server_transform_round_trip() {
    let m = ServerMessage::PlayerTransformUpdate {
        id: 1,
        position: vec2(5.0, 0.0),
        rotation: 0.0f32.to_bits(),
    };
    let bytes = encode_server_message(&m);
    assert_eq!(bytes.len(), 21);
    match decode_server_message(&bytes) {
        Ok(ServerMessage::PlayerTransformUpdate { id, position, rotation }) => {
            assert_eq!(id, 1);
            assert_eq!(position, vec2(5.0, 0.0));
            assert_eq!(rotation, 0);
        }
        _ => panic!("wrong decode"),
    }
}

#[test]
fn server_spawn_orc_round_trip() {
    let m = ServerMessage::SpawnOrc {
        id: 42,
        position: vec2(3.0, 4.0),
        direction: 0.5f32.to_bits(),
    };
    let bytes = encode_server_message(&m);
    match decode_server_message(&bytes) {
        Ok(ServerMessage::SpawnOrc { id, position, direction }) => {
            assert_eq!(id, 42);
            assert_eq!(position, vec2(3.0, 4.0));
            assert_eq!(direction, 0.5f32.to_bits());
        }
        _ => panic!("wrong decode"),
    }
}

#[test]
fn server_orc_transform_round_trip() {
    let m = ServerMessage::OrcTransformUpdate {
        id: 42,
        position: vec2(6.0, 8.0),
        rotation: 0.5f32.to_bits(),
    };
    let bytes = encode_server_message(&m);
    match decode_server_message(&bytes) {
        Ok(ServerMessage::OrcTransformUpdate { id, position, rotation }) => {
            assert_eq!(id, 42);
            assert_eq!(position, vec2(6.0, 8.0));
            assert_eq!(rotation, 0.5f32.to_bits());
        }
        _ => panic!("wrong decode"),
    }
}

#[test]
fn server_chat_round_trip() {
    let m = ServerMessage::ChatMessage { author: 3, content: String::from("gg") };
    let bytes = encode_server_message(&m);
    match decode_server_message(&bytes) {
        Ok(ServerMessage::ChatMessage { author, content }) => {
            assert_eq!(author, 3);
            assert_eq!(content, "gg");
        }
        _ => panic!("wrong decode"),
    }
}

#[test]
fn server_decode_errors() {
    assert_eq!(decode_server_message(&[]).unwrap_err(), DecodeError::BadLength);
    assert_eq!(decode_server_message(&[17u8]).unwrap_err(), DecodeError::UnknownTag);
    // PlayerJoined needs at least 17 bytes.
    assert_eq!(decode_server_message(&[0u8; 16]).unwrap_err(), DecodeError::BadLength);
    // PlayerLeft needs exactly 9 bytes.
    assert_eq!(decode_server_message(&[1u8; 10]).unwrap_err(), DecodeError::BadLength);
    // A username that is not UTF-8.
    let mut bad = vec![0u8; 17];
    bad.push(0xff);
    assert_eq!(decode_server_message(&bad).unwrap_err(), DecodeError::InvalidUtf8);
}

#[test]
fn distinct_messages_have_distinct_encodings() {
    let a = encode_client_message(&ClientMessage::Shoot { direction: 1 });
    let b = encode_client_message(&ClientMessage::Shoot { direction: 2 });
    assert_ne!(a, b);
    let c = encode_server_message(&ServerMessage::PlayerLeft { id: 1 });
    let d = encode_server_message(&ServerMessage::PlayerLeft { id: 2 });
    assert_ne!(c, d);
}
