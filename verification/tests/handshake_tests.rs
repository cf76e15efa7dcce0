use netsync::codec::DecodeError;
use netsync::handshake::decode_user_data;
use netsync::handshake::encode_user_data;
use netsync::handshake::MAX_USER_DATA_BYTES;
use netsync::protocol::UserData;

#[test]
fn user_data_round_trip() {
    let buf = encode_user_data(&UserData { username: String::from("Alice") }).unwrap();
    assert_eq!(buf.len(), MAX_USER_DATA_BYTES);
    assert_eq!(&buf[0..8], &5u64.to_le_bytes());
    assert_eq!(&buf[8..13], b"Alice");
    assert!(buf[13..].iter().all(|b| *b == 0));
    let back = decode_user_data(&buf).unwrap();
    assert_eq!(back.username, "Alice");
}

#[test]
fn user_data_empty_username_round_trip() {
    let buf = encode_user_data(&UserData { username: String::new() }).unwrap();
    assert_eq!(buf.len(), MAX_USER_DATA_BYTES);
    assert!(buf.iter().all(|b| *b == 0));
    let back = decode_user_data(&buf).unwrap();
    assert_eq!(back.username, "");
}

#[test]
fn user_data_largest_fitting_username() {
    // Eight length bytes plus 248 text bytes exactly fill the buffer.
    let name = "a".repeat(MAX_USER_DATA_BYTES - 8);
    let buf = encode_user_data(&UserData { username: name.clone() }).unwrap();
    assert_eq!(buf.len(), MAX_USER_DATA_BYTES);
    let back = decode_user_data(&buf).unwrap();
    assert_eq!(back.username, name);
}

#[test]
fn user_data_too_large_fails_before_any_traffic() {
    let name = "a".repeat(MAX_USER_DATA_BYTES - 7);
    assert!(encode_user_data(&UserData { username: name }).is_err());
}

#[test]
fn user_data_size_counts_utf8_bytes_not_characters() {
    // 125 two-byte characters fit (8 + 250 > 256 fails); 124 fit.
    let too_big = "é".repeat(125);
    assert!(encode_user_data(&UserData { username: too_big }).is_err());
    let fits = "é".repeat(124);
    let buf = encode_user_data(&UserData { username: fits.clone() }).unwrap();
    let back = decode_user_data(&buf).unwrap();
    assert_eq!(back.username, fits);
}

#[test]
fn user_data_decode_short_buffer() {
    assert_eq!(decode_user_data(&[0u8; 7]).unwrap_err(), DecodeError::BadLength);
}

#[test]
fn user_data_decode_length_beyond_buffer() {
    let mut buf = vec![0u8; 16];
    buf[0..8].copy_from_slice(&9u64.to_le_bytes());
    assert_eq!(decode_user_data(&buf).unwrap_err(), DecodeError::BadLength);
}

#[test]
fn user_data_decode_invalid_utf8() {
    let mut buf = vec![0u8; 16];
    buf[0..8].copy_from_slice(&2u64.to_le_bytes());
    buf[8] = 0xff;
    buf[9] = 0xff;
    assert_eq!(decode_user_data(&buf).unwrap_err(), DecodeError::InvalidUtf8);
}

#[test]
fn user_data_decode_ignores_padding() {
    // Bytes past the recorded length are padding, whatever they hold.
    let mut buf = encode_user_data(&UserData { username: String::from("Bob") }).unwrap();
    let n = buf.len();
    buf[n - 1] = 0xff;
    let back = decode_user_data(&buf).unwrap();
    assert_eq!(back.username, "Bob");
}
