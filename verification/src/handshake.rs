//! Connect-time handshake payload.
//!
//! The transport carries an out-of-band user-data buffer of a fixed capacity
//! with each connect attempt. The client serializes its [`UserData`] into
//! that buffer — eight little-endian length bytes, the username's UTF-8
//! bytes, zero padding to the full capacity — and must refuse, before
//! anything is sent, a record that would not fit. The server decodes the
//! buffer when the handshake completes; a buffer that does not parse makes
//! the server ignore the connect event.

use vstd::prelude::*;
use vstd::bytes::*;
use vstd::slice::*;
use vstd::string::*;
use vstd::utf8::*;

use crate::codec::push_u64;
use crate::codec::read_u64;
use crate::codec::str_from_utf8;
use crate::codec::DecodeError;
use crate::protocol::UserData;
use crate::protocol::UserDataView;

verus! {

/// Capacity of the transport's out-of-band user-data buffer.
pub const MAX_USER_DATA_BYTES: usize = 256;

/// Client-side pre-flight failure: the serialized user data would not fit
/// the transport's user-data capacity. Surfaced before any network traffic;
/// the connect attempt never starts.
#[derive(Clone, Copy, PartialEq, Eq, Structural, Debug)]
pub struct AuthDataTooLarge;

/// Whether the serialized form of `u` fits the user-data buffer.
pub open spec fn user_data_fits(u: UserDataView) -> bool {
    8 + encode_utf8(u.username).len() <= MAX_USER_DATA_BYTES
}

/// The full user-data buffer for `u`: length, UTF-8 text, zero padding.
pub open spec fn spec_encode_user_data(u: UserDataView) -> Seq<u8>
    recommends
        user_data_fits(u),
{
    let text = encode_utf8(u.username);
    spec_u64_to_le_bytes(text.len() as u64) + text + Seq::new(
        (MAX_USER_DATA_BYTES - 8 - text.len()) as nat,
        |i: int| 0u8,
    )
}

/// The user data a buffer decodes to, or the reason it is rejected. Bytes
/// past the recorded length are padding and are ignored.
pub open spec fn spec_decode_user_data(bytes: Seq<u8>) -> Result<UserDataView, DecodeError> {
    if bytes.len() < 8 {
        Err(DecodeError::BadLength)
    } else {
        let n = spec_u64_from_le_bytes(bytes.subrange(0, 8)) as int;
        if 8 + n > bytes.len() {
            Err(DecodeError::BadLength)
        } else if valid_utf8(bytes.subrange(8, 8 + n)) {
            Ok(UserDataView { username: decode_utf8(bytes.subrange(8, 8 + n)) })
        } else {
            Err(DecodeError::InvalidUtf8)
        }
    }
}

/// Serializes user data into the fixed-capacity buffer, failing — before
/// anything reaches the network — exactly when the record does not fit.
pub fn encode_user_data(u: &UserData) -> (r: Result<Vec<u8>, AuthDataTooLarge>)
    ensures
        user_data_fits(u@) <==> r is Ok,
        r matches Ok(buf) ==> buf@ == spec_encode_user_data(u@),
{
    let mut text = u.username.as_str().as_bytes_vec();
    let n = text.len();
    if n > MAX_USER_DATA_BYTES - 8 {
        return Err(AuthDataTooLarge);
    }
    let mut out: Vec<u8> = Vec::new();
    push_u64(&mut out, n as u64);
    out.append(&mut text);
    let ghost prefix: Seq<u8> = out@;
    proof {
        lemma_auto_spec_u64_to_from_le_bytes();
    }
    while out.len() < MAX_USER_DATA_BYTES
        invariant
            prefix == spec_u64_to_le_bytes(n as u64) + encode_utf8(u.username@),
            prefix.len() == 8 + n,
            8 + n <= MAX_USER_DATA_BYTES,
            prefix.len() <= out@.len() <= MAX_USER_DATA_BYTES,
            out@.subrange(0, prefix.len() as int) == prefix,
            forall|i: int| prefix.len() <= i < out@.len() ==> out@[i] == 0u8,
        decreases MAX_USER_DATA_BYTES - out.len(),
    {
        out.push(0u8);
        assert(out@.subrange(0, prefix.len() as int) =~= prefix);
    }
    assert(out@ =~= spec_encode_user_data(u@));
    Ok(out)
}

/// Parses a user-data buffer, rejecting exactly the buffers that no user
/// data serializes to.
pub fn decode_user_data(bytes: &[u8]) -> (r: Result<UserData, DecodeError>)
    ensures
        match r {
            Ok(u) => spec_decode_user_data(bytes@) == Ok::<UserDataView, DecodeError>(u@),
            Err(e) => spec_decode_user_data(bytes@) == Err::<UserDataView, DecodeError>(e),
        },
{
    if bytes.len() < 8 {
        return Err(DecodeError::BadLength);
    }
    let n64 = read_u64(bytes, 0);
    if n64 > (bytes.len() - 8) as u64 {
        return Err(DecodeError::BadLength);
    }
    let n = n64 as usize;
    let text = slice_subrange(bytes, 8, 8 + n);
    match str_from_utf8(text) {
        Some(s) => {
            proof {
                encode_utf8_decode_utf8(s@);
            }
            Ok(UserData { username: s.to_owned() })
        },
        None => Err(DecodeError::InvalidUtf8),
    }
}

/// Round trip: every user-data record that fits the buffer decodes back from
/// its own serialized buffer, the empty username included.
pub proof fn lemma_user_data_round_trip(u: UserDataView)
    requires
        user_data_fits(u),
    ensures
        spec_decode_user_data(spec_encode_user_data(u)) == Ok::<UserDataView, DecodeError>(u),
{
    let bytes = spec_encode_user_data(u);
    lemma_auto_spec_u64_to_from_le_bytes();
    let text = encode_utf8(u.username);
    assert(bytes.subrange(0, 8) =~= spec_u64_to_le_bytes(text.len() as u64));
    assert(bytes.subrange(8, 8 + text.len() as int) =~= text);
    encode_utf8_valid_utf8(u.username);
    encode_utf8_decode_utf8(u.username);
}

} // verus!
