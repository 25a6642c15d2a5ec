//! The protocol upgrade handshake's derived token: the accept key is the
//! standard base64 encoding (with padding) of the SHA-1 digest of the
//! client's key concatenated with a fixed protocol GUID.

use base64::Engine;
use sha1::Digest;
use vstd::prelude::*;
use vstd::string::StringExecFns;
use vstd::utf8::encode_utf8;

verus! {

/// The 20-byte digest SHA-1 assigns to a byte sequence.
pub uninterp spec fn sha1_of(data: Seq<u8>) -> Seq<u8>;

/// The text standard base64 with padding assigns to a byte sequence.
pub uninterp spec fn base64_std_of(data: Seq<u8>) -> Seq<char>;

/// Relies on sha1::Sha1 (update, then finalize): the 20-byte digest is a
/// function of the input bytes alone.
#[verifier::external_body]
fn sha1_digest(data: &[u8]) -> (r: Vec<u8>)
    ensures
        r@ == sha1_of(data@),
        r@.len() == 20,
{
    let mut hasher = sha1::Sha1::new();
    hasher.update(data);
    hasher.finalize().to_vec()
}

/// Relies on base64's general_purpose::STANDARD engine: the padded
/// encoding is a function of the input bytes alone.
#[verifier::external_body]
fn base64_std_encode(data: &[u8]) -> (r: String)
    ensures
        r@ == base64_std_of(data@),
{
    base64::engine::general_purpose::STANDARD.encode(data)
}

/// The fixed GUID the protocol appends to the client key before hashing.
pub open spec fn ws_guid() -> Seq<char> {
    "258EAFA5-E914-47DA-95CA-C5AB0DC85B11"@
}

/// The `Sec-WebSocket-Accept` value for a client key: base64 of the SHA-1
/// digest of the key's UTF-8 bytes followed by the protocol GUID's bytes.
pub fn websocket_accept_key(key: &str) -> (r: String)
    ensures
        r@ == base64_std_of(sha1_of(encode_utf8(key@ + ws_guid()))),
{
    let mut joined = key.to_owned();
    joined.append("258EAFA5-E914-47DA-95CA-C5AB0DC85B11");
    proof {
        assert(joined@ == key@ + ws_guid());
    }
    let digest = sha1_digest(joined.as_str().as_bytes());
    base64_std_encode(digest.as_slice())
}

} // verus!
