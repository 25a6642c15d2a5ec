//! Cookie signing and password hashing.
//!
//! A signed cookie is `base64url(payload) + "." + base64url(tag)` where the
//! tag is HMAC-SHA-256 over the payload bytes with the secret's bytes as
//! key, both parts encoded without padding. A password hash is 32 bytes of
//! PBKDF2-HMAC-SHA-256 over password and salt.

use base64::Engine;
use hmac::Mac;
use rand::RngCore;
use vstd::prelude::*;
use vstd::string::StringExecFns;
use vstd::string::StringSliceAdditionalSpecFns;
use vstd::string::StrSliceExecFns;
use vstd::utf8::decode_utf8;
use vstd::utf8::encode_utf8;
use vstd::utf8::valid_utf8;

verus! {

/// The 32-byte tag HMAC-SHA-256 assigns to a key and a message.
pub uninterp spec fn hmac_sha256_of(key: Seq<u8>, msg: Seq<u8>) -> Seq<u8>;

/// The text URL-safe unpadded base64 assigns to a byte sequence.
pub uninterp spec fn base64_url_of(data: Seq<u8>) -> Seq<char>;

/// The 32 bytes PBKDF2-HMAC-SHA-256 derives from a password and a salt at
/// 100000 rounds.
pub uninterp spec fn pbkdf2_sha256_of(password: Seq<u8>, salt: Seq<u8>) -> Seq<u8>;

/// Relies on hmac::Hmac with sha2::Sha256: every key length is accepted
/// (new_from_slice hashes long keys and pads short ones, never failing),
/// and the 32-byte tag is a function of key and message alone.
#[verifier::external_body]
fn hmac_sha256(key: &[u8], msg: &[u8]) -> (r: Vec<u8>)
    ensures
        r@ == hmac_sha256_of(key@, msg@),
        r@.len() == 32,
{
    let mut mac = <hmac::Hmac<sha2::Sha256> as Mac>::new_from_slice(key)
        .expect("HMAC accepts any key length");
    mac.update(msg);
    mac.finalize().into_bytes().to_vec()
}

/// Relies on base64's general_purpose::URL_SAFE_NO_PAD engine: the
/// unpadded encoding is a function of the bytes alone, over the alphabet
/// A-Z, a-z, 0-9, '-' and '_', which does not contain '.'.
#[verifier::external_body]
fn base64_url_encode(data: &[u8]) -> (r: String)
    ensures
        r@ == base64_url_of(data@),
        forall|i: int| 0 <= i < r@.len() ==> r@[i] != '.',
{
    base64::engine::general_purpose::URL_SAFE_NO_PAD.encode(data)
}

/// Relies on base64's general_purpose::URL_SAFE_NO_PAD engine: decoding
/// succeeds exactly on the encoding's image (stray padding, symbols
/// outside the alphabet, bad lengths and non-zero trailing bits are all
/// rejected), and inverts the encoding, which is injective.
#[verifier::external_body]
fn base64_url_decode(text: &str) -> (r: Option<Vec<u8>>)
    ensures
        match r {
            Some(v) => text@ == base64_url_of(v@) && forall|b: Seq<u8>|
                base64_url_of(b) == text@ ==> b == v@,
            None => forall|b: Seq<u8>| base64_url_of(b) != text@,
        },
{
    match base64::engine::general_purpose::URL_SAFE_NO_PAD.decode(text) {
        Ok(v) => Some(v),
        Err(_) => None,
    }
}

/// Relies on String::from_utf8: succeeds exactly on valid UTF-8 and
/// decodes the bytes to their character sequence.
#[verifier::external_body]
fn bytes_to_string(v: Vec<u8>) -> (r: Option<String>)
    ensures
        match r {
            Some(s) => valid_utf8(v@) && s@ == decode_utf8(v@),
            None => !valid_utf8(v@),
        },
{
    match String::from_utf8(v) {
        Ok(s) => Some(s),
        Err(_) => None,
    }
}

/// Relies on pbkdf2::pbkdf2_hmac with sha2::Sha256 at 100000 rounds: the
/// derived 32 bytes are a function of password and salt alone.
#[verifier::external_body]
fn pbkdf2_sha256(password: &[u8], salt: &[u8]) -> (r: Vec<u8>)
    ensures
        r@ == pbkdf2_sha256_of(password@, salt@),
        r@.len() == 32,
{
    let mut output = [0u8; 32];
    pbkdf2::pbkdf2_hmac::<sha2::Sha256>(password, salt, 100_000, &mut output);
    output.to_vec()
}

/// Relies on constant_time_eq::constant_time_eq: byte-slice equality
/// (false on length mismatch), compared in constant time.
#[verifier::external_body]
fn constant_time_eq_bytes(a: &[u8], b: &[u8]) -> (r: bool)
    ensures
        r == (a@ == b@),
{
    constant_time_eq::constant_time_eq(a, b)
}

/// Relies on rand::thread_rng and fill_bytes: fills a fresh buffer with
/// cryptographically secure random bytes; only the length is promised.
#[verifier::external_body]
pub fn generate_random_bytes(length: usize) -> (r: Vec<u8>)
    ensures
        r@.len() == length,
{
    let mut rng = rand::thread_rng();
    let mut bytes = vec![0u8; length];
    rng.fill_bytes(&mut bytes);
    bytes
}

/// No character of the sequence is the '.' separator.
pub open spec fn has_no_dot(s: Seq<char>) -> bool {
    forall|i: int| 0 <= i < s.len() ==> s[i] != '.'
}

/// `token` is the signed-cookie form of `payload` under `secret`: the
/// payload's unpadded URL-safe base64, a '.', then the base64 of the
/// HMAC-SHA-256 tag of the payload under the secret's UTF-8 bytes. The
/// two encoded parts never contain '.'.
pub open spec fn is_signed_token(secret: Seq<char>, token: Seq<char>, payload: Seq<u8>) -> bool {
    let body = base64_url_of(payload);
    let tag = base64_url_of(hmac_sha256_of(encode_utf8(secret), payload));
    &&& has_no_dot(body)
    &&& has_no_dot(tag)
    &&& token == body + seq!['.'] + tag
}

proof fn lemma_signed_token_shape(secret: Seq<char>, token: Seq<char>, payload: Seq<u8>)
    requires
        is_signed_token(secret, token, payload),
    ensures
        ({
            let body = base64_url_of(payload);
            let tag = base64_url_of(hmac_sha256_of(encode_utf8(secret), payload));
            &&& token.len() == body.len() + 1 + tag.len()
            &&& token[body.len() as int] == '.'
            &&& forall|k: int| 0 <= k < token.len() && k != body.len() ==> token[k] != '.'
            &&& body == token.subrange(0, body.len() as int)
            &&& tag == token.subrange(body.len() as int + 1, token.len() as int)
        }),
{
    let body = base64_url_of(payload);
    let tag = base64_url_of(hmac_sha256_of(encode_utf8(secret), payload));
    assert(body =~= token.subrange(0, body.len() as int));
    assert(tag =~= token.subrange(body.len() as int + 1, token.len() as int));
    assert forall|k: int| 0 <= k < token.len() && k != body.len() implies token[k] != '.' by {
        if k < body.len() {
            assert(token[k] == body[k]);
        } else {
            assert(token[k] == tag[k - body.len() - 1]);
        }
    }
}

/// Sign `payload` under `secret`: unpadded URL-safe base64 of the payload
/// bytes, a '.', then the base64 of the payload's HMAC-SHA-256 tag.
pub fn sign_cookie(secret: &str, payload: &str) -> (r: String)
    ensures
        r@ == base64_url_of(payload.spec_bytes()) + seq!['.'] + base64_url_of(
            hmac_sha256_of(secret.spec_bytes(), payload.spec_bytes()),
        ),
        is_signed_token(secret@, r@, payload.spec_bytes()),
{
    let code = hmac_sha256(secret.as_bytes(), payload.as_bytes());
    let mut out = base64_url_encode(payload.as_bytes());
    let hb64 = base64_url_encode(code.as_slice());
    out.append(".");
    out.append(hb64.as_str());
    proof {
        reveal_strlit(".");
        assert("."@ =~= seq!['.']);
        assert(out@ =~= base64_url_of(payload.spec_bytes()) + seq!['.'] + base64_url_of(
            hmac_sha256_of(secret.spec_bytes(), payload.spec_bytes()),
        ));
    }
    out
}

/// Check a signed cookie and recover its payload. Returns the payload
/// exactly when `token` is the signed-cookie form of some payload under
/// `secret` and that payload is valid UTF-8; returns `None` on any other
/// token: wrong shape, broken encoding, or a tag that does not match.
pub fn verify_cookie(secret: &str, token: &str) -> (r: Option<String>)
    ensures
        match r {
            Some(s) => exists|p: Seq<u8>|
                #[trigger] is_signed_token(secret@, token@, p) && valid_utf8(p) && s@
                    == decode_utf8(p),
            None => forall|p: Seq<u8>|
                #[trigger] is_signed_token(secret@, token@, p) ==> !valid_utf8(p),
        },
{
    let n = token.unicode_len();
    let mut first: usize = 0;
    let mut count: usize = 0;
    let mut i: usize = 0;
    while i < n
        invariant
            i <= n,
            n == token@.len(),
            count <= 2,
            count == 0 ==> forall|j: int| 0 <= j < i ==> token@[j] != '.',
            count == 1 ==> first < i && token@[first as int] == '.' && forall|j: int|
                0 <= j < i && j != first ==> token@[j] != '.',
            count >= 2 ==> exists|j1: int, j2: int|
                0 <= j1 < j2 < i && token@[j1] == '.' && token@[j2] == '.',
        decreases n - i,
    {
        let c = token.get_char(i);
        if c == '.' {
            if count == 0 {
                first = i;
                count = 1;
            } else if count == 1 {
                proof {
                    assert(token@[first as int] == '.' && token@[i as int] == '.');
                }
                count = 2;
            }
        }
        i += 1;
    }
    if count != 1 {
        proof {
            assert forall|p: Seq<u8>| #[trigger]
                is_signed_token(secret@, token@, p) implies !valid_utf8(p) by {
                lemma_signed_token_shape(secret@, token@, p);
                let body = base64_url_of(p);
                if count == 0 {
                    assert(token@[body.len() as int] == '.');
                } else {
                    let (j1, j2) = choose|j1: int, j2: int|
                        0 <= j1 < j2 < n && token@[j1] == '.' && token@[j2] == '.';
                    assert(j1 == body.len() && j2 == body.len());
                }
                assert(false);
            }
        }
        return None;
    }
    let part0 = token.substring_char(0, first);
    let part1 = token.substring_char(first + 1, n);
    proof {
        assert(token@ =~= part0@ + seq!['.'] + part1@);
    }
    let payload_b = match base64_url_decode(part0) {
        Some(v) => v,
        None => {
            proof {
                assert forall|p: Seq<u8>| #[trigger]
                    is_signed_token(secret@, token@, p) implies !valid_utf8(p) by {
                    lemma_signed_token_shape(secret@, token@, p);
                    let body = base64_url_of(p);
                    assert(body.len() == first);
                    assert(base64_url_of(p) == part0@);
                    assert(false);
                }
            }
            return None;
        },
    };
    let sig_b = match base64_url_decode(part1) {
        Some(v) => v,
        None => {
            proof {
                assert forall|p: Seq<u8>| #[trigger]
                    is_signed_token(secret@, token@, p) implies !valid_utf8(p) by {
                    lemma_signed_token_shape(secret@, token@, p);
                    let body = base64_url_of(p);
                    assert(body.len() == first);
                    assert(base64_url_of(hmac_sha256_of(encode_utf8(secret@), p)) == part1@);
                    assert(false);
                }
            }
            return None;
        },
    };
    let expected = hmac_sha256(secret.as_bytes(), payload_b.as_slice());
    if !constant_time_eq_bytes(sig_b.as_slice(), expected.as_slice()) {
        proof {
            assert forall|p: Seq<u8>| #[trigger]
                is_signed_token(secret@, token@, p) implies !valid_utf8(p) by {
                lemma_signed_token_shape(secret@, token@, p);
                let body = base64_url_of(p);
                assert(body.len() == first);
                assert(base64_url_of(p) == part0@);
                assert(p == payload_b@);
                assert(base64_url_of(hmac_sha256_of(encode_utf8(secret@), p)) == part1@);
                assert(hmac_sha256_of(encode_utf8(secret@), p) == sig_b@);
                assert(false);
            }
        }
        return None;
    }
    match bytes_to_string(payload_b) {
        Some(s) => {
            proof {
                assert(is_signed_token(secret@, token@, payload_b@)) by {
                    assert(token@ == part0@ + seq!['.'] + part1@);
                    assert(part0@ == base64_url_of(payload_b@));
                    assert(sig_b@ == hmac_sha256_of(encode_utf8(secret@), payload_b@));
                    assert(part1@ == base64_url_of(
                        hmac_sha256_of(encode_utf8(secret@), payload_b@),
                    ));
                    assert forall|k: int|
                        0 <= k < part0@.len() implies part0@[k] != '.' by {
                        assert(part0@[k] == token@[k]);
                    }
                    assert forall|k: int|
                        0 <= k < part1@.len() implies part1@[k] != '.' by {
                        assert(part1@[k] == token@[first + 1 + k]);
                    }
                }
            }
            Some(s)
        },
        None => {
            proof {
                assert(is_signed_token(secret@, token@, payload_b@)) by {
                    assert(token@ == part0@ + seq!['.'] + part1@);
                    assert(part0@ == base64_url_of(payload_b@));
                    assert(sig_b@ == hmac_sha256_of(encode_utf8(secret@), payload_b@));
                    assert(part1@ == base64_url_of(
                        hmac_sha256_of(encode_utf8(secret@), payload_b@),
                    ));
                    assert forall|k: int|
                        0 <= k < part0@.len() implies part0@[k] != '.' by {
                        assert(part0@[k] == token@[k]);
                    }
                    assert forall|k: int|
                        0 <= k < part1@.len() implies part1@[k] != '.' by {
                        assert(part1@[k] == token@[first + 1 + k]);
                    }
                }
                assert forall|p: Seq<u8>| #[trigger]
                    is_signed_token(secret@, token@, p) implies !valid_utf8(p) by {
                    lemma_signed_token_shape(secret@, token@, p);
                    let body = base64_url_of(p);
                    assert(body.len() == first);
                    assert(base64_url_of(p) == part0@);
                    assert(p == payload_b@);
                }
            }
            None
        },
    }
}

/// Derive a 32-byte PBKDF2-HMAC-SHA-256 hash of `password` under the given
/// salt, or under a fresh random 16-byte salt when none is given; returns
/// the hash and the salt that was used.
pub fn hash_password(password: &str, salt: Option<Vec<u8>>) -> (r: (Vec<u8>, Vec<u8>))
    ensures
        r.0@ == pbkdf2_sha256_of(password.spec_bytes(), r.1@),
        r.0@.len() == 32,
        match salt {
            Some(s) => r.1@ == s@,
            None => r.1@.len() == 16,
        },
{
    let salt_v = match salt {
        Some(s) => s,
        None => generate_random_bytes(16),
    };
    let hash = pbkdf2_sha256(password.as_bytes(), salt_v.as_slice());
    (hash, salt_v)
}

/// Whether `hash` is the PBKDF2-HMAC-SHA-256 hash of `password` under
/// `salt`, compared in constant time.
pub fn verify_password(password: &str, hash: &[u8], salt: &[u8]) -> (r: bool)
    ensures
        r == (hash@ == pbkdf2_sha256_of(password.spec_bytes(), salt@)),
{
    let test_hash = pbkdf2_sha256(password.as_bytes(), salt);
    constant_time_eq_bytes(hash, test_hash.as_slice())
}

} // verus!
