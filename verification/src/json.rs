//! JSON parsing at the library's boundary: bytes go in, an opaque parsed
//! value comes out. What the value holds is the caller's business; this
//! module only carries it through.

use vstd::prelude::*;

verus! {

#[verifier::external_type_specification]
#[verifier::external_body]
pub struct ExValue(serde_json::Value);

/// Relies on serde_json::from_slice: the parser decides whether the bytes
/// are valid JSON; on success the parsed value is handed through opaquely.
#[verifier::external_body]
pub fn parse_json_bytes(data: &[u8]) -> (r: Result<serde_json::Value, crate::CoreError>) {
    match serde_json::from_slice(data) {
        Ok(v) => Ok(v),
        Err(_) => Err(crate::CoreError::InvalidData),
    }
}

} // verus!
