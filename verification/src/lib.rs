//! WebSocket wire-protocol codec and in-process channel distribution at
//! the core, with the surrounding helpers a small web service needs: the
//! handshake accept key, cookie signing, password hashing, SQL query
//! assembly, route-path compilation, compression codecs, JSON parsing,
//! template rendering, and a keyed byte cache with expiry.

pub mod cache;
pub mod channel;
pub mod compress;
pub mod crypto;
pub mod frame;
pub mod handshake;
pub mod json;
pub mod path;
pub mod query;
pub mod strutil;
pub mod template;

use vstd::prelude::*;

verus! {

/// Errors shared across the library: the channel registry, the frame
/// helpers, and the data codecs at the boundary.
#[derive(Clone, Copy, PartialEq, Eq, Structural, Debug)]
pub enum CoreError {
    /// The referenced channel id is not registered (or was removed).
    ChannelNotFound,
    /// The buffer is too short to hold the header fields a query needs.
    FrameTooShort,
    /// The input is not a stream the codec in question could have produced.
    InvalidData,
}

} // verus!
