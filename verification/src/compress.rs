//! Compression codecs at the library's boundary: gzip, zstd and brotli,
//! each a deterministic function of the input bytes and the level, with
//! decompression inverting compression.

use std::io::Read;
use std::io::Write;
use vstd::prelude::*;

verus! {

/// The gzip stream flate2 produces for the given bytes at the given level.
pub uninterp spec fn gzip_of(data: Seq<u8>, level: u32) -> Seq<u8>;

/// The zstd stream the zstd crate produces for the given bytes at the
/// given level.
pub uninterp spec fn zstd_of(data: Seq<u8>, level: i32) -> Seq<u8>;

/// The brotli stream the brotli crate produces for the given bytes at the
/// given quality (buffer size 4096, window size 22).
pub uninterp spec fn brotli_of(data: Seq<u8>, level: u32) -> Seq<u8>;

/// Relies on flate2::write::GzEncoder into a Vec, which cannot fail: the
/// stream is a reproducible function of data and level (mtime 0, OS byte
/// fixed to 255, miniz_oxide clamps out-of-range levels).
#[verifier::external_body]
fn gzip_compress_raw(data: &[u8], level: u32) -> (r: Vec<u8>)
    ensures
        r@ == gzip_of(data@, level),
{
    let mut encoder = flate2::write::GzEncoder::new(Vec::new(), flate2::Compression::new(level));
    encoder.write_all(data).expect("writing to a Vec cannot fail");
    encoder.finish().expect("writing to a Vec cannot fail")
}

/// Relies on flate2::read::GzDecoder: decompressing a stream that gzip
/// compression produced returns the original bytes, and a failure means
/// the input is no such stream.
#[verifier::external_body]
fn gzip_decompress_raw(data: &[u8]) -> (r: Option<Vec<u8>>)
    ensures
        match r {
            Some(v) => forall|orig: Seq<u8>, lvl: u32| data@ == gzip_of(orig, lvl) ==> v@ == orig,
            None => forall|orig: Seq<u8>, lvl: u32| data@ != gzip_of(orig, lvl),
        },
{
    let mut decoder = flate2::read::GzDecoder::new(data);
    let mut result = Vec::new();
    match decoder.read_to_end(&mut result) {
        Ok(_) => Some(result),
        Err(_) => None,
    }
}

/// Relies on zstd::encode_all from a slice into a Vec: the stream is a
/// function of data and level, and an error can only concern parameters,
/// never the data.
#[verifier::external_body]
fn zstd_compress_raw(data: &[u8], level: i32) -> (r: Option<Vec<u8>>)
    ensures
        match r {
            Some(v) => v@ == zstd_of(data@, level),
            None => true,
        },
{
    match zstd::encode_all(data, level) {
        Ok(v) => Some(v),
        Err(_) => None,
    }
}

/// Relies on zstd::decode_all: decompressing a stream that zstd
/// compression produced returns the original bytes, and a failure means
/// the input is no such stream.
#[verifier::external_body]
fn zstd_decompress_raw(data: &[u8]) -> (r: Option<Vec<u8>>)
    ensures
        match r {
            Some(v) => forall|orig: Seq<u8>, lvl: i32| data@ == zstd_of(orig, lvl) ==> v@ == orig,
            None => forall|orig: Seq<u8>, lvl: i32| data@ != zstd_of(orig, lvl),
        },
{
    match zstd::decode_all(data) {
        Ok(v) => Some(v),
        Err(_) => None,
    }
}

/// Relies on brotli::CompressorWriter into a Vec (buffer 4096, window 22),
/// which cannot fail: the stream is a function of data and quality.
#[verifier::external_body]
fn brotli_compress_raw(data: &[u8], level: u32) -> (r: Vec<u8>)
    ensures
        r@ == brotli_of(data@, level),
{
    let mut result = Vec::new();
    let mut writer = brotli::CompressorWriter::new(&mut result, 4096, level, 22);
    writer.write_all(data).expect("writing to a Vec cannot fail");
    writer.flush().expect("flushing into a Vec cannot fail");
    drop(writer);
    result
}

/// Relies on brotli::Decompressor: decompressing a stream that brotli
/// compression produced returns the original bytes, and a failure means
/// the input is no such stream.
#[verifier::external_body]
fn brotli_decompress_raw(data: &[u8]) -> (r: Option<Vec<u8>>)
    ensures
        match r {
            Some(v) => forall|orig: Seq<u8>, lvl: u32| data@ == brotli_of(orig, lvl) ==> v@
                == orig,
            None => forall|orig: Seq<u8>, lvl: u32| data@ != brotli_of(orig, lvl),
        },
{
    let mut result = Vec::new();
    let mut reader = brotli::Decompressor::new(data, 4096);
    match reader.read_to_end(&mut result) {
        Ok(_) => Some(result),
        Err(_) => None,
    }
}

/// Compress with gzip; the default level is 6.
pub fn gzip_compress(data: &[u8], level: Option<u32>) -> (r: Vec<u8>)
    ensures
        r@ == gzip_of(
            data@,
            match level {
                Some(l) => l,
                None => 6u32,
            },
        ),
{
    let l = match level {
        Some(l) => l,
        None => 6,
    };
    gzip_compress_raw(data, l)
}

/// Decompress a gzip stream: inverts `gzip_compress`, and fails exactly on
/// input that no gzip compression produced.
pub fn gzip_decompress(data: &[u8]) -> (r: Result<Vec<u8>, crate::CoreError>)
    ensures
        match r {
            Ok(v) => forall|orig: Seq<u8>, lvl: u32| data@ == gzip_of(orig, lvl) ==> v@ == orig,
            Err(e) => e == crate::CoreError::InvalidData && forall|orig: Seq<u8>, lvl: u32|
                data@ != gzip_of(orig, lvl),
        },
{
    match gzip_decompress_raw(data) {
        Some(v) => Ok(v),
        None => Err(crate::CoreError::InvalidData),
    }
}

/// Compress with zstd; the default level is 3. An error can only come from
/// the codec rejecting the level.
pub fn zstd_compress(data: &[u8], level: Option<i32>) -> (r: Result<Vec<u8>, crate::CoreError>)
    ensures
        match r {
            Ok(v) => v@ == zstd_of(
                data@,
                match level {
                    Some(l) => l,
                    None => 3i32,
                },
            ),
            Err(e) => e == crate::CoreError::InvalidData,
        },
{
    let l = match level {
        Some(l) => l,
        None => 3,
    };
    match zstd_compress_raw(data, l) {
        Some(v) => Ok(v),
        None => Err(crate::CoreError::InvalidData),
    }
}

/// Decompress a zstd stream: inverts `zstd_compress`, and fails exactly on
/// input that no zstd compression produced.
pub fn zstd_decompress(data: &[u8]) -> (r: Result<Vec<u8>, crate::CoreError>)
    ensures
        match r {
            Ok(v) => forall|orig: Seq<u8>, lvl: i32| data@ == zstd_of(orig, lvl) ==> v@ == orig,
            Err(e) => e == crate::CoreError::InvalidData && forall|orig: Seq<u8>, lvl: i32|
                data@ != zstd_of(orig, lvl),
        },
{
    match zstd_decompress_raw(data) {
        Some(v) => Ok(v),
        None => Err(crate::CoreError::InvalidData),
    }
}

/// Compress with brotli; the default quality is 5.
pub fn brotli_compress(data: &[u8], level: Option<u32>) -> (r: Vec<u8>)
    ensures
        r@ == brotli_of(
            data@,
            match level {
                Some(l) => l,
                None => 5u32,
            },
        ),
{
    let l = match level {
        Some(l) => l,
        None => 5,
    };
    brotli_compress_raw(data, l)
}

/// Decompress a brotli stream: inverts `brotli_compress`, and fails
/// exactly on input that no brotli compression produced.
pub fn brotli_decompress(data: &[u8]) -> (r: Result<Vec<u8>, crate::CoreError>)
    ensures
        match r {
            Ok(v) => forall|orig: Seq<u8>, lvl: u32| data@ == brotli_of(orig, lvl) ==> v@ == orig,
            Err(e) => e == crate::CoreError::InvalidData && forall|orig: Seq<u8>, lvl: u32|
                data@ != brotli_of(orig, lvl),
        },
{
    match brotli_decompress_raw(data) {
        Some(v) => Ok(v),
        None => Err(crate::CoreError::InvalidData),
    }
}

} // verus!
