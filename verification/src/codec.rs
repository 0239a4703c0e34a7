//! Raw deflate (RFC 1951, no zlib or gzip framing), as `flate2` implements it.
//!
//! The contracts of the two functions of this module are taken on trust: they name
//! what the codec returns and say no more about it.

use vstd::prelude::*;

verus! {

/// How a call of the codec ended.
#[derive(Debug, Clone, Copy, PartialEq, Eq)]
pub enum CodecStatus {
    /// The codec stopped with input or output left over.
    Progress,
    /// The codec could not go on: input ran out or the output buffer was full.
    BufError,
    /// The whole stream was handled and all of its output written.
    StreamEnd,
    /// The codec reported an error.
    Failed,
}

/// What a fresh raw-deflate encoder at `level` returns when it is handed `data` with
/// room for `capacity` bytes of output and told to finish: how it ended, and the bytes
/// it wrote.
pub uninterp spec fn deflated(data: Seq<u8>, level: u32, capacity: int) -> (CodecStatus, Seq<u8>);

/// What a fresh raw-deflate decoder returns when it is handed `data` with room for
/// `capacity` bytes of output and told to finish: how it ended, and the bytes it wrote.
pub uninterp spec fn inflated(data: Seq<u8>, capacity: int) -> (CodecStatus, Seq<u8>);

/// Runs `flate2::Compress::compress` once, with `FlushCompress::Finish`, on a new
/// encoder made by `flate2::Compress::new(Compression::new(level), false)` and an
/// output buffer of `capacity` bytes; returns the status and the first `total_out()`
/// bytes of that buffer.  Trusted: that the outcome depends on `data`, `level` and
/// `capacity` alone.  Levels above 9 are left out because the encoder rejects levels
/// above 10 in debug builds.
#[verifier::external_body]
pub(crate) fn deflate_raw(data: &[u8], level: u32, capacity: usize) -> (r: (CodecStatus, Vec<u8>))
    requires
        level <= 9,
    ensures
        (r.0, r.1@) == deflated(data@, level, capacity as int),
{
    let mut out = vec![0u8; capacity];
    let mut encoder = flate2::Compress::new(flate2::Compression::new(level), false);
    let status = encoder.compress(data, &mut out, flate2::FlushCompress::Finish);
    out.truncate(encoder.total_out() as usize);
    match status {
        Ok(flate2::Status::Ok) => (CodecStatus::Progress, out),
        Ok(flate2::Status::BufError) => (CodecStatus::BufError, out),
        Ok(flate2::Status::StreamEnd) => (CodecStatus::StreamEnd, out),
        Err(_) => (CodecStatus::Failed, out),
    }
}

/// Runs `flate2::Decompress::decompress` once, with `FlushDecompress::Finish`, on a
/// new decoder made by `flate2::Decompress::new(false)` and an output buffer of
/// `capacity` bytes; returns the status and the first `total_out()` bytes of that
/// buffer.  Trusted: that the outcome depends on `data` and `capacity` alone.
#[verifier::external_body]
pub(crate) fn inflate_raw(data: &[u8], capacity: usize) -> (r: (CodecStatus, Vec<u8>))
    ensures
        (r.0, r.1@) == inflated(data@, capacity as int),
{
    let mut out = vec![0u8; capacity];
    let mut decoder = flate2::Decompress::new(false);
    let status = decoder.decompress(data, &mut out, flate2::FlushDecompress::Finish);
    out.truncate(decoder.total_out() as usize);
    match status {
        Ok(flate2::Status::Ok) => (CodecStatus::Progress, out),
        Ok(flate2::Status::BufError) => (CodecStatus::BufError, out),
        Ok(flate2::Status::StreamEnd) => (CodecStatus::StreamEnd, out),
        Err(_) => (CodecStatus::Failed, out),
    }
}

} // verus!
