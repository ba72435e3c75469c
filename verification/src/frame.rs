//! The frame codec: the text of an image is stored as a Snappy frame stream.
//!
//! The compression itself is the work of the `snap` crate. What it returns is
//! not proved here: it is given a name, and the contracts speak of that name.
//! Nothing here claims that the decoder undoes the encoder.

use std::io::{Read, Write};
use vstd::prelude::*;
use crate::error::BhiError;

verus! {

/// The frame stream that `snap`'s frame encoder writes for `raw`.
pub uninterp spec fn frame_of(raw: Seq<u8>) -> Seq<u8>;

/// The bytes that `snap`'s frame decoder reads out of `framed`, or `None`
/// where it reports an error before the end of the stream.
pub uninterp spec fn frame_contents(framed: Seq<u8>) -> Option<Seq<u8>>;

/// Runs `snap::write::FrameEncoder` over an empty `Vec<u8>`: one `write_all`
/// of `raw`, then `into_inner`, which flushes. The contract claims two things
/// of it. The bytes handed back depend on `raw` alone. And the call succeeds:
/// the encoder reports only what its sink or its block compressor report, a
/// `Vec<u8>` takes every write, and the compressor is handed blocks of at most
/// 65536 bytes with a buffer sized for them.
#[verifier::external_body]
fn snap_write_frame(raw: &[u8]) -> (out: Option<Vec<u8>>)
    ensures
        out is Some,
        out->0@ == frame_of(raw@),
{
    let mut encoder = snap::write::FrameEncoder::new(Vec::new());
    match encoder.write_all(raw) {
        Ok(()) => match encoder.into_inner() {
            Ok(framed) => Some(framed),
            Err(_) => None,
        },
        Err(_) => None,
    }
}

/// Runs `snap::read::FrameDecoder` over `framed` with `read_to_end`. The
/// contract claims that whether the decoder reports an error, and the bytes
/// it yields where it does not, depend on `framed` alone.
#[verifier::external_body]
fn snap_read_frame(framed: &[u8]) -> (out: Option<Vec<u8>>)
    ensures
        out matches Some(raw) ==> frame_contents(framed@) == Some(raw@),
        out is None ==> frame_contents(framed@) is None,
{
    let mut raw = Vec::new();
    match snap::read::FrameDecoder::new(framed).read_to_end(&mut raw) {
        Ok(_) => Some(raw),
        Err(_) => None,
    }
}

/// Wraps `raw` in a compressed frame stream, complete and flushed. The stream
/// is built in memory, where no write can fail: the result is always `Ok`.
pub fn compress(raw: &[u8]) -> (out: Result<Vec<u8>, BhiError>)
    ensures
        out is Ok,
        out->Ok_0@ == frame_of(raw@),
{
    match snap_write_frame(raw) {
        Some(framed) => Ok(framed),
        None => Err(BhiError::DestinationUnwritable),
    }
}

/// Unwraps a compressed frame stream. Bytes that are no valid stream are
/// refused here, before anything reads them as text.
pub fn decompress(framed: &[u8]) -> (out: Result<Vec<u8>, BhiError>)
    ensures
        match out {
            Ok(raw) => frame_contents(framed@) == Some(raw@),
            Err(e) => e == BhiError::CorruptFrame && frame_contents(framed@) is None,
        },
{
    match snap_read_frame(framed) {
        Some(raw) => Ok(raw),
        None => Err(BhiError::CorruptFrame),
    }
}

} // verus!
