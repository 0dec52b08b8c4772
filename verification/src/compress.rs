//! Compression.
use std::io::Read;
use vstd::prelude::*;

verus! {

/// How hard blocks are compressed.
pub const BLOCK_COMPRESSION_LEVEL: i32 = 3;

/// What compressed bytes hold; nothing when they are not compressed bytes.
pub uninterp spec fn zstd_decoded(b: Seq<u8>) -> Option<Seq<u8>>;

/// What compressed bytes hold that end before their last frame does; nothing when they do
/// not end early.
pub uninterp spec fn zstd_cut(b: Seq<u8>) -> Option<Seq<u8>>;

/// The bytes that a compressed stream gives one by one before it ends or breaks.
pub uninterp spec fn zstd_readable(b: Seq<u8>) -> Seq<u8>;

/// Bytes compressed at a level; nothing when the compressor refuses the level.
pub uninterp spec fn zstd_encoded(b: Seq<u8>, level: int) -> Option<Seq<u8>>;

/// Decompresses bytes with `zstd::stream::decode_all`. What they hold has only a name
/// here; the text of an error is left open.
#[verifier::external_body]
pub(crate) fn zstd_decode(b: &[u8]) -> (r: Result<Vec<u8>, String>)
    ensures
        match r {
            Ok(v) => zstd_decoded(b@) == Some(v@),
            Err(_) => zstd_decoded(b@) is None,
        },
{
    zstd::stream::decode_all(b).map_err(|e| e.to_string())
}

/// How decompressing a stream ended.
#[derive(Clone, Copy, PartialEq, Eq, Structural, Debug)]
pub enum DecodeEnd {
    /// With the end of a frame.
    Whole,
    /// In the middle of a frame, or before the first one: the stream was cut short.
    Early,
    /// At something that is no compressed stream.
    Broken,
}

/// What a stream held before decompressing it ended.
#[derive(Debug, PartialEq, Eq)]
pub struct Decoded {
    pub bytes: Vec<u8>,
    pub end: DecodeEnd,
}

/// What came of decompressing a stream at one go.
pub(crate) enum Unpacked {
    Whole(Vec<u8>),
    Early(Vec<u8>),
    Broken,
}

/// Decompresses a stream with `zstd::stream::copy_decode`, and keeps what was decompressed
/// before an unexpected end. A stream that ends with a frame holds what `decode_all` finds
/// in it. The decoder reports a stream that is cut short as an unexpected end, after
/// everything before the cut: that has only a name here.
#[verifier::external_body]
fn zstd_decode_stream(b: &[u8]) -> (r: Unpacked)
    ensures
        match r {
            Unpacked::Whole(v) => zstd_decoded(b@) == Some(v@) && zstd_cut(b@) is None,
            Unpacked::Early(v) => zstd_decoded(b@) is None && zstd_cut(b@) == Some(v@),
            Unpacked::Broken => zstd_decoded(b@) is None && zstd_cut(b@) is None,
        },
{
    let mut bytes: Vec<u8> = Vec::new();
    match zstd::stream::copy_decode(b, &mut bytes) {
        Ok(()) => Unpacked::Whole(bytes),
        Err(e) if e.kind() == std::io::ErrorKind::UnexpectedEof => Unpacked::Early(bytes),
        Err(_) => Unpacked::Broken,
    }
}

/// Reads a stream byte by byte through `zstd::stream::read::Decoder`, up to its end or to
/// the first error. The bytes have only a name here. They are asked for one at a time, so
/// that what comes before an error depends on the stream alone: the decoder drops what a
/// larger read had got when it fails.
#[verifier::external_body]
fn zstd_read(b: &[u8]) -> (r: Vec<u8>)
    ensures
        r@ == zstd_readable(b@),
{
    match zstd::stream::read::Decoder::new(b) {
        Ok(decoder) => decoder.bytes().map_while(|byte| byte.ok()).collect(),
        Err(_) => Vec::new(),
    }
}

/// What a compressed stream holds before it ends or breaks.
pub open spec fn stream_content(b: Seq<u8>) -> Seq<u8> {
    match (zstd_decoded(b), zstd_cut(b)) {
        (Some(s), _) => s,
        (None, Some(s)) => s,
        (None, None) => zstd_readable(b),
    }
}

/// How a compressed stream ends.
pub open spec fn stream_end(b: Seq<u8>) -> DecodeEnd {
    if zstd_decoded(b) is Some {
        DecodeEnd::Whole
    } else if zstd_cut(b) is Some {
        DecodeEnd::Early
    } else {
        DecodeEnd::Broken
    }
}

/// Decompresses a stream as far as it goes.
pub fn decode_stream(b: &[u8]) -> (r: Decoded)
    ensures
        r.bytes@ == stream_content(b@),
        r.end == stream_end(b@),
{
    match zstd_decode_stream(b) {
        Unpacked::Whole(bytes) => Decoded { bytes, end: DecodeEnd::Whole },
        Unpacked::Early(bytes) => Decoded { bytes, end: DecodeEnd::Early },
        Unpacked::Broken => Decoded { bytes: zstd_read(b), end: DecodeEnd::Broken },
    }
}

/// Compresses bytes with `zstd::stream::encode_all`. The compressed bytes have only a
/// name here, and hold the bytes that went in; the text of an error is left open.
#[verifier::external_body]
pub(crate) fn zstd_encode(b: &[u8], level: i32) -> (r: Result<Vec<u8>, String>)
    ensures
        match r {
            Ok(v) => zstd_encoded(b@, level as int) == Some(v@) && zstd_decoded(v@) == Some(b@),
            Err(_) => zstd_encoded(b@, level as int) is None,
        },
{
    zstd::stream::encode_all(b, level).map_err(|e| e.to_string())
}

} // verus!
