//! Compressed messages: each message is a raw deflate stream of its own.

use crate::error::{Error, WebSocketError};
use crate::web_socket::frame::{Frame, FrameView};
use std::io::Read;
use vstd::prelude::*;

verus! {

/// `bytes` as a raw deflate stream that is closed, at the default level of compression, or
/// nothing if the encoder gives up on `bytes`.
pub uninterp spec fn spec_deflate(bytes: Seq<u8>) -> Option<Seq<u8>>;

/// The first `limit` bytes of what the raw deflate stream `bytes` holds, as far as the stream
/// goes, or nothing if `bytes` is no such stream.
pub uninterp spec fn spec_inflate(bytes: Seq<u8>, limit: u64) -> Option<Seq<u8>>;

/// `flate2::read::DeflateEncoder` over `bytes` with `Compression::default()`, read to its end.
/// Reading is handed out as an I/O result: what was read is the stream, and a failure is
/// nothing. Either way the outcome depends on `bytes` alone.
#[verifier::external_body]
fn deflate(bytes: &[u8]) -> (r: Option<Vec<u8>>)
    ensures
        stream_view(r) == spec_deflate(bytes@),
{
    let mut stream = Vec::new();
    match flate2::read::DeflateEncoder::new(bytes, flate2::Compression::default()).read_to_end(
        &mut stream,
    ) {
        Ok(_) => Some(stream),
        Err(_) => None,
    }
}

/// `flate2::read::DeflateDecoder` over `bytes`, read up to `limit` bytes. A stream that is
/// corrupt, or that ends before it is closed, is an I/O error of the decoder, which is handed
/// out as nothing.
#[verifier::external_body]
fn inflate(bytes: &[u8], limit: u64) -> (r: Option<Vec<u8>>)
    ensures
        match r {
            Some(held) => spec_inflate(bytes@, limit) == Some(held@),
            None => spec_inflate(bytes@, limit) is None,
        },
{
    let mut held = Vec::new();
    match flate2::read::DeflateDecoder::new(bytes).take(limit).read_to_end(&mut held) {
        Ok(_) => Some(held),
        Err(_) => None,
    }
}

/// The byte that follows a closed deflate stream in a message, so that the message can be
/// read like one that was flushed instead of closed.
pub const CLOSED_STREAM_TAIL: u8 = 0x00;

/// The frame that is sent for `frame` when `stream` is what compressing its payload gave: the
/// stream and one closing byte, marked as compressed. Without a stream the frame goes out as
/// it is, unmarked.
pub open spec fn spec_compressed(frame: FrameView, stream: Option<Seq<u8>>) -> FrameView {
    match stream {
        Some(stream) => FrameView { payload: stream.push(CLOSED_STREAM_TAIL), rsv1: true, ..frame },
        None => FrameView { rsv1: false, ..frame },
    }
}

/// Puts together the frame that is sent for `frame` when `stream` is what compressing its
/// payload gave.
pub fn compressed_frame(frame: &Frame, stream: Option<Vec<u8>>) -> (r: Frame)
    ensures
        r@ == spec_compressed(frame@, stream_view(stream)),
{
    match stream {
        Some(stream) => {
            let mut payload = stream;
            payload.push(CLOSED_STREAM_TAIL);
            Frame { fin: frame.fin, op_code: frame.op_code, payload, rsv1: true }
        },
        None => {
            let mut payload: Vec<u8> = Vec::new();
            crate::misc::filled_buffer::append_bytes(&mut payload, frame.payload.as_slice());
            Frame { fin: frame.fin, op_code: frame.op_code, payload, rsv1: false }
        },
    }
}

/// What a stream holds, if there is one.
pub open spec fn stream_view(stream: Option<Vec<u8>>) -> Option<Seq<u8>> {
    match stream {
        Some(stream) => Some(stream@),
        None => None,
    }
}

/// Compresses the payload of `frame`. A frame whose payload can not be compressed goes out as
/// it is.
pub fn compress_message(frame: &Frame) -> (r: Frame)
    ensures
        r@ == spec_compressed(frame@, spec_deflate(frame@.payload)),
{
    compressed_frame(frame, deflate(frame.payload.as_slice()))
}

/// An empty block that closes a deflate stream. A message ends with a block that leaves its
/// stream open; with this block behind it the stream is one that a decoder reads to its end.
pub open spec fn closing_block() -> Seq<u8> {
    seq![0x01u8, 0x00u8, 0x00u8, 0xffu8, 0xffu8]
}

/// How many bytes are asked of the decompression when at most `max` bytes of payload are
/// taken: one more, so that a payload that holds too much shows.
pub open spec fn spec_limit(max: usize) -> u64 {
    if max >= u64::MAX {
        u64::MAX
    } else {
        (max + 1) as u64
    }
}

/// What is handed out for the frame `frame` when at most `max` bytes of payload are taken: a
/// frame that is not marked as compressed is handed out as it is; a marked one is handed out
/// decompressed and unmarked, unless it can not be decompressed or holds too much.
pub open spec fn spec_decompressed(frame: FrameView, max: usize) -> Result<FrameView, Error> {
    if !frame.rsv1 {
        Ok(frame)
    } else {
        match spec_inflate(frame.payload + closing_block(), spec_limit(max)) {
            None => Err(Error::WebSocketProtocol(WebSocketError::InvalidCompressedData)),
            Some(held) => if held.len() > max {
                Err(Error::WebSocketProtocol(WebSocketError::FrameTooLarge))
            } else {
                Ok(FrameView { payload: held, rsv1: false, ..frame })
            },
        }
    }
}

/// What was decompressed, without what owns the bytes.
pub open spec fn decompressed(r: Result<Frame, Error>) -> Result<FrameView, Error> {
    match r {
        Ok(frame) => Ok(frame@),
        Err(e) => Err(e),
    }
}

/// Decompresses the payload of `frame` if it is marked as compressed.
pub fn decompress_message(frame: Frame, max: usize) -> (r: Result<Frame, Error>)
    ensures
        decompressed(r) == spec_decompressed(frame@, max),
{
    if !frame.rsv1 {
        return Ok(frame);
    }
    let limit: u64 = if max as u64 == u64::MAX {
        u64::MAX
    } else {
        max as u64 + 1
    };
    let mut stream: Vec<u8> = Vec::new();
    crate::misc::filled_buffer::append_bytes(&mut stream, frame.payload.as_slice());
    let closing: [u8; 5] = [0x01, 0x00, 0x00, 0xff, 0xff];
    assert(closing@ =~= closing_block());
    crate::misc::filled_buffer::append_bytes(&mut stream, closing.as_slice());
    match inflate(stream.as_slice(), limit) {
        None => Err(Error::WebSocketProtocol(WebSocketError::InvalidCompressedData)),
        Some(held) => {
            if held.len() > max {
                Err(Error::WebSocketProtocol(WebSocketError::FrameTooLarge))
            } else {
                Ok(Frame { fin: frame.fin, op_code: frame.op_code, payload: held, rsv1: false })
            }
        },
    }
}

} // verus!
