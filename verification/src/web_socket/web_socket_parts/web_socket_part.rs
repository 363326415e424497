//! Reading and writing over borrowed streams.

use crate::error::{Error, WebSocketError};
use crate::misc::bytes::{u16_be, u16_to_be};
use crate::misc::partitioned_filled_buffer::{PartitionedFilledBuffer, PartitionedView};
use crate::misc::read_until::read_until;
use crate::misc::rng::Rng;
use crate::misc::stream::Stream;
use crate::web_socket::compression::{
    compress_message, decompress_message, decompressed, spec_compressed, spec_decompressed,
    spec_deflate,
};
use crate::web_socket::frame::{
    lemma_decode_is_local, Frame, FrameHeader, FrameView, MAX_CONTROL_PAYLOAD_LEN,
};
use crate::web_socket::op_code::OpCode;
use crate::web_socket::read::{close_code, Reassembly, ReaderConfig, ReassemblyView};
use crate::web_socket::received::{
    lemma_read_frames_stable, lemma_read_frames_step, spec_read_frames, FramesRecord,
};
use crate::web_socket::write::{
    encode_message, is_sendable, mask_of, spec_encode_message, spec_piece_len, spec_pieces,
};
use vstd::prelude::*;

verus! {

/// The number of bytes that a reader makes room for at least when it asks its stream for
/// more: short frames that arrive together are read together.
pub const READ_AHEAD: usize = 1024;

/// If `e` is a failure of moving the next frame into scope: the stream failed or stayed
/// behind, memory for the frame could not be obtained, or the frame breaks the rules.
pub open spec fn is_read_failure(e: Error) -> bool {
    e is Io || e == Error::AllocationError || e == Error::UnexpectedBufferState
        || e is WebSocketProtocol
}

/// The number of bytes of the frame whose header `header` takes `header_len` bytes, if its
/// payload is not longer than `max` and the frame can be addressed.
pub open spec fn spec_whole_len(header: FrameHeader, header_len: usize, max: usize) -> Option<
    usize,
> {
    if header.payload_len > max || header_len + header.payload_len > usize::MAX {
        None
    } else {
        Some((header_len + header.payload_len) as usize)
    }
}

/// Tells the number of bytes of the frame whose header `header` takes `header_len` bytes. A
/// frame whose payload is longer than `max`, or that can not be addressed, is refused.
pub fn whole_len(header: &FrameHeader, header_len: usize, max: usize) -> (r: Result<usize, Error>)
    ensures
        match r {
            Ok(total) => spec_whole_len(*header, header_len, max) == Some(total),
            Err(e) => {
                &&& e == Error::WebSocketProtocol(WebSocketError::FrameTooLarge)
                &&& spec_whole_len(*header, header_len, max) is None
            },
        },
{
    if header.payload_len > max as u64 {
        return Err(Error::WebSocketProtocol(WebSocketError::FrameTooLarge));
    }
    match header_len.checked_add(header.payload_len as usize) {
        Some(total) => Ok(total),
        None => Err(Error::WebSocketProtocol(WebSocketError::FrameTooLarge)),
    }
}

/// How far the closing handshake went.
#[derive(Debug, Clone, Copy, PartialEq, Eq, Structural)]
pub enum ConnectionState {
    /// Frames go both ways.
    Open,
    /// A closing frame went one way and its echo is waited for.
    Closing,
    /// Closing frames went both ways, or the stream failed.
    Closed,
}

/// What the reader and the writer of an endpoint share: how far the closing handshake went,
/// what was agreed upon, the source of the masks and the stream that is written to.
#[derive(Debug)]
pub struct WebSocketCommonPart<RNG, SW> {
    /// How far the closing handshake went.
    pub connection_state: ConnectionState,
    /// If the endpoint opened the connection.
    pub is_client: bool,
    /// The largest payload of a frame that is written.
    pub max_frame_len: usize,
    /// If compressed messages were agreed upon.
    pub negotiated_compression: bool,
    /// The source of the masks.
    pub rng: RNG,
    /// The stream that is written to.
    pub stream_writer: SW,
}

/// What a writer keeps between its calls.
#[derive(Debug)]
pub struct WebSocketWriterPart {
    /// The frames that are about to be written.
    pub compression_scratch: Vec<u8>,
    /// The keys that the frames that were written last were masked with, in their order.
    pub keys: Vec<[u8; 4]>,
}

/// The closing frame that answers a closing frame with the payload `payload`: it carries the
/// same status, or the normal one if there was none.
pub open spec fn close_echo(payload: Seq<u8>) -> FrameView {
    FrameView { fin: true, op_code: OpCode::Close, payload: u16_be(close_code(payload)), rsv1: false }
}

impl<RNG, SW> WebSocketCommonPart<RNG, SW> where RNG: Rng, SW: Stream {
    /// What an endpoint shares before anything was sent.
    pub fn new(
        is_client: bool,
        max_frame_len: usize,
        negotiated_compression: bool,
        rng: RNG,
        stream_writer: SW,
    ) -> (r: Self)
        ensures
            r.connection_state == ConnectionState::Open,
            r.is_client == is_client,
            r.max_frame_len == max_frame_len,
            r.negotiated_compression == negotiated_compression,
            r.rng == rng,
            r.stream_writer == stream_writer,
    {
        Self {
            connection_state: ConnectionState::Open,
            is_client,
            max_frame_len,
            negotiated_compression,
            rng,
            stream_writer,
        }
    }

    /// Acts on a closing frame with the payload `payload` that arrived.
    ///
    /// While the connection is open the frame is echoed with its status, or with the normal
    /// one if it has none. In every case the connection is closed afterwards: either the frame
    /// was the echo that was waited for, or its echo was just written, or writing it failed.
    pub fn manage_close(&mut self, scratch: &mut Vec<u8>, payload: &[u8]) -> (r: Result<(), Error>)
        ensures
            r matches Err(e) ==> e is Io,
            final(self).connection_state == ConnectionState::Closed,
            final(self).is_client == old(self).is_client,
            final(self).max_frame_len == old(self).max_frame_len,
            final(self).negotiated_compression == old(self).negotiated_compression,
            old(self).connection_state != ConnectionState::Open ==> r is Ok && final(self).stream_writer == old(self).stream_writer && final(self).rng == old(self).rng
                && final(scratch)@ == old(scratch)@,
            old(self).connection_state == ConnectionState::Open ==> exists|keys: Seq<[u8; 4]>|
                final(scratch)@ == #[trigger] close_echo(payload@).spec_encode(
                    mask_of(old(self).is_client, keys),
                ),
    {
        match self.connection_state {
            ConnectionState::Open => {},
            _ => {
                self.connection_state = ConnectionState::Closed;
                return Ok(());
            },
        }
        self.connection_state = ConnectionState::Closing;
        let code: u16 = if payload.len() >= 2 {
            crate::misc::bytes::u16_from_be(payload[0], payload[1])
        } else {
            1000
        };
        let mut echoed: Vec<u8> = Vec::new();
        crate::misc::filled_buffer::append_bytes(&mut echoed, u16_to_be(code).as_slice());
        let echo = Frame { fin: true, op_code: OpCode::Close, payload: echoed, rsv1: false };
        assert(echo@ == close_echo(payload@));
        scratch.clear();
        let mut keys: Vec<[u8; 4]> = Vec::new();
        let encoded = encode_message(
            &echo,
            self.is_client,
            self.max_frame_len,
            &mut self.rng,
            &mut keys,
            scratch,
        );
        assert(encoded is Ok);
        proof {
            assert(scratch@ =~= spec_encode_message(
                close_echo(payload@),
                old(self).is_client,
                spec_piece_len(OpCode::Close, old(self).max_frame_len),
                keys@,
                true,
            ));
            crate::web_socket::write::lemma_short_message(
                close_echo(payload@),
                old(self).is_client,
                spec_piece_len(OpCode::Close, old(self).max_frame_len),
                keys@,
            );
            assert(scratch@ == close_echo(payload@).spec_encode(
                mask_of(old(self).is_client, keys@),
            ));
        }
        let r = self.stream_writer.write_all(scratch.as_slice());
        self.connection_state = ConnectionState::Closed;
        match r {
            Ok(()) => Ok(()),
            Err(kind) => Err(Error::Io(kind)),
        }
    }
}

impl WebSocketWriterPart {
    /// A writer that holds no memory.
    pub fn new() -> (r: Self)
        ensures
            r.compression_scratch@.len() == 0,
            r.keys@.len() == 0,
    {
        Self { compression_scratch: Vec::new(), keys: Vec::new() }
    }

    /// If what `common` and the writer hold afterwards is what writing the frame `sent` leaves
    /// behind: the keys that were drawn, one for each frame that a client sends, the frame on
    /// the wire in the scratch room, masked with those keys, and the handshake where the
    /// outcome `is_failed` of the stream and the code of the frame put it.
    pub open spec fn is_written<RNG, SW>(
        &self,
        before: WebSocketCommonPart<RNG, SW>,
        after: WebSocketCommonPart<RNG, SW>,
        sent: FrameView,
        is_failed: bool,
    ) -> bool {
        &&& self.keys@.len() == if before.is_client {
            spec_pieces(sent.payload.len(), spec_piece_len(sent.op_code, before.max_frame_len))
        } else {
            0
        }
        &&& self.compression_scratch@ == spec_encode_message(
            sent,
            before.is_client,
            spec_piece_len(sent.op_code, before.max_frame_len),
            self.keys@,
            true,
        )
        &&& after.connection_state == if is_failed {
            ConnectionState::Closed
        } else if sent.op_code == OpCode::Close {
            ConnectionState::Closing
        } else {
            ConnectionState::Open
        }
    }

    /// Writes `frame`, cut into frames of at most `common.max_frame_len` bytes of payload and
    /// masked if the endpoint is a client. A frame that is marked as compressed is compressed
    /// first, if compression was agreed upon; if it was not, the frame is refused.
    ///
    /// Once a closing frame went either way nothing is written any more. Writing a closing
    /// frame starts the handshake. A stream that fails closes the connection.
    pub fn write_frame<RNG, SW>(
        &mut self,
        common: &mut WebSocketCommonPart<RNG, SW>,
        frame: &Frame,
    ) -> (r: Result<(), Error>) where RNG: Rng, SW: Stream
        ensures
            r matches Err(e) ==> e is Io || e is WebSocketProtocol,
            (r matches Err(e) && e is Io) ==> old(common).connection_state == ConnectionState::Open
                && final(common).connection_state == ConnectionState::Closed,
            final(common).is_client == old(common).is_client,
            final(common).max_frame_len == old(common).max_frame_len,
            final(common).negotiated_compression == old(common).negotiated_compression,
            old(common).connection_state != ConnectionState::Open ==> {
                &&& r == Err::<(), Error>(Error::WebSocketProtocol(WebSocketError::ConnectionClosed))
                &&& *final(common) == *old(common)
                &&& *final(self) == *old(self)
            },
            old(common).connection_state == ConnectionState::Open && !is_sendable(
                frame@,
                spec_piece_len(frame@.op_code, old(common).max_frame_len),
            ) ==> {
                &&& r == Err::<(), Error>(
                    Error::WebSocketProtocol(WebSocketError::InvalidControlFrame),
                )
                &&& *final(common) == *old(common)
            },
            old(common).connection_state == ConnectionState::Open && is_sendable(
                frame@,
                spec_piece_len(frame@.op_code, old(common).max_frame_len),
            ) && frame@.rsv1 && !old(common).negotiated_compression ==> {
                &&& r == Err::<(), Error>(
                    Error::WebSocketProtocol(WebSocketError::UnexpectedCompressionBit),
                )
                &&& *final(common) == *old(common)
            },
            old(common).connection_state == ConnectionState::Open && is_sendable(
                frame@,
                spec_piece_len(frame@.op_code, old(common).max_frame_len),
            ) && !frame@.rsv1 ==> final(self).is_written(
                *old(common),
                *final(common),
                frame@,
                r is Err,
            ),
            old(common).connection_state == ConnectionState::Open && is_sendable(
                frame@,
                spec_piece_len(frame@.op_code, old(common).max_frame_len),
            ) && frame@.rsv1 && old(common).negotiated_compression ==> final(self).is_written(
                *old(common),
                *final(common),
                spec_compressed(frame@, spec_deflate(frame@.payload)),
                r is Err,
            ),
    {
        match common.connection_state {
            ConnectionState::Open => {},
            _ => {
                return Err(Error::WebSocketProtocol(WebSocketError::ConnectionClosed));
            },
        }
        if frame.op_code.is_control() && (!frame.fin || frame.payload.len()
            > crate::web_socket::frame::MAX_CONTROL_PAYLOAD_LEN || frame.rsv1) {
            return Err(Error::WebSocketProtocol(WebSocketError::InvalidControlFrame));
        }
        self.compression_scratch.clear();
        let encoded = if frame.rsv1 {
            if !common.negotiated_compression {
                return Err(Error::WebSocketProtocol(WebSocketError::UnexpectedCompressionBit));
            }
            let compressed = compress_message(frame);
            encode_message(
                &compressed,
                common.is_client,
                common.max_frame_len,
                &mut common.rng,
                &mut self.keys,
                &mut self.compression_scratch,
            )
        } else {
            encode_message(
                frame,
                common.is_client,
                common.max_frame_len,
                &mut common.rng,
                &mut self.keys,
                &mut self.compression_scratch,
            )
        };
        match encoded {
            Ok(()) => {},
            Err(e) => {
                return Err(e);
            },
        }
        match common.stream_writer.write_all(self.compression_scratch.as_slice()) {
            Ok(()) => {},
            Err(kind) => {
                common.connection_state = ConnectionState::Closed;
                return Err(Error::Io(kind));
            },
        }
        match frame.op_code {
            OpCode::Close => {
                common.connection_state = ConnectionState::Closing;
            },
            _ => {},
        }
        Ok(())
    }
}

/// What a reader keeps between its calls: the bytes that arrived, the message that is being
/// put together and what was agreed upon.
#[derive(Debug)]
pub struct WebSocketReaderPart {
    buffer: PartitionedFilledBuffer,
    config: ReaderConfig,
    reassembly: Reassembly,
}

impl WebSocketReaderPart {
    /// The buffer is in order.
    pub closed spec fn inv(&self) -> bool {
        self.buffer.inv()
    }

    /// The bytes that arrived.
    pub closed spec fn spec_buffer(&self) -> PartitionedView {
        self.buffer@
    }

    /// What the reader was set up with.
    pub closed spec fn spec_config(&self) -> ReaderConfig {
        self.config
    }

    /// What is known of the message that is being put together.
    pub closed spec fn spec_reassembly(&self) -> ReassemblyView {
        self.reassembly@
    }

    /// A reader that has seen nothing yet.
    pub fn new(config: ReaderConfig) -> (r: Self)
        ensures
            r.inv(),
            r.spec_config() == config,
            r.spec_reassembly() == ReassemblyView::idle(),
    {
        Self { buffer: PartitionedFilledBuffer::new(), config, reassembly: Reassembly::new() }
    }

    /// Where the reading of the next call begins: where the frame in scope ends, or at the
    /// front of the buffer if nothing was read ahead.
    pub open spec fn spec_read_begin(&self) -> int {
        if self.spec_buffer().following_end > self.spec_buffer().current_end {
            self.spec_buffer().current_end as int
        } else {
            0
        }
    }

    /// Moves the next frame into scope, reading what is missing of it, and hands it out
    /// unmasked together with the telling if it was masked.
    ///
    /// A frame whose payload is longer than was agreed upon is refused as soon as its header
    /// is known. A failure leaves the frame in scope where it was. A frame that was read ahead
    /// whole is taken from the buffer as it is, and so is the failure of a header that was
    /// read ahead: the stream is not asked for anything.
    #[verifier::rlimit(60)]
    pub fn fetch_frame_from_stream<SR>(&mut self, stream_reader: &mut SR) -> (r: Result<
        (bool, Frame),
        Error,
    >) where SR: Stream
        requires
            old(self).inv(),
        ensures
            final(self).inv(),
            final(self).spec_config() == old(self).spec_config(),
            final(self).spec_reassembly() == old(self).spec_reassembly(),
            final(self).spec_buffer().all.subrange(
                0,
                old(self).spec_buffer().following_end as int,
            ) == old(self).spec_buffer().all.subrange(
                0,
                old(self).spec_buffer().following_end as int,
            ),
            final(self).spec_buffer().following_end >= old(self).spec_buffer().following_end,
            match r {
                Ok((is_masked, frame)) => {
                    &&& FrameView::spec_decode(final(self).spec_buffer().current()) == Ok::<
                        Option<(FrameView, int)>,
                        Error,
                    >(Some((frame@, final(self).spec_buffer().current().len() as int)))
                    &&& is_masked == (final(self).spec_buffer().current()[1] >= 128)
                    &&& final(self).spec_buffer().antecedent_end == old(self).spec_buffer().current_end
                    &&& final(self).spec_buffer().current_end >= old(self).spec_buffer().current_end
                        + 2
                    &&& frame@.payload.len() <= old(self).spec_config().max_payload_len
                },
                Err(e) => {
                    &&& final(self).spec_buffer().antecedent_end == old(self).spec_buffer().antecedent_end
                    &&& final(self).spec_buffer().current_end == old(self).spec_buffer().current_end
                    &&& is_read_failure(e)
                },
            },
            r is Ok <==> final(self).spec_buffer().current_end >= old(self).spec_buffer().current_end
                + 2,
            FrameView::spec_decode(old(self).spec_buffer().following()) matches Ok(
                Some((frame, len)),
            ) ==> {
                &&& *final(stream_reader) == *old(stream_reader)
                &&& if frame.payload.len() > old(self).spec_config().max_payload_len {
                    &&& r matches Err(Error::WebSocketProtocol(WebSocketError::FrameTooLarge))
                    &&& final(self).spec_buffer() == old(self).spec_buffer()
                } else {
                    &&& r matches Ok((_, got)) && got@ == frame
                    &&& final(self).spec_buffer() == (PartitionedView {
                        antecedent_end: old(self).spec_buffer().current_end,
                        current_end: (old(self).spec_buffer().current_end + len) as nat,
                        ..old(self).spec_buffer()
                    })
                }
            },
            FrameView::spec_decode(old(self).spec_buffer().following()) matches Err(e) ==> {
                &&& r matches Err(got) && got == e
                &&& *final(stream_reader) == *old(stream_reader)
                &&& final(self).spec_buffer() == old(self).spec_buffer()
            },
    {
        proof {
            self.buffer.lemma_ordered();
        }
        let ghost ahead = self.buffer@.following();
        let nb = &mut self.buffer;
        let mut read: usize = nb.following_len();
        let current_end_idx: usize = nb.current_end_idx();
        let (header, header_len) = match Self::need_header(nb, &mut read, stream_reader) {
            Ok(header) => header,
            Err(e) => {
                return Err(e);
            },
        };
        proof {
            nb.lemma_ordered();
        }
        let total: usize = match whole_len(&header, header_len, self.config.max_payload_len) {
            Ok(total) => total,
            Err(e) => {
                return Err(e);
            },
        };
        proof {
            if FrameView::spec_decode(ahead) is Ok && FrameView::spec_decode(ahead)->Ok_0 is Some {
                assert(nb@.all.subrange(nb@.current_end as int, nb@.current_end + total)
                    =~= ahead.subrange(0, total as int));
                lemma_decode_is_local(ahead, total as int);
            }
        }
        let r = Self::need_frame(nb, &mut read, total, self.config.max_payload_len, stream_reader);
        proof {
            nb.lemma_ordered();
            assert(nb@.all.subrange(0, old(self).buffer@.following_end as int) =~= old(
                self,
            ).buffer@.all.subrange(0, old(self).buffer@.following_end as int));
        }
        r
    }

    #[verifier::rlimit(40)]
    /// Makes sure that the `total` bytes of the next frame lie behind the frame in scope,
    /// reading what is missing of them, reads the frame and moves it into scope. A frame that
    /// lies there already is read as it is.
    fn need_frame<SR>(
        nb: &mut PartitionedFilledBuffer,
        read: &mut usize,
        total: usize,
        max: usize,
        stream_reader: &mut SR,
    ) -> (r: Result<(bool, Frame), Error>) where SR: Stream
        requires
            old(nb).inv(),
            old(nb)@.following_end - old(nb)@.current_end <= *old(read) <= old(nb)@.len - old(nb)@.current_end,
            total >= 2,
        ensures
            final(nb).inv(),
            final(nb)@.all.len() >= old(nb)@.all.len(),
            forall|i: int|
                0 <= i < old(nb)@.current_end + *old(read) ==> final(nb)@.all[i] == old(nb)@.all[i],
            final(nb)@.following_end >= old(nb)@.following_end,
            match r {
                Ok((is_masked, frame)) => {
                    &&& FrameView::spec_decode(final(nb)@.current()) == Ok::<
                        Option<(FrameView, int)>,
                        Error,
                    >(Some((frame@, total as int)))
                    &&& is_masked == (final(nb)@.current()[1] >= 128)
                    &&& final(nb)@.antecedent_end == old(nb)@.current_end
                    &&& final(nb)@.current_end == old(nb)@.current_end + total
                    &&& frame@.payload.len() <= max
                },
                Err(e) => {
                    &&& final(nb)@.antecedent_end == old(nb)@.antecedent_end
                    &&& final(nb)@.current_end == old(nb)@.current_end
                    &&& is_read_failure(e)
                },
            },
            *old(read) >= total ==> {
                &&& *final(stream_reader) == *old(stream_reader)
                &&& r is Err ==> final(nb)@ == old(nb)@
                &&& r is Ok ==> final(nb)@ == (PartitionedView {
                    antecedent_end: old(nb)@.current_end,
                    current_end: (old(nb)@.current_end + total) as nat,
                    following_end: (old(nb)@.current_end + *old(read)) as nat,
                    ..old(nb)@
                })
                &&& (FrameView::spec_decode(
                    old(nb)@.all.subrange(
                        old(nb)@.current_end as int,
                        old(nb)@.current_end + total,
                    ),
                ) matches Ok(Some((frame, len))) && len == total && frame.payload.len() <= max)
                    ==> r is Ok
            },
    {
        proof {
            nb.lemma_ordered();
        }
        let current_end_idx: usize = nb.current_end_idx();
        match Self::need(nb, read, total, stream_reader) {
            Ok(()) => {},
            Err(e) => {
                return Err(e);
            },
        }
        proof {
            nb.lemma_ordered();
        }
        let whole = vstd::slice::slice_subrange(nb.following_trail(), 0, total);
        proof {
            assert(whole@ =~= nb@.all.subrange(nb@.current_end as int, nb@.current_end + total));
        }
        let is_masked: bool = whole[1] >= 128;
        let frame = match Frame::decode(whole) {
            Ok(Some((frame, len))) => {
                if len != total || frame.payload.len() > max {
                    return Err(Error::UnexpectedBufferState);
                }
                frame
            },
            Ok(None) => {
                return Err(Error::UnexpectedBufferState);
            },
            Err(e) => {
                return Err(e);
            },
        };
        match nb.set_indices(current_end_idx, total, *read - total) {
            Ok(()) => {},
            Err(e) => {
                return Err(e);
            },
        }
        proof {
            nb.lemma_ordered();
            assert(nb@.current() =~= whole@);
        }
        Ok((is_masked, frame))
    }

    #[verifier::rlimit(40)]
    /// Makes sure that the header of the next frame lies behind the frame in scope, reading
    /// what is missing of it, and reads it. A header that lies there already is read as it
    /// is.
    fn need_header<SR>(
        nb: &mut PartitionedFilledBuffer,
        read: &mut usize,
        stream_reader: &mut SR,
    ) -> (r: Result<(FrameHeader, usize), Error>) where SR: Stream
        requires
            old(nb).inv(),
            *old(read) == old(nb)@.following_end - old(nb)@.current_end,
        ensures
            final(nb).inv(),
            final(nb)@.antecedent_end == old(nb)@.antecedent_end,
            final(nb)@.current_end == old(nb)@.current_end,
            final(nb)@.following_end == old(nb)@.following_end,
            final(nb)@.all.len() >= old(nb)@.all.len(),
            forall|i: int| 0 <= i < old(nb)@.following_end ==> final(nb)@.all[i] == old(nb)@.all[i],
            *old(read) <= *final(read) <= final(nb)@.len - final(nb)@.current_end,
            r matches Err(e) ==> is_read_failure(e),
            r matches Ok((header, len)) ==> {
                &&& FrameHeader::spec_decode(
                    final(nb)@.all.subrange(
                        final(nb)@.current_end as int,
                        final(nb)@.current_end + *final(read),
                    ),
                ) == Ok::<Option<(FrameHeader, int)>, Error>(Some((header, len as int)))
                &&& 2 <= len <= 14
                &&& len <= *final(read)
            },
            FrameHeader::spec_decode(old(nb)@.following()) matches Ok(Some(_)) ==> {
                &&& r is Ok
                &&& final(nb)@ == old(nb)@
                &&& *final(read) == *old(read)
                &&& *final(stream_reader) == *old(stream_reader)
            },
            FrameHeader::spec_decode(old(nb)@.following()) matches Err(e) ==> {
                &&& r matches Err(got) && got == e
                &&& final(nb)@ == old(nb)@
                &&& *final(stream_reader) == *old(stream_reader)
            },
    {
        proof {
            nb.lemma_ordered();
        }
        let ghost ahead = nb@.following();
        match Self::need(nb, read, 2, stream_reader) {
            Ok(()) => {},
            Err(e) => {
                return Err(e);
            },
        }
        proof {
            nb.lemma_ordered();
        }
        let held = vstd::slice::slice_subrange(nb.following_trail(), 0, *read);
        proof {
            assert(held@ =~= nb@.all.subrange(nb@.current_end as int, nb@.current_end + *read));
            if ahead.len() >= 2 {
                assert(held@ =~= ahead);
            }
        }
        match FrameHeader::decode(held) {
            Ok(Some(header)) => Ok(header),
            Ok(None) => {
                let second: u8 = held[1];
                let len7: u8 = second % 128;
                let until: usize = 2 + (if len7 == 126 {
                    2usize
                } else if len7 == 127 {
                    8usize
                } else {
                    0usize
                }) + (if second >= 128 {
                    4usize
                } else {
                    0usize
                });
                match Self::need(nb, read, until, stream_reader) {
                    Ok(()) => {},
                    Err(e) => {
                        return Err(e);
                    },
                }
                proof {
                    nb.lemma_ordered();
                }
                let held = vstd::slice::slice_subrange(nb.following_trail(), 0, *read);
                assert(held@ =~= nb@.all.subrange(nb@.current_end as int, nb@.current_end + *read));
                match FrameHeader::decode(held) {
                    Ok(Some(header)) => Ok(header),
                    Ok(None) => Err(Error::UnexpectedBufferState),
                    Err(e) => Err(e),
                }
            },
            Err(e) => Err(e),
        }
    }

    /// Makes sure that `until` bytes lie behind the frame in scope, reading what is missing.
    /// Bytes that lie there already are not read again. The stream is asked for at least
    /// [`READ_AHEAD`] bytes, so that what it has of the frames that follow is read ahead.
    fn need<SR>(
        nb: &mut PartitionedFilledBuffer,
        read: &mut usize,
        until: usize,
        stream_reader: &mut SR,
    ) -> (r: Result<(), Error>) where SR: Stream
        requires
            old(nb).inv(),
            old(nb)@.following_end - old(nb)@.current_end <= *old(read) <= old(nb)@.len - old(nb)@.current_end,
        ensures
            final(nb).inv(),
            final(nb)@.antecedent_end == old(nb)@.antecedent_end,
            final(nb)@.current_end == old(nb)@.current_end,
            final(nb)@.following_end == old(nb)@.following_end,
            final(nb)@.all.len() >= old(nb)@.all.len(),
            forall|i: int|
                0 <= i < old(nb)@.current_end + *old(read) ==> final(nb)@.all[i] == old(nb)@.all[i],
            *old(read) <= *final(read) <= final(nb)@.len - final(nb)@.current_end,
            r is Ok <==> *final(read) >= until,
            r matches Err(e) ==> e is Io || e == Error::AllocationError || e
                == Error::UnexpectedBufferState,
            *old(read) < until && old(nb)@.current_end + until > usize::MAX ==> r matches Err(
                Error::AllocationError,
            ),
            old(nb)@.current_end + until + READ_AHEAD <= old(nb)@.all.len() ==> !(r matches Err(
                Error::AllocationError,
            )),
            (r matches Err(Error::AllocationError)) ==> *final(read) == *old(read) && final(nb)@
                == old(nb)@ && *final(stream_reader) == *old(stream_reader),
            *old(read) >= until ==> *final(read) == *old(read) && final(nb)@ == old(nb)@
                && *final(stream_reader) == *old(stream_reader),
    {
        proof {
            nb.lemma_ordered();
        }
        if *read >= until {
            return Ok(());
        }
        let wanted: usize = if until < READ_AHEAD {
            READ_AHEAD
        } else {
            until
        };
        let end: usize = match nb.current_end_idx().checked_add(wanted) {
            Some(end) => end,
            None => match nb.current_end_idx().checked_add(until) {
                Some(end) => end,
                None => {
                    return Err(Error::AllocationError);
                },
            },
        };
        match nb.expand_buffer(end) {
            Ok(()) => {},
            Err(e) => {
                return Err(e);
            },
        }
        proof {
            nb.lemma_ordered();
        }
        let ghost grown = nb@;
        let r = read_until(nb, read, until, stream_reader);
        proof {
            nb.lemma_ordered();
            assert forall|i: int| 0 <= i < old(nb)@.current_end + *old(read) implies nb@.all[i]
                == old(nb)@.all[i] by {
                assert(nb@.all[i] == nb@.all.subrange(0, grown.current_end + *old(read))[i]);
                assert(grown.all[i] == grown.all.subrange(0, grown.current_end + *old(read))[i]);
            }
        }
        r
    }

    /// What the frames decide that lie in the buffer of `after` from where the reading of
    /// `self` begins up to the frame in scope.
    pub open spec fn spec_received(&self, after: &Self) -> FramesRecord {
        spec_read_frames(
            after.spec_buffer().all,
            self.spec_read_begin(),
            after.spec_buffer().current_end as int,
            self.spec_config(),
            self.spec_reassembly(),
        )
    }

    /// What the frames decide that were read ahead.
    pub open spec fn spec_read_ahead(&self) -> FramesRecord {
        spec_read_frames(
            self.spec_buffer().all,
            self.spec_buffer().current_end as int,
            self.spec_buffer().following_end as int,
            self.spec_config(),
            self.spec_reassembly(),
        )
    }

    /// Reads frames until one is to be handed out: a frame that steers the connection, or the
    /// message that the frame that arrived last completes.
    ///
    /// What is handed out is what the frames that were moved into scope decide, one after the
    /// other, as [`spec_read_frames`] tells: the frame or the failure that they end with. A
    /// failure without such an end comes from the frame that could not be moved into scope.
    /// If the frames that were read ahead decide what is handed out, the stream is not asked
    /// for anything.
    #[verifier::rlimit(60)]
    pub fn read_frame_from_stream<SR>(&mut self, stream_reader: &mut SR) -> (r: Result<Frame, Error>) where
        SR: Stream,

        requires
            old(self).inv(),
        ensures
            final(self).inv(),
            final(self).spec_config() == old(self).spec_config(),
            old(self).spec_received(final(self)).end == final(self).spec_buffer().current_end,
            old(self).spec_received(final(self)).state == final(self).spec_reassembly(),
            match r {
                Ok(frame) => {
                    &&& old(self).spec_received(final(self)).result == Some(
                        Ok::<FrameView, Error>(frame@),
                    )
                    &&& frame@.fin
                    &&& frame@.op_code != OpCode::Continuation
                    &&& !frame@.rsv1
                    &&& frame@.op_code.spec_is_control() ==> frame@.payload.len()
                        <= MAX_CONTROL_PAYLOAD_LEN
                },
                Err(e) => {
                    &&& is_read_failure(e)
                    &&& {
                        ||| old(self).spec_received(final(self)).result is None
                        ||| old(self).spec_received(final(self)).result == Some(
                            Err::<FrameView, Error>(e),
                        )
                    }
                },
            },
            old(self).spec_read_ahead().result is Some ==> {
                &&& *final(stream_reader) == *old(stream_reader)
                &&& decompressed(r) == old(self).spec_read_ahead().result->Some_0
            },
    {
        proof {
            reveal(spec_read_frames);
        }
        let ghost begin = old(self).spec_read_begin();
        let ghost cfg = old(self).spec_config();
        let ghost init = old(self).spec_reassembly();
        let ghost ahead = old(self).spec_read_ahead();
        proof {
            self.buffer.lemma_ordered();
        }
        self.buffer.clear_if_following_is_empty();
        proof {
            self.buffer.lemma_ordered();
        }
        loop
            invariant
                self.inv(),
                self.spec_config() == cfg,
                cfg == old(self).spec_config(),
                init == old(self).spec_reassembly(),
                begin == old(self).spec_read_begin(),
                ahead == old(self).spec_read_ahead(),
                spec_read_frames(
                    self.buffer@.all,
                    begin,
                    self.buffer@.current_end as int,
                    cfg,
                    init,
                ) == (FramesRecord {
                    state: self.reassembly@,
                    end: self.buffer@.current_end as int,
                    result: None,
                }),
                ahead.result is Some ==> {
                    &&& *stream_reader == *old(stream_reader)
                    &&& self.buffer@.all == old(self).buffer@.all
                    &&& self.buffer@.following_end == old(self).buffer@.following_end
                    &&& spec_read_frames(
                        self.buffer@.all,
                        self.buffer@.current_end as int,
                        self.buffer@.following_end as int,
                        cfg,
                        self.reassembly@,
                    ) == ahead
                },
            decreases usize::MAX - self.buffer@.current_end,
        {
            proof {
                self.buffer.lemma_ordered();
            }
            proof {
                reveal(spec_read_frames);
            }
            let ghost before = self.buffer@;
            let ghost state = self.reassembly@;
            proof {
                if ahead.result is Some {
                    assert(before.all.subrange(
                        before.current_end as int,
                        before.following_end as int,
                    ) == before.following());
                }
            }
            let (is_masked, frame) = match self.fetch_frame_from_stream(stream_reader) {
                Ok(fetched) => fetched,
                Err(e) => {
                    proof {
                        self.buffer.lemma_ordered();
                        let cur = before.current_end as int;
                        assert(before.all.subrange(0, cur) =~= before.all.subrange(
                            0,
                            before.following_end as int,
                        ).subrange(0, cur));
                        assert(self.buffer@.all.subrange(0, cur) =~= self.buffer@.all.subrange(
                            0,
                            before.following_end as int,
                        ).subrange(0, cur));
                        lemma_read_frames_stable(before.all, self.buffer@.all, begin, cur, cfg, init);
                    }
                    return Err(e);
                },
            };
            proof {
                self.buffer.lemma_ordered();
                let cur = before.current_end as int;
                assert(before.all.subrange(0, cur) =~= before.all.subrange(
                    0,
                    before.following_end as int,
                ).subrange(0, cur));
                assert(self.buffer@.all.subrange(0, cur) =~= self.buffer@.all.subrange(
                    0,
                    before.following_end as int,
                ).subrange(0, cur));
                lemma_read_frames_step(before, self.buffer@, begin, cfg, init, frame@);
                if ahead.result is Some {
                    assert(self.buffer@.current() =~= before.following().subrange(
                        0,
                        self.buffer@.current().len() as int,
                    ));
                    assert(self.buffer@.current()[1] == before.all[cur + 1]);
                }
            }
            match self.reassembly.on_frame(&self.config, is_masked, frame) {
                Ok(Some(frame)) => {
                    proof {
                        lemma_handed_out(cfg, state, is_masked, frame@);
                    }
                    return decompress_message(frame, self.config.max_payload_len);
                },
                Ok(None) => {},
                Err(e) => {
                    return Err(e);
                },
            }
        }
    }

    /// Reads the next frame that is to be handed out and, if it closes the connection, acts
    /// on it as [`WebSocketCommonPart::manage_close`] tells.
    pub fn read_frame_from_parts<RNG, SR, SW>(
        &mut self,
        common: &mut WebSocketCommonPart<RNG, SW>,
        stream_reader: &mut SR,
        scratch: &mut Vec<u8>,
    ) -> (r: Result<Frame, Error>) where RNG: Rng, SR: Stream, SW: Stream
        requires
            old(self).inv(),
        ensures
            final(self).inv(),
            final(self).spec_config() == old(self).spec_config(),
            old(self).spec_received(final(self)).end == final(self).spec_buffer().current_end,
            old(self).spec_received(final(self)).state == final(self).spec_reassembly(),
            r matches Ok(frame) ==> {
                &&& old(self).spec_received(final(self)).result == Some(
                    Ok::<FrameView, Error>(frame@),
                )
                &&& frame@.fin
                &&& frame@.op_code != OpCode::Continuation
                &&& !frame@.rsv1
                &&& frame@.op_code.spec_is_control() ==> frame@.payload.len()
                    <= MAX_CONTROL_PAYLOAD_LEN
                &&& frame@.op_code == OpCode::Close ==> final(common).connection_state
                    == ConnectionState::Closed
                &&& frame@.op_code != OpCode::Close ==> *final(common) == *old(common)
            },
            r matches Err(e) ==> is_read_failure(e),
            old(self).spec_received(final(self)).result matches Some(Ok(frame)) && frame.op_code
                != OpCode::Close ==> r is Ok,
    {
        let frame = match self.read_frame_from_stream(stream_reader) {
            Ok(frame) => frame,
            Err(e) => {
                return Err(e);
            },
        };
        match frame.op_code {
            OpCode::Close => {
                match common.manage_close(scratch, frame.payload.as_slice()) {
                    Ok(()) => {},
                    Err(e) => {
                        return Err(e);
                    },
                }
            },
            _ => {},
        }
        Ok(frame)
    }
}

/// What is handed out is whole and uncompressed once it was decompressed, it is no
/// continuation, and if it steers the connection its payload is short.
pub proof fn lemma_handed_out(
    cfg: ReaderConfig,
    state: ReassemblyView,
    is_masked: bool,
    frame: FrameView,
)
    ensures
        state.spec_on_frame(cfg, is_masked, frame) matches Ok((_, Some(out))) ==> {
            &&& out.fin
            &&& out.op_code != OpCode::Continuation
            &&& out.op_code.spec_is_control() ==> !out.rsv1 && out.payload.len()
                <= MAX_CONTROL_PAYLOAD_LEN
            &&& spec_decompressed(out, cfg.max_payload_len) matches Ok(held) ==> {
                &&& held.fin
                &&& held.op_code == out.op_code
                &&& !held.rsv1
                &&& held.op_code.spec_is_control() ==> held == out
            }
        },
{
}

} // verus!
