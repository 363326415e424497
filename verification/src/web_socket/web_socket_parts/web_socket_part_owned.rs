//! Reading and writing over streams that the halves own.

use crate::error::{Error, WebSocketError};
use crate::misc::rng::Xorshift64;
use crate::misc::stream::Stream;
use crate::web_socket::compression::{decompressed, spec_compressed, spec_deflate};
use crate::web_socket::frame::{Frame, FrameView, MAX_CONTROL_PAYLOAD_LEN};
use crate::web_socket::op_code::OpCode;
use crate::web_socket::read::ReaderConfig;
use crate::web_socket::web_socket_parts::web_socket_part::{
    close_echo, is_read_failure, ConnectionState, WebSocketCommonPart, WebSocketReaderPart, WebSocketWriterPart,
};
use crate::web_socket::write::{is_sendable, mask_of, spec_piece_len};
use vstd::prelude::*;

verus! {

/// Auxiliary structure used by [`WebSocketReaderPartOwned`] and [`WebSocketWriterPartOwned`].
///
/// It is what the two halves share. Whoever holds both halves in different tasks keeps it
/// behind a lock and hands it to a half only for the time of a call.
#[derive(Debug)]
pub struct WebSocketCommonPartOwned<SW> {
    /// What is shared.
    pub wsc: WebSocketCommonPart<Xorshift64, SW>,
}

/// Reader that can be used while another task writes.
#[derive(Debug)]
pub struct WebSocketReaderPartOwned<SR> {
    /// Scratch room for the echo of a closing frame.
    pub echo_scratch: Vec<u8>,
    /// The stream that is read from.
    pub stream_reader: SR,
    /// What the reader keeps between its calls.
    pub wsrp: WebSocketReaderPart,
}

/// Writer that can be used while another task reads.
#[derive(Debug)]
pub struct WebSocketWriterPartOwned {
    /// What the writer keeps between its calls.
    pub wswp: WebSocketWriterPart,
}

impl<SR> WebSocketReaderPartOwned<SR> where SR: Stream {
    /// A reader over `stream_reader`.
    pub fn new(config: ReaderConfig, stream_reader: SR) -> (r: Self)
        ensures
            r.wsrp.inv(),
            r.wsrp.spec_config() == config,
            r.stream_reader == stream_reader,
    {
        Self { echo_scratch: Vec::new(), stream_reader, wsrp: WebSocketReaderPart::new(config) }
    }

    /// Reads a frame from the stream without looking at what is shared.
    ///
    /// If a frame is made up of other sub-frames or continuations, then everything is
    /// collected until all fragments are received. A closing frame that is handed out still
    /// has to be acted on with [`Self::manage_close`].
    pub fn read_next(&mut self) -> (r: Result<Frame, Error>)
        requires
            old(self).wsrp.inv(),
        ensures
            final(self).wsrp.inv(),
            final(self).wsrp.spec_config() == old(self).wsrp.spec_config(),
            old(self).wsrp.spec_received(&final(self).wsrp).end == final(self).wsrp.spec_buffer().current_end,
            old(self).wsrp.spec_received(&final(self).wsrp).state == final(self).wsrp.spec_reassembly(),
            match r {
                Ok(frame) => {
                    &&& old(self).wsrp.spec_received(&final(self).wsrp).result == Some(
                        Ok::<FrameView, Error>(frame@),
                    )
                    &&& frame@.fin
                    &&& frame@.op_code != OpCode::Continuation
                    &&& !frame@.rsv1
                    &&& frame@.op_code.spec_is_control() ==> frame@.payload.len()
                        <= MAX_CONTROL_PAYLOAD_LEN
                },
                Err(e) => {
                    &&& is_read_failure(e)
                    &&& {
                        ||| old(self).wsrp.spec_received(&final(self).wsrp).result is None
                        ||| old(self).wsrp.spec_received(&final(self).wsrp).result == Some(
                            Err::<FrameView, Error>(e),
                        )
                    }
                },
            },
            old(self).wsrp.spec_read_ahead().result is Some ==> {
                &&& final(self).stream_reader == old(self).stream_reader
                &&& decompressed(r) == old(self).wsrp.spec_read_ahead().result->Some_0
            },
    {
        self.wsrp.read_frame_from_stream(&mut self.stream_reader)
    }

    /// Acts on the closing frame `frame` that was handed out: it is echoed if the connection
    /// is open, and the connection is closed.
    pub fn manage_close<SW>(&mut self, common: &mut WebSocketCommonPartOwned<SW>, frame: &Frame) -> (r:
        Result<(), Error>) where SW: Stream
        ensures
            r matches Err(e) ==> e is Io,
            final(common).wsc.connection_state == ConnectionState::Closed,
            final(common).wsc.is_client == old(common).wsc.is_client,
            final(common).wsc.max_frame_len == old(common).wsc.max_frame_len,
            final(common).wsc.negotiated_compression == old(common).wsc.negotiated_compression,
            final(self).wsrp == old(self).wsrp,
            final(self).stream_reader == old(self).stream_reader,
            old(common).wsc.connection_state != ConnectionState::Open ==> {
                &&& r is Ok
                &&& final(common).wsc.stream_writer == old(common).wsc.stream_writer
                &&& final(common).wsc.rng == old(common).wsc.rng
                &&& final(self).echo_scratch@ == old(self).echo_scratch@
            },
            old(common).wsc.connection_state == ConnectionState::Open ==> exists|
                keys: Seq<[u8; 4]>,
            |
                final(self).echo_scratch@ == #[trigger] close_echo(frame@.payload).spec_encode(
                    mask_of(old(common).wsc.is_client, keys),
                ),
    {
        common.wsc.manage_close(&mut self.echo_scratch, frame.payload.as_slice())
    }

    /// Reads a frame from the stream.
    ///
    /// If a frame is made up of other sub-frames or continuations, then everything is
    /// collected until all fragments are received. A closing frame is acted on before it is
    /// handed out.
    pub fn read_frame<SW>(&mut self, common: &mut WebSocketCommonPartOwned<SW>) -> (r: Result<
        Frame,
        Error,
    >) where SW: Stream
        requires
            old(self).wsrp.inv(),
        ensures
            final(self).wsrp.inv(),
            final(self).wsrp.spec_config() == old(self).wsrp.spec_config(),
            old(self).wsrp.spec_received(&final(self).wsrp).end == final(self).wsrp.spec_buffer().current_end,
            old(self).wsrp.spec_received(&final(self).wsrp).state == final(self).wsrp.spec_reassembly(),
            r matches Ok(frame) ==> {
                &&& old(self).wsrp.spec_received(&final(self).wsrp).result == Some(
                    Ok::<FrameView, Error>(frame@),
                )
                &&& frame@.fin
                &&& frame@.op_code != OpCode::Continuation
                &&& !frame@.rsv1
                &&& frame@.op_code.spec_is_control() ==> frame@.payload.len()
                    <= MAX_CONTROL_PAYLOAD_LEN
                &&& frame@.op_code == OpCode::Close ==> final(common).wsc.connection_state
                    == ConnectionState::Closed
                &&& frame@.op_code != OpCode::Close ==> *final(common) == *old(common)
            },
            r matches Err(e) ==> is_read_failure(e),
            old(self).wsrp.spec_received(&final(self).wsrp).result matches Some(Ok(frame))
                && frame.op_code != OpCode::Close ==> r is Ok,
    {
        self.wsrp.read_frame_from_parts(
            &mut common.wsc,
            &mut self.stream_reader,
            &mut self.echo_scratch,
        )
    }
}

impl WebSocketWriterPartOwned {
    /// A writer that holds no memory.
    pub fn new() -> (r: Self)
        ensures
            r.wswp.compression_scratch@.len() == 0,
            r.wswp.keys@.len() == 0,
    {
        Self { wswp: WebSocketWriterPart::new() }
    }

    /// Writes a frame to the stream.
    pub fn write_frame<SW>(&mut self, common: &mut WebSocketCommonPartOwned<SW>, frame: &Frame) -> (r:
        Result<(), Error>) where SW: Stream
        ensures
            r matches Err(e) ==> e is Io || e is WebSocketProtocol,
            (r matches Err(e) && e is Io) ==> old(common).wsc.connection_state
                == ConnectionState::Open && final(common).wsc.connection_state
                == ConnectionState::Closed,
            old(common).wsc.connection_state != ConnectionState::Open ==> {
                &&& r == Err::<(), Error>(Error::WebSocketProtocol(WebSocketError::ConnectionClosed))
                &&& *final(common) == *old(common)
                &&& *final(self) == *old(self)
            },
            old(common).wsc.connection_state == ConnectionState::Open && !is_sendable(
                frame@,
                spec_piece_len(frame@.op_code, old(common).wsc.max_frame_len),
            ) ==> {
                &&& r == Err::<(), Error>(
                    Error::WebSocketProtocol(WebSocketError::InvalidControlFrame),
                )
                &&& *final(common) == *old(common)
            },
            old(common).wsc.connection_state == ConnectionState::Open && is_sendable(
                frame@,
                spec_piece_len(frame@.op_code, old(common).wsc.max_frame_len),
            ) && frame@.rsv1 && !old(common).wsc.negotiated_compression ==> {
                &&& r == Err::<(), Error>(
                    Error::WebSocketProtocol(WebSocketError::UnexpectedCompressionBit),
                )
                &&& *final(common) == *old(common)
            },
            old(common).wsc.connection_state == ConnectionState::Open && is_sendable(
                frame@,
                spec_piece_len(frame@.op_code, old(common).wsc.max_frame_len),
            ) && !frame@.rsv1 ==> final(self).wswp.is_written(
                old(common).wsc,
                final(common).wsc,
                frame@,
                r is Err,
            ),
            old(common).wsc.connection_state == ConnectionState::Open && is_sendable(
                frame@,
                spec_piece_len(frame@.op_code, old(common).wsc.max_frame_len),
            ) && frame@.rsv1 && old(common).wsc.negotiated_compression ==> final(self).wswp.is_written(
                old(common).wsc,
                final(common).wsc,
                spec_compressed(frame@, spec_deflate(frame@.payload)),
                r is Err,
            ),
    {
        self.wswp.write_frame(&mut common.wsc, frame)
    }
}

} // verus!
