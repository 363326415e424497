//! From frames to messages.

use crate::error::{Error, WebSocketError};
use crate::misc::bytes::{be_u16, u16_from_be};
use crate::misc::filled_buffer::append_bytes;
use crate::web_socket::frame::{Frame, FrameView, MAX_CONTROL_PAYLOAD_LEN};
use crate::web_socket::op_code::OpCode;
use vstd::prelude::*;

verus! {

/// The content of a message that is being put together.
#[derive(Debug, Clone, Copy, PartialEq, Eq, Structural)]
pub enum PayloadTy {
    /// No message is being put together.
    Absent,
    /// Opaque bytes.
    Binary,
    /// UTF-8 text.
    Text,
}

impl PayloadTy {
    /// The code of the first frame of a message of this content.
    pub open spec fn spec_op_code(self) -> OpCode {
        match self {
            PayloadTy::Text => OpCode::Text,
            _ => OpCode::Binary,
        }
    }
}

/// What a reader was set up with.
#[derive(Debug, Clone, Copy, PartialEq, Eq)]
pub struct ReaderConfig {
    /// If the reader sits at the end of the connection that opened it.
    pub is_client: bool,
    /// If compressed messages were agreed upon.
    pub has_compression: bool,
    /// The largest payload that a message may have, all of its frames taken together.
    pub max_payload_len: usize,
}

/// The bytes that the end of a compressed message is marked with before it is decompressed.
pub open spec fn deflate_tail() -> Seq<u8> {
    seq![0x00u8, 0x00u8, 0xffu8, 0xffu8]
}

/// If `code` is a status that a closing frame may carry.
pub open spec fn is_close_code(code: u16) -> bool {
    ||| 1000 <= code <= 1003
    ||| 1007 <= code <= 1014
    ||| 3000 <= code <= 4999
}

/// If `payload` may be the payload of a closing frame: empty, or a status and a reason.
pub open spec fn is_close_payload(payload: Seq<u8>) -> bool {
    payload.len() == 0 || (payload.len() >= 2 && is_close_code(be_u16(payload[0], payload[1])))
}

/// The status that the closing frame with the payload `payload` carries, and the normal one
/// if it carries none.
pub open spec fn close_code(payload: Seq<u8>) -> u16 {
    if payload.len() >= 2 {
        be_u16(payload[0], payload[1])
    } else {
        1000
    }
}

/// What is known of the message that is being put together.
pub struct ReassemblyView {
    /// The content of the message, if there is one.
    pub payload_ty: PayloadTy,
    /// If the message is compressed.
    pub is_compressed: bool,
    /// The payloads of the frames that arrived, one after the other.
    pub payload: Seq<u8>,
}

impl ReassemblyView {
    /// The state in which no message is being put together.
    pub open spec fn idle() -> ReassemblyView {
        ReassemblyView { payload_ty: PayloadTy::Absent, is_compressed: false, payload: Seq::empty() }
    }

    /// The payload of a message as it is handed out: a compressed one gets the bytes that the
    /// decompression expects at its end.
    pub open spec fn finished(payload: Seq<u8>, is_compressed: bool) -> Seq<u8> {
        if is_compressed {
            payload + deflate_tail()
        } else {
            payload
        }
    }

    /// The state after the frame `frame` arrived, masked or not as `is_masked` tells, and the
    /// frame that is handed out because of it, if any.
    ///
    /// A frame must be masked exactly if it comes from a client. A frame that steers the
    /// connection must be whole, short and uncompressed; it is handed out at once and leaves
    /// the message that is being put together alone. A text or binary frame opens a message
    /// and is refused while another message is open; a continuation extends the open message
    /// and is refused without one. The frame that closes a message hands out the payloads of
    /// all of its frames, in their order, under the code of the first one.
    pub open spec fn spec_on_frame(self, cfg: ReaderConfig, is_masked: bool, frame: FrameView) -> Result<
        (ReassemblyView, Option<FrameView>),
        Error,
    > {
        if is_masked == cfg.is_client {
            Err(Error::WebSocketProtocol(WebSocketError::InvalidMaskBit))
        } else if frame.op_code.spec_is_control() {
            if !frame.fin || frame.payload.len() > MAX_CONTROL_PAYLOAD_LEN {
                Err(Error::WebSocketProtocol(WebSocketError::InvalidControlFrame))
            } else if frame.rsv1 {
                Err(Error::WebSocketProtocol(WebSocketError::UnexpectedCompressionBit))
            } else if frame.op_code == OpCode::Close && !is_close_payload(frame.payload) {
                Err(Error::WebSocketProtocol(WebSocketError::InvalidCloseFrame))
            } else {
                Ok((self, Some(frame)))
            }
        } else if frame.op_code == OpCode::Continuation {
            if self.payload_ty == PayloadTy::Absent {
                Err(Error::WebSocketProtocol(WebSocketError::UnexpectedContinuation))
            } else if frame.rsv1 {
                Err(Error::WebSocketProtocol(WebSocketError::UnexpectedCompressionBit))
            } else if self.payload.len() + frame.payload.len() > cfg.max_payload_len {
                Err(Error::WebSocketProtocol(WebSocketError::FrameTooLarge))
            } else if frame.fin {
                Ok(
                    (
                        Self::idle(),
                        Some(
                            FrameView {
                                fin: true,
                                op_code: self.payload_ty.spec_op_code(),
                                payload: Self::finished(
                                    self.payload + frame.payload,
                                    self.is_compressed,
                                ),
                                rsv1: self.is_compressed,
                            },
                        ),
                    ),
                )
            } else {
                Ok((ReassemblyView { payload: self.payload + frame.payload, ..self }, None))
            }
        } else {
            if self.payload_ty != PayloadTy::Absent {
                Err(Error::WebSocketProtocol(WebSocketError::UnexpectedDataFrame))
            } else if frame.rsv1 && !cfg.has_compression {
                Err(Error::WebSocketProtocol(WebSocketError::UnexpectedCompressionBit))
            } else if frame.payload.len() > cfg.max_payload_len {
                Err(Error::WebSocketProtocol(WebSocketError::FrameTooLarge))
            } else if frame.fin {
                Ok(
                    (
                        Self::idle(),
                        Some(
                            FrameView {
                                payload: Self::finished(frame.payload, frame.rsv1),
                                ..frame
                            },
                        ),
                    ),
                )
            } else {
                Ok(
                    (
                        ReassemblyView {
                            payload_ty: if frame.op_code == OpCode::Text {
                                PayloadTy::Text
                            } else {
                                PayloadTy::Binary
                            },
                            is_compressed: frame.rsv1,
                            payload: frame.payload,
                        },
                        None,
                    ),
                )
            }
        }
    }

    /// The state after the frames `frames` arrived one after the other, each with the telling
    /// if it was masked, and the frames that were handed out on the way.
    pub open spec fn spec_on_frames(self, cfg: ReaderConfig, frames: Seq<(bool, FrameView)>) -> Result<
        (ReassemblyView, Seq<FrameView>),
        Error,
    >
        decreases frames.len(),
    {
        if frames.len() == 0 {
            Ok((self, Seq::empty()))
        } else {
            match self.spec_on_frames(cfg, frames.drop_last()) {
                Err(e) => Err(e),
                Ok((state, out)) => match state.spec_on_frame(
                    cfg,
                    frames.last().0,
                    frames.last().1,
                ) {
                    Err(e) => Err(e),
                    Ok((next, Some(frame))) => Ok((next, out.push(frame))),
                    Ok((next, None)) => Ok((next, out)),
                },
            }
        }
    }
}

/// The payloads of `frames`, one after the other.
pub open spec fn payloads(frames: Seq<(bool, FrameView)>) -> Seq<u8>
    decreases frames.len(),
{
    if frames.len() == 0 {
        Seq::empty()
    } else {
        payloads(frames.drop_last()) + frames.last().1.payload
    }
}

/// If `frames` are the leading frames of one message that is not compressed: a text or binary
/// frame followed by continuations, none of them the last one, all of them masked as the role
/// of the reader asks.
pub open spec fn is_open_message(cfg: ReaderConfig, frames: Seq<(bool, FrameView)>) -> bool {
    &&& frames.len() >= 1
    &&& frames[0].1.op_code == OpCode::Text || frames[0].1.op_code == OpCode::Binary
    &&& forall|i: int| 1 <= i < frames.len() ==> (#[trigger] frames[i]).1.op_code == OpCode::Continuation
    &&& forall|i: int|
        0 <= i < frames.len() ==> {
            &&& (#[trigger] frames[i]).0 != cfg.is_client
            &&& !frames[i].1.fin
            &&& !frames[i].1.rsv1
        }
    &&& payloads(frames).len() <= cfg.max_payload_len
}

/// The parts of a payload never take more bytes than the whole.
pub proof fn lemma_payloads_grow(frames: Seq<(bool, FrameView)>)
    requires
        frames.len() >= 1,
    ensures
        payloads(frames.drop_last()).len() <= payloads(frames).len(),
{
}

/// While the frames of a message arrive, nothing is handed out and what is kept is the
/// payloads of the frames that arrived, in their order.
pub proof fn lemma_open_message(cfg: ReaderConfig, frames: Seq<(bool, FrameView)>)
    requires
        is_open_message(cfg, frames),
    ensures
        ReassemblyView::idle().spec_on_frames(cfg, frames) == Ok::<
            (ReassemblyView, Seq<FrameView>),
            Error,
        >(
            (
                ReassemblyView {
                    payload_ty: if frames[0].1.op_code == OpCode::Text {
                        PayloadTy::Text
                    } else {
                        PayloadTy::Binary
                    },
                    is_compressed: false,
                    payload: payloads(frames),
                },
                Seq::empty(),
            ),
        ),
    decreases frames.len(),
{
    let front = frames.drop_last();
    if frames.len() == 1 {
        assert(front.len() == 0);
        assert(payloads(frames) =~= frames[0].1.payload);
        assert(frames.last() == frames[0]);
    } else {
        assert(front[0] == frames[0]);
        assert forall|i: int| 1 <= i < front.len() implies (#[trigger] front[i]).1.op_code
            == OpCode::Continuation by {
            assert(front[i] == frames[i]);
        }
        assert forall|i: int| 0 <= i < front.len() implies {
            &&& (#[trigger] front[i]).0 != cfg.is_client
            &&& !front[i].1.fin
            &&& !front[i].1.rsv1
        } by {
            assert(front[i] == frames[i]);
        }
        lemma_payloads_grow(frames);
        lemma_open_message(cfg, front);
        assert(frames.last() == frames[frames.len() - 1]);
    }
}

/// A reader hands out one message for the frames of one message: a frame that opens a
/// message, any number of continuations and the continuation that closes it yield the payloads
/// of all frames, in the order of their arrival, under the code of the first frame.
pub proof fn lemma_reassembly(
    cfg: ReaderConfig,
    frames: Seq<(bool, FrameView)>,
    last: FrameView,
)
    requires
        is_open_message(cfg, frames),
        last.op_code == OpCode::Continuation,
        last.fin,
        !last.rsv1,
        payloads(frames).len() + last.payload.len() <= cfg.max_payload_len,
    ensures
        ReassemblyView::idle().spec_on_frames(cfg, frames.push((!cfg.is_client, last))) == Ok::<
            (ReassemblyView, Seq<FrameView>),
            Error,
        >(
            (
                ReassemblyView::idle(),
                seq![
                    FrameView {
                        fin: true,
                        op_code: frames[0].1.op_code,
                        payload: payloads(frames) + last.payload,
                        rsv1: false,
                    },
                ],
            ),
        ),
{
    let all = frames.push((!cfg.is_client, last));
    assert(all.drop_last() =~= frames);
    lemma_open_message(cfg, frames);
    assert(Seq::<FrameView>::empty().push(
        FrameView {
            fin: true,
            op_code: frames[0].1.op_code,
            payload: payloads(frames) + last.payload,
            rsv1: false,
        },
    ) =~= seq![
        FrameView {
            fin: true,
            op_code: frames[0].1.op_code,
            payload: payloads(frames) + last.payload,
            rsv1: false,
        },
    ]);
}

/// The message that is being put together.
#[derive(Debug)]
pub struct Reassembly {
    payload_ty: PayloadTy,
    is_compressed: bool,
    reassembly_buffer: Vec<u8>,
}

impl View for Reassembly {
    type V = ReassemblyView;

    closed spec fn view(&self) -> ReassemblyView {
        ReassemblyView {
            payload_ty: self.payload_ty,
            is_compressed: self.is_compressed,
            payload: self.reassembly_buffer@,
        }
    }
}

/// What was handed out, without what owns the bytes.
pub open spec fn handed_out(frame: Option<Frame>) -> Option<FrameView> {
    match frame {
        Some(frame) => Some(frame@),
        None => None,
    }
}

impl Reassembly {
    /// The state in which no message is being put together.
    pub fn new() -> (r: Self)
        ensures
            r@ == ReassemblyView::idle(),
    {
        Self { payload_ty: PayloadTy::Absent, is_compressed: false, reassembly_buffer: Vec::new() }
    }

    /// If a message is being put together.
    pub fn is_open(&self) -> (r: bool)
        ensures
            r == (self@.payload_ty != PayloadTy::Absent),
    {
        match self.payload_ty {
            PayloadTy::Absent => false,
            _ => true,
        }
    }

    /// Takes in the frame `frame`, which arrived masked or not as `is_masked` tells, and hands
    /// out the frame that is complete with it, if any. A frame that breaks the rules leaves
    /// everything as it was.
    pub fn on_frame(&mut self, cfg: &ReaderConfig, is_masked: bool, frame: Frame) -> (r: Result<
        Option<Frame>,
        Error,
    >)
        ensures
            match old(self)@.spec_on_frame(*cfg, is_masked, frame@) {
                Ok((state, out)) => r is Ok && final(self)@ == state && handed_out(r->Ok_0) == out,
                Err(e) => r == Err::<Option<Frame>, Error>(e) && final(self)@ == old(self)@,
            },
    {
        let mut frame = frame;
        if is_masked == cfg.is_client {
            return Err(Error::WebSocketProtocol(WebSocketError::InvalidMaskBit));
        }
        if frame.op_code.is_control() {
            if !frame.fin || frame.payload.len() > MAX_CONTROL_PAYLOAD_LEN {
                return Err(Error::WebSocketProtocol(WebSocketError::InvalidControlFrame));
            }
            if frame.rsv1 {
                return Err(Error::WebSocketProtocol(WebSocketError::UnexpectedCompressionBit));
            }
            match frame.op_code {
                OpCode::Close => {
                    if !check_close_payload(frame.payload.as_slice()) {
                        return Err(Error::WebSocketProtocol(WebSocketError::InvalidCloseFrame));
                    }
                },
                _ => {},
            }
            return Ok(Some(frame));
        }
        match frame.op_code {
            OpCode::Continuation => {
                match self.payload_ty {
                    PayloadTy::Absent => {
                        return Err(
                            Error::WebSocketProtocol(WebSocketError::UnexpectedContinuation),
                        );
                    },
                    _ => {},
                }
                if frame.rsv1 {
                    return Err(Error::WebSocketProtocol(WebSocketError::UnexpectedCompressionBit));
                }
                if frame.payload.len() > cfg.max_payload_len || self.reassembly_buffer.len()
                    > cfg.max_payload_len - frame.payload.len() {
                    return Err(Error::WebSocketProtocol(WebSocketError::FrameTooLarge));
                }
                append_bytes(&mut self.reassembly_buffer, frame.payload.as_slice());
                if !frame.fin {
                    return Ok(None);
                }
                let op_code = match self.payload_ty {
                    PayloadTy::Text => OpCode::Text,
                    _ => OpCode::Binary,
                };
                let rsv1: bool = self.is_compressed;
                let mut payload: Vec<u8> = Vec::new();
                core::mem::swap(&mut payload, &mut self.reassembly_buffer);
                if rsv1 {
                    push_deflate_tail(&mut payload);
                }
                self.payload_ty = PayloadTy::Absent;
                self.is_compressed = false;
                Ok(Some(Frame { fin: true, op_code, payload, rsv1 }))
            },
            _ => {
                match self.payload_ty {
                    PayloadTy::Absent => {},
                    _ => {
                        return Err(Error::WebSocketProtocol(WebSocketError::UnexpectedDataFrame));
                    },
                }
                if frame.rsv1 && !cfg.has_compression {
                    return Err(Error::WebSocketProtocol(WebSocketError::UnexpectedCompressionBit));
                }
                if frame.payload.len() > cfg.max_payload_len {
                    return Err(Error::WebSocketProtocol(WebSocketError::FrameTooLarge));
                }
                if frame.fin {
                    if frame.rsv1 {
                        push_deflate_tail(&mut frame.payload);
                    }
                    self.reassembly_buffer.clear();
                    self.is_compressed = false;
                    return Ok(Some(frame));
                }
                self.payload_ty = match frame.op_code {
                    OpCode::Text => PayloadTy::Text,
                    _ => PayloadTy::Binary,
                };
                self.is_compressed = frame.rsv1;
                self.reassembly_buffer.clear();
                append_bytes(&mut self.reassembly_buffer, frame.payload.as_slice());
                assert(self.reassembly_buffer@ =~= frame.payload@);
                Ok(None)
            },
        }
    }
}

/// Appends the bytes that the decompression expects at the end of a message.
fn push_deflate_tail(payload: &mut Vec<u8>)
    ensures
        final(payload)@ == old(payload)@ + deflate_tail(),
{
    payload.push(0x00);
    payload.push(0x00);
    payload.push(0xff);
    payload.push(0xff);
    assert(payload@ =~= old(payload)@ + deflate_tail());
}

/// If `payload` may be the payload of a closing frame.
pub fn check_close_payload(payload: &[u8]) -> (r: bool)
    ensures
        r == is_close_payload(payload@),
{
    if payload.len() == 0 {
        return true;
    }
    if payload.len() < 2 {
        return false;
    }
    let code: u16 = u16_from_be(payload[0], payload[1]);
    (1000 <= code && code <= 1003) || (1007 <= code && code <= 1014) || (3000 <= code && code
        <= 4999)
}

} // verus!
