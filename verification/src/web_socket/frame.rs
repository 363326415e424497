//! Frames and how they look on the wire.

use crate::error::{Error, WebSocketError};
use crate::misc::bytes::{
    be_u16, be_u32, lemma_u16_be, lemma_u32_be, u16_be, u16_from_be, u16_to_be, u32_be, u32_from_be,
    u32_to_be,
};
use crate::misc::filled_buffer::append_bytes;
use crate::web_socket::op_code::{lemma_bits_round_trip, OpCode};
use vstd::prelude::*;

verus! {

/// The largest payload of a frame that steers the connection.
pub const MAX_CONTROL_PAYLOAD_LEN: usize = 125;

/// The largest payload whose length fits into the second byte of a frame.
pub const MAX_SHORT_PAYLOAD_LEN: u64 = 125;

/// The largest payload whose length fits into two bytes.
pub const MAX_MEDIUM_PAYLOAD_LEN: u64 = 0xffff;

/// The largest payload that a frame can announce: a length of 63 bits.
pub const MAX_PAYLOAD_LEN: u64 = 0x7fff_ffff_ffff_ffff;

/// What stands in front of the payload of a frame.
#[derive(Debug, Clone, Copy, PartialEq, Eq)]
pub struct FrameHeader {
    /// If the frame is the last one of its message.
    pub fin: bool,
    /// The first reserved bit, which marks a compressed message.
    pub rsv1: bool,
    /// What the frame is for.
    pub op_code: OpCode,
    /// The key that the payload is masked with, if it is masked.
    pub mask: Option<[u8; 4]>,
    /// The number of bytes of the payload.
    pub payload_len: u64,
}

/// The eight bytes that spell `n`, most significant byte first.
pub open spec fn u64_be(n: u64) -> Seq<u8> {
    u32_be((n / 0x1_0000_0000) as u32) + u32_be((n % 0x1_0000_0000) as u32)
}

/// The number that the eight bytes of `s` from `at` on spell, most significant byte first.
pub open spec fn be_u64(s: Seq<u8>, at: int) -> int {
    be_u32(s[at], s[at + 1], s[at + 2], s[at + 3]) * 0x1_0000_0000 + be_u32(
        s[at + 4],
        s[at + 5],
        s[at + 6],
        s[at + 7],
    )
}

/// Reading what was spelled gives the number back.
pub proof fn lemma_u64_be(n: u64)
    ensures
        u64_be(n).len() == 8,
        be_u64(u64_be(n), 0) == n,
{
    let high = (n / 0x1_0000_0000) as u32;
    let low = (n % 0x1_0000_0000) as u32;
    lemma_u32_be(high);
    lemma_u32_be(low);
    let spelled = u64_be(n);
    assert(spelled[0] == u32_be(high)[0] && spelled[1] == u32_be(high)[1] && spelled[2] == u32_be(
        high,
    )[2] && spelled[3] == u32_be(high)[3]);
    assert(spelled[4] == u32_be(low)[0] && spelled[5] == u32_be(low)[1] && spelled[6] == u32_be(
        low,
    )[2] && spelled[7] == u32_be(low)[3]);
}

impl FrameHeader {
    /// The header is one that can be written: the length fits into 63 bits.
    pub open spec fn wf(self) -> bool {
        self.payload_len <= MAX_PAYLOAD_LEN
    }

    /// The first byte: the four flags, of which the last two are never set, and the code.
    pub open spec fn first_byte(self) -> u8 {
        ((if self.fin {
            128int
        } else {
            0int
        }) + (if self.rsv1 {
            64int
        } else {
            0int
        }) + self.op_code.spec_bits()) as u8
    }

    /// The bytes that tell the length: one byte that also carries the masking bit, followed by
    /// two or eight more bytes if the length does not fit into seven bits.
    pub open spec fn len_bytes(self) -> Seq<u8> {
        let mask_bit = if self.mask is Some {
            128int
        } else {
            0int
        };
        if self.payload_len <= MAX_SHORT_PAYLOAD_LEN {
            seq![(mask_bit + self.payload_len) as u8]
        } else if self.payload_len <= MAX_MEDIUM_PAYLOAD_LEN {
            seq![(mask_bit + 126) as u8] + u16_be(self.payload_len as u16)
        } else {
            seq![(mask_bit + 127) as u8] + u64_be(self.payload_len)
        }
    }

    /// The header on the wire: the first byte, the length in its shortest form and the key of
    /// the mask if there is one.
    pub open spec fn spec_encode(self) -> Seq<u8> {
        seq![self.first_byte()] + self.len_bytes() + match self.mask {
            Some(key) => key@,
            None => Seq::empty(),
        }
    }

    /// The number of bytes that the header whose first two bytes are `b0` and `b1` takes.
    pub open spec fn spec_header_len(b1: u8) -> int {
        2 + (if b1 % 128 == 126 {
            2int
        } else if b1 % 128 == 127 {
            8int
        } else {
            0int
        }) + (if b1 >= 128 {
            4int
        } else {
            0int
        })
    }

    /// The length of the payload that the header `bytes` announces.
    pub open spec fn spec_payload_len(bytes: Seq<u8>) -> int {
        let len7 = bytes[1] % 128;
        if len7 == 126 {
            be_u16(bytes[2], bytes[3]) as int
        } else if len7 == 127 {
            be_u64(bytes, 2)
        } else {
            len7 as int
        }
    }

    /// The key of the mask that the header `bytes` of `len` bytes ends with, if the payload
    /// is masked.
    pub open spec fn spec_mask(bytes: Seq<u8>, len: int) -> Option<[u8; 4]> {
        if bytes[1] >= 128 {
            Some([bytes[len - 4], bytes[len - 3], bytes[len - 2], bytes[len - 1]])
        } else {
            None
        }
    }

    /// The header that `bytes` begin with and the number of bytes that it takes; nothing if
    /// more bytes are needed to tell. A header with one of the last two reserved bits set, with
    /// a reserved code or with a length of more than 63 bits is refused.
    pub open spec fn spec_decode(bytes: Seq<u8>) -> Result<Option<(FrameHeader, int)>, Error> {
        if bytes.len() < 2 {
            Ok(None)
        } else if bytes[0] % 64 >= 16 {
            Err(Error::WebSocketProtocol(WebSocketError::ReservedBitsAreNotZero))
        } else {
            match OpCode::spec_from_bits(bytes[0] % 16) {
                None => Err(Error::WebSocketProtocol(WebSocketError::InvalidOpCode)),
                Some(op_code) => {
                    let len = Self::spec_header_len(bytes[1]);
                    if bytes.len() < len {
                        Ok(None)
                    } else if Self::spec_payload_len(bytes) > MAX_PAYLOAD_LEN {
                        Err(Error::WebSocketProtocol(WebSocketError::InvalidPayloadLength))
                    } else {
                        Ok(
                            Some(
                                (
                                    FrameHeader {
                                        fin: bytes[0] >= 128,
                                        rsv1: bytes[0] % 128 >= 64,
                                        op_code,
                                        mask: Self::spec_mask(bytes, len),
                                        payload_len: Self::spec_payload_len(bytes) as u64,
                                    },
                                    len,
                                ),
                            ),
                        )
                    }
                },
            }
        }
    }

    /// Appends the header to `out`.
    pub fn encode(&self, out: &mut Vec<u8>)
        requires
            self.wf(),
        ensures
            final(out)@ == old(out)@ + self.spec_encode(),
    {
        let first: u8 = (if self.fin {
            128u8
        } else {
            0u8
        }) + (if self.rsv1 {
            64u8
        } else {
            0u8
        }) + self.op_code.bits();
        let mask_bit: u8 = if self.mask.is_some() {
            128
        } else {
            0
        };
        out.push(first);
        if self.payload_len <= MAX_SHORT_PAYLOAD_LEN {
            out.push(mask_bit + self.payload_len as u8);
        } else if self.payload_len <= MAX_MEDIUM_PAYLOAD_LEN {
            out.push(mask_bit + 126);
            append_bytes(out, u16_to_be(self.payload_len as u16).as_slice());
        } else {
            out.push(mask_bit + 127);
            let n: u64 = self.payload_len;
            append_bytes(out, u32_to_be((n / 0x1_0000_0000) as u32).as_slice());
            append_bytes(out, u32_to_be((n % 0x1_0000_0000) as u32).as_slice());
        }
        match self.mask {
            Some(key) => {
                append_bytes(out, key.as_slice());
            },
            None => {},
        }
        assert(out@ =~= old(out)@ + self.spec_encode());
    }

    /// Reads the header that `bytes` begin with and tells how many bytes it takes; nothing if
    /// more bytes are needed.
    pub fn decode(bytes: &[u8]) -> (r: Result<Option<(FrameHeader, usize)>, Error>)
        ensures
            match r {
                Ok(Some((header, len))) => Self::spec_decode(bytes@) == Ok::<
                    Option<(FrameHeader, int)>,
                    Error,
                >(Some((header, len as int))) && 2 <= len <= 14 && len <= bytes@.len()
                    && header.wf(),
                Ok(None) => Self::spec_decode(bytes@) == Ok::<Option<(FrameHeader, int)>, Error>(
                    None,
                ),
                Err(e) => Self::spec_decode(bytes@) == Err::<Option<(FrameHeader, int)>, Error>(e),
            },
    {
        if bytes.len() < 2 {
            return Ok(None);
        }
        let b0: u8 = bytes[0];
        let b1: u8 = bytes[1];
        if b0 % 64 >= 16 {
            return Err(Error::WebSocketProtocol(WebSocketError::ReservedBitsAreNotZero));
        }
        let op_code = match OpCode::from_bits(b0 % 16) {
            Ok(op_code) => op_code,
            Err(e) => {
                return Err(e);
            },
        };
        let len7: u8 = b1 % 128;
        let is_masked: bool = b1 >= 128;
        let len: usize = 2 + (if len7 == 126 {
            2usize
        } else if len7 == 127 {
            8usize
        } else {
            0usize
        }) + (if is_masked {
            4usize
        } else {
            0usize
        });
        if bytes.len() < len {
            return Ok(None);
        }
        let payload_len: u64 = if len7 == 126 {
            u16_from_be(bytes[2], bytes[3]) as u64
        } else if len7 == 127 {
            let high: u32 = u32_from_be(bytes[2], bytes[3], bytes[4], bytes[5]);
            let low: u32 = u32_from_be(bytes[6], bytes[7], bytes[8], bytes[9]);
            let announced: u64 = (high as u64) * 0x1_0000_0000 + (low as u64);
            if announced > MAX_PAYLOAD_LEN {
                return Err(Error::WebSocketProtocol(WebSocketError::InvalidPayloadLength));
            }
            announced
        } else {
            len7 as u64
        };
        let mask: Option<[u8; 4]> = if is_masked {
            Some([bytes[len - 4], bytes[len - 3], bytes[len - 2], bytes[len - 1]])
        } else {
            None
        };
        Ok(Some((FrameHeader { fin: b0 >= 128, rsv1: b0 % 128 >= 64, op_code, mask, payload_len }, len)))
    }
}

/// The first byte of a header tells its flags and its code.
pub proof fn lemma_first_byte(header: FrameHeader)
    ensures
        header.first_byte() % 64 < 16,
        OpCode::spec_from_bits(header.first_byte() % 16) == Some(header.op_code),
        header.fin == (header.first_byte() >= 128),
        header.rsv1 == (header.first_byte() % 128 >= 64),
{
    lemma_bits_round_trip(header.op_code);
    let bits = header.op_code.spec_bits();
    assert(bits < 16);
}

/// The bytes that tell the length of a payload tell just that, and if a mask follows.
pub proof fn lemma_len_bytes(header: FrameHeader, bytes: Seq<u8>)
    requires
        header.wf(),
        bytes.len() >= 1 + header.len_bytes().len(),
        bytes.subrange(1, 1 + header.len_bytes().len() as int) == header.len_bytes(),
    ensures
        (bytes[1] >= 128) == (header.mask is Some),
        FrameHeader::spec_header_len(bytes[1]) == 1 + header.len_bytes().len() + (
        if header.mask is Some {
            4int
        } else {
            0int
        }),
        FrameHeader::spec_payload_len(bytes) == header.payload_len,
{
    let told = header.len_bytes();
    let at = bytes.subrange(1, 1 + told.len() as int);
    assert(bytes[1] == at[0]);
    if header.payload_len <= MAX_SHORT_PAYLOAD_LEN {
    } else if header.payload_len <= MAX_MEDIUM_PAYLOAD_LEN {
        lemma_u16_be(header.payload_len as u16);
        assert(bytes[2] == at[1] && bytes[3] == at[2]);
        assert(at[1] == u16_be(header.payload_len as u16)[0]);
        assert(at[2] == u16_be(header.payload_len as u16)[1]);
    } else {
        lemma_u64_be(header.payload_len);
        let spelled = u64_be(header.payload_len);
        assert(told.len() == 9);
        assert(bytes[2] == at[1] && bytes[3] == at[2] && bytes[4] == at[3] && bytes[5] == at[4]
            && bytes[6] == at[5] && bytes[7] == at[6] && bytes[8] == at[7] && bytes[9] == at[8]);
        assert(at[1] == spelled[0] && at[2] == spelled[1] && at[3] == spelled[2] && at[4]
            == spelled[3] && at[5] == spelled[4] && at[6] == spelled[5] && at[7] == spelled[6]
            && at[8] == spelled[7]);
        assert(be_u64(bytes, 2) == be_u64(spelled, 0));
    }
}

/// A header is read back from what was written for it, whatever follows.
pub proof fn lemma_header_round_trip(header: FrameHeader, rest: Seq<u8>)
    requires
        header.wf(),
    ensures
        FrameHeader::spec_decode(header.spec_encode() + rest) == Ok::<
            Option<(FrameHeader, int)>,
            Error,
        >(Some((header, header.spec_encode().len() as int))),
{
    let bytes = header.spec_encode() + rest;
    let encoded = header.spec_encode();
    let told = header.len_bytes();
    lemma_first_byte(header);
    assert(bytes[0] == header.first_byte());
    assert(bytes.subrange(1, 1 + told.len() as int) =~= told);
    lemma_len_bytes(header, bytes);
    let len = FrameHeader::spec_header_len(bytes[1]);
    assert(len == encoded.len());
    match header.mask {
        Some(key) => {
            assert(bytes[len - 4] == key@[0]);
            assert(bytes[len - 3] == key@[1]);
            assert(bytes[len - 2] == key@[2]);
            assert(bytes[len - 1] == key@[3]);
            let read: [u8; 4] = [bytes[len - 4], bytes[len - 3], bytes[len - 2], bytes[len - 1]];
            assert(read@ =~= key@);
            assert(read == key);
        },
        None => {},
    }
}

/// `s` with each byte combined with the byte of `key` that its position selects. Masking
/// twice with one key gives the bytes back.
pub open spec fn masked(s: Seq<u8>, key: [u8; 4]) -> Seq<u8> {
    Seq::new(s.len(), |i: int| s[i] ^ key@[i % 4])
}

/// `s` as it travels: masked with the key if there is one.
pub open spec fn maybe_masked(s: Seq<u8>, mask: Option<[u8; 4]>) -> Seq<u8> {
    match mask {
        Some(key) => masked(s, key),
        None => s,
    }
}

/// Masking twice with one key gives the bytes back.
pub proof fn lemma_masked_twice(s: Seq<u8>, key: [u8; 4])
    ensures
        masked(masked(s, key), key) == s,
{
    assert forall|i: int| 0 <= i < s.len() implies masked(masked(s, key), key)[i] == s[i] by {
        let a = s[i];
        let k = key@[i % 4];
        assert((a ^ k) ^ k == a) by (bit_vector);
    }
    assert(masked(masked(s, key), key) =~= s);
}

/// Appends `payload`, masked with the key if there is one, to `out`.
pub fn append_masked(out: &mut Vec<u8>, payload: &[u8], mask: Option<[u8; 4]>)
    ensures
        final(out)@ == old(out)@ + maybe_masked(payload@, mask),
{
    match mask {
        None => {
            append_bytes(out, payload);
        },
        Some(key) => {
            let mut i: usize = 0;
            while i < payload.len()
                invariant
                    i <= payload@.len(),
                    out@ == old(out)@ + masked(payload@, key).take(i as int),
                decreases payload@.len() - i,
            {
                out.push(payload[i] ^ key[i % 4]);
                assert(out@ =~= old(out)@ + masked(payload@, key).take(i as int + 1));
                i += 1;
            }
            assert(masked(payload@, key).take(payload@.len() as int) =~= masked(payload@, key));
        },
    }
}

/// What a frame says.
pub struct FrameView {
    /// If the frame is the last one of its message.
    pub fin: bool,
    /// What the frame is for.
    pub op_code: OpCode,
    /// The bytes that the frame carries, unmasked.
    pub payload: Seq<u8>,
    /// If the message is compressed.
    pub rsv1: bool,
}

impl FrameView {
    /// The header that stands in front of the payload when it is masked with `mask`.
    pub open spec fn header(self, mask: Option<[u8; 4]>) -> FrameHeader {
        FrameHeader {
            fin: self.fin,
            rsv1: self.rsv1,
            op_code: self.op_code,
            mask,
            payload_len: self.payload.len() as u64,
        }
    }

    /// The frame on the wire: the header and the payload, masked if a key is given.
    pub open spec fn spec_encode(self, mask: Option<[u8; 4]>) -> Seq<u8> {
        self.header(mask).spec_encode() + maybe_masked(self.payload, mask)
    }

    /// The frame that `bytes` begin with, unmasked, and the number of bytes that it takes;
    /// nothing if more bytes are needed.
    pub open spec fn spec_decode(bytes: Seq<u8>) -> Result<Option<(FrameView, int)>, Error> {
        match FrameHeader::spec_decode(bytes) {
            Err(e) => Err(e),
            Ok(None) => Ok(None),
            Ok(Some((header, len))) => if bytes.len() < len + header.payload_len {
                Ok(None)
            } else {
                Ok(
                    Some(
                        (
                            FrameView {
                                fin: header.fin,
                                op_code: header.op_code,
                                payload: maybe_masked(
                                    bytes.subrange(len, len + header.payload_len),
                                    header.mask,
                                ),
                                rsv1: header.rsv1,
                            },
                            len + header.payload_len,
                        ),
                    ),
                )
            },
        }
    }
}

#[verifier::rlimit(40)]
/// What is read from the first `n` of `bytes` is what is read from all of them, as soon as
/// either holds a whole header or a whole frame: a frame is told by its own bytes alone.
pub proof fn lemma_decode_is_local(bytes: Seq<u8>, n: int)
    requires
        0 <= n <= bytes.len(),
    ensures
        FrameHeader::spec_decode(bytes.subrange(0, n)) is Err ==> FrameHeader::spec_decode(bytes)
            == FrameHeader::spec_decode(bytes.subrange(0, n)),
        FrameHeader::spec_decode(bytes.subrange(0, n)) matches Ok(Some(_))
            ==> FrameHeader::spec_decode(bytes) == FrameHeader::spec_decode(bytes.subrange(0, n)),
        FrameHeader::spec_decode(bytes) matches Ok(Some((_, len))) && len <= n
            ==> FrameHeader::spec_decode(bytes.subrange(0, n)) == FrameHeader::spec_decode(bytes),
        FrameView::spec_decode(bytes.subrange(0, n)) matches Ok(Some(_)) ==> FrameView::spec_decode(
            bytes,
        ) == FrameView::spec_decode(bytes.subrange(0, n)),
        FrameView::spec_decode(bytes) matches Ok(Some((_, len))) && len <= n
            ==> FrameView::spec_decode(bytes.subrange(0, n)) == FrameView::spec_decode(bytes),
{
    let front = bytes.subrange(0, n);
    if n >= 2 {
        assert(front[0] == bytes[0] && front[1] == bytes[1]);
        let len = FrameHeader::spec_header_len(bytes[1]);
        if n >= len {
            if bytes[1] % 128 == 126 {
                assert(front[2] == bytes[2] && front[3] == bytes[3]);
            }
            if bytes[1] % 128 == 127 {
                assert(front[2] == bytes[2] && front[3] == bytes[3]);
                assert(front[4] == bytes[4] && front[5] == bytes[5] && front[6] == bytes[6]
                    && front[7] == bytes[7] && front[8] == bytes[8] && front[9] == bytes[9]);
            }
            assert(FrameHeader::spec_payload_len(front) == FrameHeader::spec_payload_len(bytes));
            if bytes[1] >= 128 {
                assert(front[len - 4] == bytes[len - 4] && front[len - 3] == bytes[len - 3]
                    && front[len - 2] == bytes[len - 2] && front[len - 1] == bytes[len - 1]);
            }
            assert(FrameHeader::spec_mask(front, len) == FrameHeader::spec_mask(bytes, len));
            let payload_len = FrameHeader::spec_payload_len(bytes);
            if 0 <= payload_len && n >= len + payload_len {
                assert(front.subrange(len, len + payload_len) =~= bytes.subrange(
                    len,
                    len + payload_len,
                ));
            }
        }
    }
}

/// A frame is read back from what was written for it, masked or not, whatever follows: for
/// every code, every flag and every payload that a length field can tell.
pub proof fn lemma_frame_round_trip(frame: FrameView, mask: Option<[u8; 4]>, rest: Seq<u8>)
    requires
        frame.payload.len() <= MAX_PAYLOAD_LEN,
    ensures
        FrameView::spec_decode(frame.spec_encode(mask) + rest) == Ok::<
            Option<(FrameView, int)>,
            Error,
        >(Some((frame, frame.spec_encode(mask).len() as int))),
{
    let header = frame.header(mask);
    let travelling = maybe_masked(frame.payload, mask);
    let bytes = frame.spec_encode(mask) + rest;
    assert(bytes =~= header.spec_encode() + (travelling + rest));
    lemma_header_round_trip(header, travelling + rest);
    let len = header.spec_encode().len() as int;
    assert(bytes.subrange(len, len + header.payload_len) =~= travelling);
    match mask {
        Some(key) => {
            lemma_masked_twice(frame.payload, key);
        },
        None => {},
    }
}

/// A frame: one piece of a message or a signal that steers the connection.
#[derive(Debug, Clone, PartialEq, Eq)]
pub struct Frame {
    /// If the frame is the last one of its message.
    pub fin: bool,
    /// What the frame is for.
    pub op_code: OpCode,
    /// The bytes that the frame carries, unmasked.
    pub payload: Vec<u8>,
    /// If the message is compressed.
    pub rsv1: bool,
}

impl View for Frame {
    type V = FrameView;

    open spec fn view(&self) -> FrameView {
        FrameView {
            fin: self.fin,
            op_code: self.op_code,
            payload: self.payload@,
            rsv1: self.rsv1,
        }
    }
}

/// What was decoded, without what owns the bytes.
pub open spec fn decoded(r: Result<Option<(Frame, usize)>, Error>) -> Result<
    Option<(FrameView, int)>,
    Error,
> {
    match r {
        Ok(Some((frame, len))) => Ok(Some((frame@, len as int))),
        Ok(None) => Ok(None),
        Err(e) => Err(e),
    }
}

impl Frame {
    /// A last frame with the code `op_code` that carries `payload`.
    pub fn new_fin(op_code: OpCode, payload: Vec<u8>) -> (r: Self)
        ensures
            r@ == (FrameView { fin: true, op_code, payload: payload@, rsv1: false }),
    {
        Self { fin: true, op_code, payload, rsv1: false }
    }

    /// A frame with the code `op_code` that carries `payload` and is followed by more frames
    /// of its message.
    pub fn new_unfin(op_code: OpCode, payload: Vec<u8>) -> (r: Self)
        ensures
            r@ == (FrameView { fin: false, op_code, payload: payload@, rsv1: false }),
    {
        Self { fin: false, op_code, payload, rsv1: false }
    }

    /// Appends the frame as it looks on the wire to `out`, masked if a key is given. A payload
    /// that is longer than a length field can tell is refused.
    pub fn encode(&self, mask: Option<[u8; 4]>, out: &mut Vec<u8>) -> (r: Result<(), Error>)
        ensures
            match r {
                Ok(()) => self@.payload.len() <= MAX_PAYLOAD_LEN && final(out)@ == old(out)@
                    + self@.spec_encode(mask),
                Err(e) => self@.payload.len() > MAX_PAYLOAD_LEN && final(out)@ == old(out)@ && e
                    == Error::WebSocketProtocol(WebSocketError::FrameTooLarge),
            },
    {
        if self.payload.len() as u64 > MAX_PAYLOAD_LEN {
            return Err(Error::WebSocketProtocol(WebSocketError::FrameTooLarge));
        }
        let header = FrameHeader {
            fin: self.fin,
            rsv1: self.rsv1,
            op_code: self.op_code,
            mask,
            payload_len: self.payload.len() as u64,
        };
        header.encode(out);
        append_masked(out, self.payload.as_slice(), mask);
        assert(out@ =~= old(out)@ + self@.spec_encode(mask));
        Ok(())
    }

    /// Reads the frame that `bytes` begin with and tells how many bytes it takes; nothing if
    /// more bytes are needed. The payload is handed out unmasked.
    pub fn decode(bytes: &[u8]) -> (r: Result<Option<(Frame, usize)>, Error>)
        ensures
            decoded(r) == FrameView::spec_decode(bytes@),
    {
        let (header, len) = match FrameHeader::decode(bytes) {
            Ok(Some(header)) => header,
            Ok(None) => {
                return Ok(None);
            },
            Err(e) => {
                return Err(e);
            },
        };
        if ((bytes.len() - len) as u64) < header.payload_len {
            return Ok(None);
        }
        let payload_len: usize = header.payload_len as usize;
        let mut payload: Vec<u8> = Vec::new();
        append_masked(
            &mut payload,
            vstd::slice::slice_subrange(bytes, len, len + payload_len),
            header.mask,
        );
        assert(payload@ =~= maybe_masked(
            bytes@.subrange(len as int, len + header.payload_len),
            header.mask,
        ));
        Ok(
            Some(
                (
                    Frame { fin: header.fin, op_code: header.op_code, payload, rsv1: header.rsv1 },
                    len + payload_len,
                ),
            ),
        )
    }
}

} // verus!
