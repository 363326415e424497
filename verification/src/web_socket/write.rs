//! From messages to frames.

use crate::error::{Error, WebSocketError};
use crate::misc::rng::Rng;
use crate::web_socket::frame::{
    append_masked, Frame, FrameHeader, FrameView, MAX_CONTROL_PAYLOAD_LEN, MAX_PAYLOAD_LEN,
};
use crate::web_socket::op_code::OpCode;
use vstd::prelude::*;

verus! {

/// The key that the next frame is masked with, when `keys` are the keys that were drawn for
/// the frames that are still to be sent. Only a client masks, with a key of its own for every
/// frame.
pub open spec fn mask_of(is_client: bool, keys: Seq<[u8; 4]>) -> Option<[u8; 4]> {
    if is_client {
        Some(keys[0])
    } else {
        None
    }
}

/// The keys that are left once a frame was sent.
pub open spec fn keys_behind(is_client: bool, keys: Seq<[u8; 4]>) -> Seq<[u8; 4]> {
    if is_client {
        keys.drop_first()
    } else {
        keys
    }
}

/// The number of frames that a payload of `len` bytes is cut into when a frame takes at most
/// `max` bytes of it: at least one, also for no payload.
pub open spec fn spec_pieces(len: nat, max: nat) -> nat
    decreases len,
{
    if len <= max || max == 0 {
        1
    } else {
        1 + spec_pieces((len - max) as nat, max)
    }
}

/// The piece of `frame` that is sent next when it is cut into frames of at most `max` bytes
/// of payload: the leading bytes under the code of the message if it is the first piece, and
/// as a continuation otherwise. Only the piece that takes the last bytes closes the message.
pub open spec fn next_piece(frame: FrameView, max: nat, is_first: bool) -> FrameView {
    let is_last = frame.payload.len() <= max;
    FrameView {
        fin: is_last && frame.fin,
        op_code: if is_first {
            frame.op_code
        } else {
            OpCode::Continuation
        },
        payload: if is_last {
            frame.payload
        } else {
            frame.payload.take(max as int)
        },
        rsv1: is_first && frame.rsv1,
    }
}

/// `frame` on the wire when it is cut into frames of at most `max` bytes of payload, each
/// masked with a key of its own out of `keys` if the endpoint is a client.
#[verifier::opaque]
pub open spec fn spec_encode_message(
    frame: FrameView,
    is_client: bool,
    max: nat,
    keys: Seq<[u8; 4]>,
    is_first: bool,
) -> Seq<u8>
    decreases frame.payload.len(),
{
    let piece = next_piece(frame, max, is_first);
    if frame.payload.len() <= max || max == 0 {
        piece.spec_encode(mask_of(is_client, keys))
    } else {
        piece.spec_encode(mask_of(is_client, keys)) + spec_encode_message(
            FrameView { payload: frame.payload.skip(max as int), ..frame },
            is_client,
            max,
            keys_behind(is_client, keys),
            false,
        )
    }
}

/// If `frame` can be sent: a frame that steers the connection has to be whole and short, and
/// no piece may be longer than a length field can tell.
pub open spec fn is_sendable(frame: FrameView, max: nat) -> bool {
    &&& frame.op_code.spec_is_control() ==> frame.fin && frame.payload.len()
        <= MAX_CONTROL_PAYLOAD_LEN && !frame.rsv1
    &&& 1 <= max <= MAX_PAYLOAD_LEN
}

/// The largest payload of one frame of a message with the code `op_code` when at most
/// `max_frame_len` bytes are asked for: at least one byte, and never more than a length field
/// can tell. A frame that steers the connection is never cut, whatever is asked for.
pub open spec fn spec_piece_len(op_code: OpCode, max_frame_len: usize) -> nat {
    if op_code.spec_is_control() {
        MAX_CONTROL_PAYLOAD_LEN as nat
    } else if max_frame_len == 0 {
        1
    } else if max_frame_len > MAX_PAYLOAD_LEN {
        MAX_PAYLOAD_LEN as nat
    } else {
        max_frame_len as nat
    }
}

/// The largest payload of one frame of a message with the code `op_code` when at most
/// `max_frame_len` bytes are asked for.
pub fn piece_len(op_code: OpCode, max_frame_len: usize) -> (r: usize)
    ensures
        r == spec_piece_len(op_code, max_frame_len),
        1 <= r <= MAX_PAYLOAD_LEN,
{
    if op_code.is_control() {
        MAX_CONTROL_PAYLOAD_LEN
    } else if max_frame_len == 0 {
        1
    } else if max_frame_len as u64 > MAX_PAYLOAD_LEN {
        MAX_PAYLOAD_LEN as usize
    } else {
        max_frame_len
    }
}

/// Draws a key for each frame that a payload of `len` bytes is cut into when a frame takes at
/// most `max` bytes of it. The keys take the place of what `keys` held.
pub fn draw_keys<RNG>(rng: &mut RNG, keys: &mut Vec<[u8; 4]>, len: usize, max: usize) where
    RNG: Rng,

    requires
        max >= 1,
    ensures
        final(keys)@.len() == spec_pieces(len as nat, max as nat),
{
    keys.clear();
    let mut left: usize = len;
    loop
        invariant
            max >= 1,
            left <= len,
            keys@.len() + spec_pieces(left as nat, max as nat) == spec_pieces(
                len as nat,
                max as nat,
            ),
        decreases left,
    {
        let mut key: [u8; 4] = [0u8;4];
        rng.fill_slice(&mut key);
        keys.push(key);
        if left <= max {
            return ;
        }
        left = left - max;
    }
}

/// Appends the frame with the given flags, code and payload as it looks on the wire to `out`,
/// masked with `mask` if there is one.
pub fn append_piece(
    out: &mut Vec<u8>,
    fin: bool,
    rsv1: bool,
    op_code: OpCode,
    payload: &[u8],
    mask: Option<[u8; 4]>,
)
    requires
        payload@.len() <= MAX_PAYLOAD_LEN,
    ensures
        final(out)@ == old(out)@ + (FrameView { fin, op_code, payload: payload@, rsv1 }).spec_encode(
            mask,
        ),
{
    let header = FrameHeader { fin, rsv1, op_code, mask, payload_len: payload.len() as u64 };
    let ghost piece = FrameView { fin, op_code, payload: payload@, rsv1 };
    assert(piece.header(mask) == header);
    header.encode(out);
    append_masked(out, payload, mask);
    assert(out@ =~= old(out)@ + piece.spec_encode(mask));
}

#[verifier::rlimit(80)]
/// Appends `frame` as it looks on the wire to `out`, cut into frames of at most
/// `max_frame_len` bytes of payload. A client masks every frame with a key of its own, taken
/// from `keys` in their order.
pub fn encode_message_with(
    frame: &Frame,
    is_client: bool,
    max_frame_len: usize,
    keys: &[[u8; 4]],
    out: &mut Vec<u8>,
) -> (r: Result<(), Error>)
    requires
        is_client ==> keys@.len() >= spec_pieces(
            frame@.payload.len(),
            spec_piece_len(frame@.op_code, max_frame_len),
        ),
    ensures
        match r {
            Ok(()) => {
                &&& is_sendable(frame@, spec_piece_len(frame@.op_code, max_frame_len))
                &&& final(out)@ == old(out)@ + spec_encode_message(
                    frame@,
                    is_client,
                    spec_piece_len(frame@.op_code, max_frame_len),
                    keys@,
                    true,
                )
            },
            Err(e) => {
                &&& !is_sendable(frame@, spec_piece_len(frame@.op_code, max_frame_len))
                &&& e == Error::WebSocketProtocol(WebSocketError::InvalidControlFrame)
                &&& final(out)@ == old(out)@
            },
        },
{
    if frame.op_code.is_control() && (!frame.fin || frame.payload.len() > MAX_CONTROL_PAYLOAD_LEN
        || frame.rsv1) {
        return Err(Error::WebSocketProtocol(WebSocketError::InvalidControlFrame));
    }
    let max: usize = piece_len(frame.op_code, max_frame_len);
    let payload: &[u8] = frame.payload.as_slice();
    let len: usize = payload.len();
    let ghost whole = spec_encode_message(frame@, is_client, max as nat, keys@, true);
    let ghost mut sent: Seq<u8> = Seq::empty();
    let ghost mut left: Seq<[u8; 4]> = keys@;
    let mut at: usize = 0;
    let mut drawn: usize = 0;
    let mut is_done: bool = false;
    proof {
        assert(payload@.skip(0) =~= payload@);
        assert(sent + whole =~= whole);
        assert(out@ =~= old(out)@ + sent);
        assert(keys@.skip(0) =~= keys@);
    }
    while !is_done
        invariant
            at <= len,
            len == payload@.len(),
            payload@ == frame@.payload,
            1 <= max <= MAX_PAYLOAD_LEN,
            out@ == old(out)@ + sent,
            is_client ==> drawn <= keys@.len() && left == keys@.skip(drawn as int),
            !is_client ==> left == keys@,
            !is_done && is_client ==> drawn + spec_pieces((len - at) as nat, max as nat)
                <= keys@.len(),
            is_done ==> sent == whole,
            !is_done ==> whole == sent + spec_encode_message(
                FrameView { payload: payload@.skip(at as int), ..frame@ },
                is_client,
                max as nat,
                left,
                at == 0,
            ),
        decreases len - at + if is_done { 0int } else { 1int },
    {
        let ghost rest_frame = FrameView { payload: payload@.skip(at as int), ..frame@ };
        let ghost left_before = left;
        let ghost is_first = at == 0;
        let mask: Option<[u8; 4]> = if is_client {
            let key = keys[drawn];
            drawn = drawn + 1;
            Some(key)
        } else {
            None
        };
        proof {
            if is_client {
                left = keys@.skip(drawn as int);
                assert(left =~= left_before.drop_first());
                assert(left_before[0] == keys@[drawn - 1]);
            }
        }
        let is_last: bool = len - at <= max;
        let end: usize = if is_last {
            len
        } else {
            at + max
        };
        let ghost piece = next_piece(rest_frame, max as nat, is_first);
        proof {
            assert(rest_frame.payload.len() == len - at);
            assert(payload@.subrange(at as int, end as int) =~= piece.payload);
            assert(piece == (FrameView {
                fin: is_last && frame.fin,
                op_code: if at == 0 {
                    frame.op_code
                } else {
                    OpCode::Continuation
                },
                payload: payload@.subrange(at as int, end as int),
                rsv1: at == 0 && frame.rsv1,
            }));
        }
        append_piece(
            out,
            is_last && frame.fin,
            at == 0 && frame.rsv1,
            if at == 0 {
                frame.op_code
            } else {
                OpCode::Continuation
            },
            vstd::slice::slice_subrange(payload, at, end),
            mask,
        );
        proof {
            lemma_unfold(rest_frame, is_client, max as nat, left_before, is_first);
            let written = piece.spec_encode(mask);
            assert(out@ =~= old(out)@ + (sent + written));
            if !is_last {
                assert(rest_frame.payload.skip(max as int) =~= payload@.skip(end as int));
                let behind = spec_encode_message(
                    FrameView { payload: payload@.skip(end as int), ..frame@ },
                    is_client,
                    max as nat,
                    left,
                    false,
                );
                assert(sent + (written + behind) =~= (sent + written) + behind);
            }
            sent = sent + written;
        }
        if is_last {
            is_done = true;
        } else {
            at = end;
        }
    }
    Ok(())
}

/// Appends `frame` as it looks on the wire to `out`, cut into frames of at most
/// `max_frame_len` bytes of payload. A client masks every frame with a key of its own, drawn
/// from `rng`; the keys that were drawn are left in `keys`, in their order.
pub fn encode_message<RNG>(
    frame: &Frame,
    is_client: bool,
    max_frame_len: usize,
    rng: &mut RNG,
    keys: &mut Vec<[u8; 4]>,
    out: &mut Vec<u8>,
) -> (r: Result<(), Error>) where RNG: Rng
    ensures
        match r {
            Ok(()) => {
                &&& is_sendable(frame@, spec_piece_len(frame@.op_code, max_frame_len))
                &&& final(out)@ == old(out)@ + spec_encode_message(
                    frame@,
                    is_client,
                    spec_piece_len(frame@.op_code, max_frame_len),
                    final(keys)@,
                    true,
                )
                &&& final(keys)@.len() == if is_client {
                    spec_pieces(frame@.payload.len(), spec_piece_len(frame@.op_code, max_frame_len))
                } else {
                    0
                }
                &&& !is_client ==> *final(rng) == *old(rng)
            },
            Err(e) => {
                &&& !is_sendable(frame@, spec_piece_len(frame@.op_code, max_frame_len))
                &&& e == Error::WebSocketProtocol(WebSocketError::InvalidControlFrame)
                &&& final(out)@ == old(out)@
                &&& final(keys)@ == old(keys)@
                &&& *final(rng) == *old(rng)
            },
        },
{
    if frame.op_code.is_control() && (!frame.fin || frame.payload.len() > MAX_CONTROL_PAYLOAD_LEN
        || frame.rsv1) {
        return Err(Error::WebSocketProtocol(WebSocketError::InvalidControlFrame));
    }
    if is_client {
        draw_keys(rng, keys, frame.payload.len(), piece_len(frame.op_code, max_frame_len));
    } else {
        keys.clear();
    }
    encode_message_with(frame, is_client, max_frame_len, keys.as_slice(), out)
}

/// What a message looks like on the wire, one piece at a time.
pub proof fn lemma_unfold(
    frame: FrameView,
    is_client: bool,
    max: nat,
    keys: Seq<[u8; 4]>,
    is_first: bool,
)
    requires
        max >= 1,
    ensures
        ({
            let mask = mask_of(is_client, keys);
            let piece = next_piece(frame, max, is_first);
            let whole = spec_encode_message(frame, is_client, max, keys, is_first);
            let rest = spec_encode_message(
                FrameView { payload: frame.payload.skip(max as int), ..frame },
                is_client,
                max,
                keys_behind(is_client, keys),
                false,
            );
            if frame.payload.len() <= max {
                whole == piece.spec_encode(mask)
            } else {
                whole == piece.spec_encode(mask) + rest
            }
        }),
{
    reveal(spec_encode_message);
}

/// Cutting a message into frames loses nothing: what a short message looks like on the wire
/// is the message in one frame.
pub proof fn lemma_short_message(frame: FrameView, is_client: bool, max: nat, keys: Seq<[u8; 4]>)
    requires
        frame.payload.len() <= max,
    ensures
        spec_encode_message(frame, is_client, max, keys, true) == frame.spec_encode(
            mask_of(is_client, keys),
        ),
{
    reveal(spec_encode_message);
    let piece = next_piece(frame, max, true);
    assert(piece.payload =~= frame.payload);
    assert(piece == frame);
}

/// What a server writes does not depend on any key.
pub proof fn lemma_server_needs_no_key(
    frame: FrameView,
    max: nat,
    keys: Seq<[u8; 4]>,
    other: Seq<[u8; 4]>,
    is_first: bool,
)
    ensures
        spec_encode_message(frame, false, max, keys, is_first) == spec_encode_message(
            frame,
            false,
            max,
            other,
            is_first,
        ),
    decreases frame.payload.len(),
{
    reveal(spec_encode_message);
    if !(frame.payload.len() <= max || max == 0) {
        lemma_server_needs_no_key(
            FrameView { payload: frame.payload.skip(max as int), ..frame },
            max,
            keys,
            other,
            false,
        );
    }
}

} // verus!
