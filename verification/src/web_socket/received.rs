//! What the frames that a reader has moved into scope decide, told over the bytes that the
//! reader holds in its buffer.

use crate::error::Error;
use crate::misc::partitioned_filled_buffer::PartitionedView;
use crate::web_socket::compression::spec_decompressed;
use crate::web_socket::frame::{
    lemma_decode_is_local, lemma_frame_round_trip, lemma_header_round_trip, maybe_masked,
    FrameHeader, FrameView, MAX_CONTROL_PAYLOAD_LEN, MAX_PAYLOAD_LEN,
};
use crate::web_socket::op_code::OpCode;
use crate::web_socket::read::{
    is_close_payload, payloads, PayloadTy, ReaderConfig, ReassemblyView,
};
use crate::web_socket::write::{
    keys_behind, lemma_short_message, lemma_unfold, mask_of, next_piece, spec_encode_message,
};
use vstd::prelude::*;

verus! {

/// What is known once some frames were read.
pub struct FramesRecord {
    /// What is known of the message that is being put together.
    pub state: ReassemblyView,
    /// Where the frame that was read last ends.
    pub end: int,
    /// What is handed out, if the reading has come to that.
    pub result: Option<Result<FrameView, Error>>,
}

/// What is known once the frame `frame` was read, which ends at `end` and arrived masked or
/// not as `is_masked` tells, given the message `state` that is being put together.
///
/// The frame is taken in as [`ReassemblyView::spec_on_frame`] tells. A frame that is handed
/// out because of it is handed out decompressed; a frame that breaks the rules ends the
/// reading with its failure.
pub open spec fn spec_take_frame(
    cfg: ReaderConfig,
    state: ReassemblyView,
    is_masked: bool,
    frame: FrameView,
    end: int,
) -> FramesRecord {
    match state.spec_on_frame(cfg, is_masked, frame) {
        Err(e) => FramesRecord { state, end, result: Some(Err(e)) },
        Ok((next, None)) => FramesRecord { state: next, end, result: None },
        Ok((next, Some(out))) => FramesRecord {
            state: next,
            end,
            result: Some(spec_decompressed(out, cfg.max_payload_len)),
        },
    }
}

/// If a frame that can be read begins at `at` and ends at `end` or in front of it: a whole
/// frame whose payload is not longer than `cfg` allows.
pub open spec fn has_frame_at(all: Seq<u8>, at: int, end: int, cfg: ReaderConfig) -> bool {
    &&& 0 <= at < end <= all.len()
    &&& FrameView::spec_decode(all.subrange(at, end)) matches Ok(Some((frame, len)))
    &&& len >= 2
    &&& frame.payload.len() <= cfg.max_payload_len
}

/// What is known once the frames that lie between `at` and `end` were read one after the
/// other, each as [`spec_take_frame`] tells, given the message `state` that was being put
/// together in front of them. The reading stops with the frame that has something handed
/// out or breaks the rules, and in front of what is no frame that can be read.
#[verifier::opaque]
pub open spec fn spec_read_frames(
    all: Seq<u8>,
    at: int,
    end: int,
    cfg: ReaderConfig,
    state: ReassemblyView,
) -> FramesRecord
    decreases end - at,
{
    if !has_frame_at(all, at, end, cfg) {
        FramesRecord { state, end: at, result: None }
    } else {
        let (frame, len) = FrameView::spec_decode(all.subrange(at, end))->Ok_0->Some_0;
        let step = spec_take_frame(cfg, state, all[at + 1] >= 128, frame, at + len);
        if step.result is Some {
            step
        } else {
            spec_read_frames(all, at + len, end, cfg, step.state)
        }
    }
}

/// What is known of the frames in front of `end` does not depend on the bytes behind `end`.
pub proof fn lemma_read_frames_stable(
    all: Seq<u8>,
    other: Seq<u8>,
    at: int,
    end: int,
    cfg: ReaderConfig,
    state: ReassemblyView,
)
    requires
        end <= all.len(),
        end <= other.len(),
        all.subrange(0, end) == other.subrange(0, end),
    ensures
        spec_read_frames(all, at, end, cfg, state) == spec_read_frames(other, at, end, cfg, state),
    decreases end - at,
{
    reveal(spec_read_frames);
    if 0 <= at < end {
        assert(all.subrange(at, end) =~= all.subrange(0, end).subrange(at, end));
        assert(other.subrange(at, end) =~= other.subrange(0, end).subrange(at, end));
        if has_frame_at(all, at, end, cfg) {
            let (frame, len) = FrameView::spec_decode(all.subrange(at, end))->Ok_0->Some_0;
            assert(all[at + 1] == all.subrange(0, end)[at + 1]);
            assert(other[at + 1] == other.subrange(0, end)[at + 1]);
            let step = spec_take_frame(cfg, state, all[at + 1] >= 128, frame, at + len);
            if step.result is None {
                lemma_read_frames_stable(all, other, at + len, end, cfg, step.state);
            }
        }
    }
}

/// Reading up to `mid` and then on to `end` is reading up to `end`, if the reading up to `mid`
/// ended at `mid` with nothing handed out.
pub proof fn lemma_read_frames_extend(
    all: Seq<u8>,
    at: int,
    mid: int,
    end: int,
    cfg: ReaderConfig,
    state: ReassemblyView,
)
    requires
        mid <= end <= all.len(),
        spec_read_frames(all, at, mid, cfg, state).end == mid,
        spec_read_frames(all, at, mid, cfg, state).result is None,
    ensures
        spec_read_frames(all, at, end, cfg, state) == spec_read_frames(
            all,
            mid,
            end,
            cfg,
            spec_read_frames(all, at, mid, cfg, state).state,
        ),
    decreases mid - at,
{
    reveal(spec_read_frames);
    if has_frame_at(all, at, mid, cfg) {
        let (frame, len) = FrameView::spec_decode(all.subrange(at, mid))->Ok_0->Some_0;
        assert(all.subrange(at, mid) =~= all.subrange(at, end).subrange(0, mid - at));
        lemma_decode_is_local(all.subrange(at, end), mid - at);
        assert(has_frame_at(all, at, end, cfg));
        let step = spec_take_frame(cfg, state, all[at + 1] >= 128, frame, at + len);
        if step.result is None {
            lemma_read_frames_extend(all, at + len, mid, end, cfg, step.state);
        }
    }
}

#[verifier::rlimit(40)]
/// Reading one frame more: if the reading in `before` ended where its frame in scope ends,
/// with nothing handed out, and `after` has the next frame in scope, then the reading in
/// `after` ends with that frame, taken as [`spec_take_frame`] tells.
pub proof fn lemma_read_frames_step(
    before: PartitionedView,
    after: PartitionedView,
    begin: int,
    cfg: ReaderConfig,
    state: ReassemblyView,
    frame: FrameView,
)
    requires
        before.current_end <= before.all.len(),
        after.antecedent_end == before.current_end,
        after.antecedent_end < after.current_end <= after.all.len(),
        after.all.subrange(0, before.current_end as int) == before.all.subrange(
            0,
            before.current_end as int,
        ),
        FrameView::spec_decode(after.current()) == Ok::<Option<(FrameView, int)>, Error>(
            Some((frame, after.current().len() as int)),
        ),
        after.current().len() >= 2,
        frame.payload.len() <= cfg.max_payload_len,
        spec_read_frames(before.all, begin, before.current_end as int, cfg, state).end
            == before.current_end,
        spec_read_frames(before.all, begin, before.current_end as int, cfg, state).result is None,
    ensures
        spec_read_frames(after.all, begin, after.current_end as int, cfg, state)
            == spec_take_frame(
            cfg,
            spec_read_frames(before.all, begin, before.current_end as int, cfg, state).state,
            after.current()[1] >= 128,
            frame,
            after.current_end as int,
        ),
{
    reveal(spec_read_frames);
    let mid = before.current_end as int;
    let end = after.current_end as int;
    lemma_read_frames_stable(before.all, after.all, begin, mid, cfg, state);
    lemma_read_frames_extend(after.all, begin, mid, end, cfg, state);
    let read = spec_read_frames(after.all, begin, mid, cfg, state);
    assert(after.current()[1] == after.all[mid + 1]);
    assert(has_frame_at(after.all, mid, end, cfg));
    let step = spec_take_frame(cfg, read.state, after.all[mid + 1] >= 128, frame, end);
    assert(!has_frame_at(after.all, end, end, cfg));
    if step.result is None {
        assert(spec_read_frames(after.all, end, end, cfg, step.state) == step);
    }
}

#[verifier::rlimit(40)]
/// What one endpoint writes the other reads: a whole message that travels in one frame,
/// written by an endpoint of one role with any key, is what a reader of the other role that
/// has nothing of a message yet hands out once the bytes lie in its buffer: the same code and
/// the same payload, with the mask undone.
pub proof fn lemma_written_frame_is_received(
    frame: FrameView,
    is_client: bool,
    max: nat,
    keys: Seq<[u8; 4]>,
    cfg: ReaderConfig,
    rest: Seq<u8>,
)
    requires
        frame.fin,
        !frame.rsv1,
        frame.op_code != OpCode::Continuation,
        frame.op_code.spec_is_control() ==> frame.payload.len() <= MAX_CONTROL_PAYLOAD_LEN,
        frame.op_code == OpCode::Close ==> is_close_payload(frame.payload),
        frame.payload.len() <= max <= MAX_PAYLOAD_LEN,
        frame.payload.len() <= cfg.max_payload_len,
        cfg.is_client != is_client,
    ensures
        ({
            let wire = spec_encode_message(frame, is_client, max, keys, true);
            spec_read_frames(wire + rest, 0, wire.len() as int, cfg, ReassemblyView::idle()) == (
            FramesRecord {
                state: ReassemblyView::idle(),
                end: wire.len() as int,
                result: Some(Ok(frame)),
            })
        }),
{
    reveal(spec_read_frames);
    let mask = mask_of(is_client, keys);
    let wire = spec_encode_message(frame, is_client, max, keys, true);
    let all = wire + rest;
    let end = wire.len() as int;
    lemma_short_message(frame, is_client, max, keys);
    lemma_frame_round_trip(frame, mask, Seq::empty());
    assert(wire + Seq::<u8>::empty() =~= wire);
    assert(all.subrange(0, end) =~= wire);
    let header = frame.header(mask);
    lemma_header_round_trip(header, maybe_masked(frame.payload, mask));
    assert(FrameHeader::spec_decode(wire) == Ok::<Option<(FrameHeader, int)>, Error>(
        Some((header, header.spec_encode().len() as int)),
    ));
    assert(end >= 2);
    assert(all[1] == wire[1]);
    assert((wire[1] >= 128) == is_client);
    assert(has_frame_at(all, 0, end, cfg));
    let step = spec_take_frame(cfg, ReassemblyView::idle(), all[1] >= 128, frame, end);
    assert(ReassemblyView::finished(frame.payload, false) == frame.payload);
    assert(step.result == Some(Ok::<FrameView, Error>(frame)));
}

#[verifier::rlimit(40)]
/// Reading the frame that lies at `at`: if the bytes from `at` on are the frame `piece` on
/// the wire, masked with `mask` or not, then reading up to `end` takes that frame in first, as
/// [`spec_take_frame`] tells, and goes on behind it unless something is handed out.
pub proof fn lemma_read_one_frame(
    all: Seq<u8>,
    at: int,
    end: int,
    piece: FrameView,
    mask: Option<[u8; 4]>,
    cfg: ReaderConfig,
    state: ReassemblyView,
)
    requires
        0 <= at,
        end <= all.len(),
        piece.payload.len() <= MAX_PAYLOAD_LEN,
        piece.payload.len() <= cfg.max_payload_len,
        at + piece.spec_encode(mask).len() <= end,
        all.subrange(at, at + piece.spec_encode(mask).len()) == piece.spec_encode(mask),
    ensures
        piece.spec_encode(mask).len() >= 2,
        spec_read_frames(all, at, end, cfg, state) == ({
            let next = at + piece.spec_encode(mask).len();
            let step = spec_take_frame(cfg, state, mask is Some, piece, next);
            if step.result is Some {
                step
            } else {
                spec_read_frames(all, next, end, cfg, step.state)
            }
        }),
{
    reveal(spec_read_frames);
    let wire = piece.spec_encode(mask);
    let bytes = all.subrange(at, end);
    let behind = bytes.subrange(wire.len() as int, bytes.len() as int);
    assert(bytes =~= wire + behind) by {
        assert(bytes.subrange(0, wire.len() as int) =~= all.subrange(at, at + wire.len()));
    }
    lemma_frame_round_trip(piece, mask, behind);
    let header = piece.header(mask);
    lemma_header_round_trip(header, maybe_masked(piece.payload, mask) + behind);
    assert(header.spec_encode() + (maybe_masked(piece.payload, mask) + behind) =~= wire + behind);
    assert(FrameHeader::spec_decode(bytes) == Ok::<Option<(FrameHeader, int)>, Error>(
        Some((header, header.spec_encode().len() as int)),
    ));
    assert(wire.len() >= 2);
    assert(all[at + 1] == bytes[1]);
    assert((bytes[1] >= 128) == (mask is Some));
    assert(has_frame_at(all, at, end, cfg));
}

/// Where the parts of some bytes lie that are made of four parts.
pub proof fn lemma_layout(front: Seq<u8>, sent: Seq<u8>, behind: Seq<u8>, rest: Seq<u8>)
    ensures
        (front + (sent + behind) + rest).subrange(
            front.len() as int,
            (front.len() + sent.len()) as int,
        ) == sent,
        (front + sent) + behind + rest == front + (sent + behind) + rest,
        (front + sent).len() == front.len() + sent.len(),
        (sent + behind).len() == sent.len() + behind.len(),
        (front + (sent + behind) + rest).len() == front.len() + sent.len() + behind.len()
            + rest.len(),
{
    assert((front + (sent + behind) + rest).subrange(
        front.len() as int,
        (front.len() + sent.len()) as int,
    ) =~= sent);
    assert((front + sent) + behind + rest =~= front + (sent + behind) + rest);
}

/// What a reader that holds the front of a message makes of a continuation: the last one
/// hands out the message whole, and any other one is kept behind what is held.
pub proof fn lemma_take_continuation(
    cfg: ReaderConfig,
    state: ReassemblyView,
    piece: FrameView,
    end: int,
)
    requires
        piece.op_code == OpCode::Continuation,
        !piece.rsv1,
        state.payload_ty != PayloadTy::Absent,
        !state.is_compressed,
        state.payload.len() + piece.payload.len() <= cfg.max_payload_len,
    ensures
        spec_take_frame(cfg, state, !cfg.is_client, piece, end) == if piece.fin {
            FramesRecord {
                state: ReassemblyView::idle(),
                end,
                result: Some(
                    Ok(
                        FrameView {
                            fin: true,
                            op_code: state.payload_ty.spec_op_code(),
                            payload: state.payload + piece.payload,
                            rsv1: false,
                        },
                    ),
                ),
            }
        } else {
            FramesRecord {
                state: ReassemblyView { payload: state.payload + piece.payload, ..state },
                end,
                result: None,
            }
        },
{
    assert(ReassemblyView::finished(state.payload + piece.payload, false) == state.payload
        + piece.payload);
}

/// What a reader that holds nothing of a message makes of a text or binary frame that is not
/// compressed: a whole one is handed out as it is, and any other one opens a message.
pub proof fn lemma_take_first(cfg: ReaderConfig, piece: FrameView, end: int)
    requires
        piece.op_code == OpCode::Text || piece.op_code == OpCode::Binary,
        !piece.rsv1,
        piece.payload.len() <= cfg.max_payload_len,
    ensures
        spec_take_frame(cfg, ReassemblyView::idle(), !cfg.is_client, piece, end) == if piece.fin {
            FramesRecord { state: ReassemblyView::idle(), end, result: Some(Ok(piece)) }
        } else {
            FramesRecord {
                state: ReassemblyView {
                    payload_ty: if piece.op_code == OpCode::Text {
                        PayloadTy::Text
                    } else {
                        PayloadTy::Binary
                    },
                    is_compressed: false,
                    payload: piece.payload,
                },
                end,
                result: None,
            }
        },
{
    assert(ReassemblyView::finished(piece.payload, false) == piece.payload);
}

#[verifier::rlimit(40)]
/// What is written behind the first frame of a message is read as the rest of the message: the
/// continuations that a payload is cut into, read by a reader of the other role that holds
/// what came in front of them, hand out the message whole.
pub proof fn lemma_written_rest_is_received(
    frame: FrameView,
    is_client: bool,
    max: nat,
    keys: Seq<[u8; 4]>,
    cfg: ReaderConfig,
    state: ReassemblyView,
    front: Seq<u8>,
    rest: Seq<u8>,
)
    requires
        frame.fin,
        1 <= max <= MAX_PAYLOAD_LEN,
        cfg.is_client != is_client,
        state.payload_ty != PayloadTy::Absent,
        !state.is_compressed,
        state.payload.len() + frame.payload.len() <= cfg.max_payload_len,
    ensures
        ({
            let wire = spec_encode_message(frame, is_client, max, keys, false);
            spec_read_frames(
                front + wire + rest,
                front.len() as int,
                (front.len() + wire.len()) as int,
                cfg,
                state,
            ) == (FramesRecord {
                state: ReassemblyView::idle(),
                end: (front.len() + wire.len()) as int,
                result: Some(
                    Ok(
                        FrameView {
                            fin: true,
                            op_code: state.payload_ty.spec_op_code(),
                            payload: state.payload + frame.payload,
                            rsv1: false,
                        },
                    ),
                ),
            })
        }),
    decreases frame.payload.len(),
{
    let mask = mask_of(is_client, keys);
    let piece = next_piece(frame, max, false);
    let sent = piece.spec_encode(mask);
    let at = front.len() as int;
    let next = at + sent.len();
    lemma_unfold(frame, is_client, max, keys, false);
    if frame.payload.len() <= max {
        lemma_layout(front, sent, Seq::empty(), rest);
        assert(sent + Seq::<u8>::empty() =~= sent);
        lemma_read_one_frame(front + sent + rest, at, next, piece, mask, cfg, state);
        lemma_take_continuation(cfg, state, piece, next);
    } else {
        let behind = FrameView { payload: frame.payload.skip(max as int), ..frame };
        let keys_left = keys_behind(is_client, keys);
        let wire_behind = spec_encode_message(behind, is_client, max, keys_left, false);
        let all = front + (sent + wire_behind) + rest;
        let end = next + wire_behind.len();
        let held = ReassemblyView { payload: state.payload + piece.payload, ..state };
        lemma_layout(front, sent, wire_behind, rest);
        lemma_read_one_frame(all, at, end, piece, mask, cfg, state);
        lemma_take_continuation(cfg, state, piece, next);
        lemma_written_rest_is_received(
            behind,
            is_client,
            max,
            keys_left,
            cfg,
            held,
            front + sent,
            rest,
        );
        assert(frame.payload.take(max as int) + frame.payload.skip(max as int) =~= frame.payload);
        assert(held.payload + behind.payload =~= state.payload + frame.payload);
    }
}

#[verifier::rlimit(40)]
/// What one endpoint writes the other reads, however the message is cut: a whole text or
/// binary message, written by an endpoint of one role in frames of at most `max` bytes of
/// payload with any keys, is what a reader of the other role that has nothing of a message
/// yet hands out once the bytes lie in its buffer: the same code and the same payload, byte
/// for byte.
pub proof fn lemma_written_message_is_received(
    frame: FrameView,
    is_client: bool,
    max: nat,
    keys: Seq<[u8; 4]>,
    cfg: ReaderConfig,
    front: Seq<u8>,
    rest: Seq<u8>,
)
    requires
        frame.fin,
        !frame.rsv1,
        frame.op_code == OpCode::Text || frame.op_code == OpCode::Binary,
        1 <= max <= MAX_PAYLOAD_LEN,
        frame.payload.len() <= cfg.max_payload_len,
        cfg.is_client != is_client,
    ensures
        ({
            let wire = spec_encode_message(frame, is_client, max, keys, true);
            spec_read_frames(
                front + wire + rest,
                front.len() as int,
                (front.len() + wire.len()) as int,
                cfg,
                ReassemblyView::idle(),
            ) == (FramesRecord {
                state: ReassemblyView::idle(),
                end: (front.len() + wire.len()) as int,
                result: Some(Ok(frame)),
            })
        }),
{
    let mask = mask_of(is_client, keys);
    let piece = next_piece(frame, max, true);
    let sent = piece.spec_encode(mask);
    let at = front.len() as int;
    let next = at + sent.len();
    lemma_unfold(frame, is_client, max, keys, true);
    if frame.payload.len() <= max {
        assert(piece == frame);
        lemma_layout(front, sent, Seq::empty(), rest);
        assert(sent + Seq::<u8>::empty() =~= sent);
        lemma_read_one_frame(
            front + sent + rest,
            at,
            next,
            piece,
            mask,
            cfg,
            ReassemblyView::idle(),
        );
        lemma_take_first(cfg, piece, next);
    } else {
        let behind = FrameView { payload: frame.payload.skip(max as int), ..frame };
        let keys_left = keys_behind(is_client, keys);
        let wire_behind = spec_encode_message(behind, is_client, max, keys_left, false);
        let all = front + (sent + wire_behind) + rest;
        let end = next + wire_behind.len();
        let held = ReassemblyView {
            payload_ty: if piece.op_code == OpCode::Text {
                PayloadTy::Text
            } else {
                PayloadTy::Binary
            },
            is_compressed: false,
            payload: piece.payload,
        };
        lemma_layout(front, sent, wire_behind, rest);
        lemma_read_one_frame(all, at, end, piece, mask, cfg, ReassemblyView::idle());
        lemma_take_first(cfg, piece, next);
        lemma_written_rest_is_received(
            behind,
            is_client,
            max,
            keys_left,
            cfg,
            held,
            front + sent,
            rest,
        );
        assert(frame.payload.take(max as int) + frame.payload.skip(max as int) =~= frame.payload);
        assert(held.payload + behind.payload =~= frame.payload);
    }
}

/// The frames `frames` on the wire, one after the other, each masked with its key if it has
/// one.
pub open spec fn spec_wire(frames: Seq<(Option<[u8; 4]>, FrameView)>) -> Seq<u8>
    decreases frames.len(),
{
    if frames.len() == 0 {
        Seq::empty()
    } else {
        frames[0].1.spec_encode(frames[0].0) + spec_wire(frames.drop_first())
    }
}

/// The frames `frames` as they arrive at a reader: each with the telling if it was masked.
pub open spec fn arrivals(frames: Seq<(Option<[u8; 4]>, FrameView)>) -> Seq<(bool, FrameView)> {
    Seq::new(frames.len(), |i: int| (frames[i].0 is Some, frames[i].1))
}

/// If `frames` are the continuations that close a message for a reader that was set up with
/// `cfg`: none of them is compressed, each is masked as the role of the reader asks, and
/// only the last one closes the message.
pub open spec fn are_closing_continuations(
    cfg: ReaderConfig,
    frames: Seq<(Option<[u8; 4]>, FrameView)>,
) -> bool {
    &&& frames.len() >= 1
    &&& forall|i: int|
        0 <= i < frames.len() ==> {
            &&& (#[trigger] frames[i]).1.op_code == OpCode::Continuation
            &&& !frames[i].1.rsv1
            &&& (frames[i].0 is Some) != cfg.is_client
            &&& frames[i].1.payload.len() <= MAX_PAYLOAD_LEN
            &&& frames[i].1.fin <==> i == frames.len() - 1
        }
}

/// The payloads of some frames are the payload of the first one and the payloads of the
/// others behind it.
pub proof fn lemma_payloads_front(frames: Seq<(bool, FrameView)>)
    requires
        frames.len() >= 1,
    ensures
        payloads(frames) == frames[0].1.payload + payloads(frames.drop_first()),
    decreases frames.len(),
{
    if frames.len() == 1 {
        assert(frames.drop_last().len() == 0);
        assert(frames.drop_first().len() == 0);
        assert(frames.last() == frames[0]);
        assert(payloads(frames.drop_last()) =~= Seq::<u8>::empty());
        assert(payloads(frames.drop_first()) =~= Seq::<u8>::empty());
        assert(payloads(frames) == payloads(frames.drop_last()) + frames.last().1.payload);
        assert(payloads(frames) =~= frames[0].1.payload + payloads(frames.drop_first()));
    } else {
        let front = frames.drop_last();
        let others = frames.drop_first();
        lemma_payloads_front(front);
        assert(front[0] == frames[0]);
        assert(others.drop_last() =~= front.drop_first());
        assert(others.last() == frames.last());
        assert(payloads(frames) == payloads(front) + frames.last().1.payload);
        assert(payloads(others) == payloads(others.drop_last()) + others.last().1.payload);
        assert(payloads(frames) =~= frames[0].1.payload + payloads(others));
    }
}

#[verifier::rlimit(40)]
/// A reader that holds the front of a message hands out the message whole for the
/// continuations that close it, however many there are: what it held and the payloads of the
/// continuations, byte for byte and in the order of the wire, under the code of the message.
pub proof fn lemma_continuations_are_received(
    frames: Seq<(Option<[u8; 4]>, FrameView)>,
    cfg: ReaderConfig,
    state: ReassemblyView,
    front: Seq<u8>,
    rest: Seq<u8>,
)
    requires
        are_closing_continuations(cfg, frames),
        state.payload_ty != PayloadTy::Absent,
        !state.is_compressed,
        state.payload.len() + payloads(arrivals(frames)).len() <= cfg.max_payload_len,
    ensures
        spec_read_frames(
            front + spec_wire(frames) + rest,
            front.len() as int,
            (front.len() + spec_wire(frames).len()) as int,
            cfg,
            state,
        ) == (FramesRecord {
            state: ReassemblyView::idle(),
            end: (front.len() + spec_wire(frames).len()) as int,
            result: Some(
                Ok(
                    FrameView {
                        fin: true,
                        op_code: state.payload_ty.spec_op_code(),
                        payload: state.payload + payloads(arrivals(frames)),
                        rsv1: false,
                    },
                ),
            ),
        }),
    decreases frames.len(),
{
    let piece = frames[0].1;
    let mask = frames[0].0;
    let sent = piece.spec_encode(mask);
    let others = frames.drop_first();
    let at = front.len() as int;
    let next = at + sent.len();
    lemma_payloads_front(arrivals(frames));
    assert(arrivals(frames).drop_first() =~= arrivals(others));
    assert(arrivals(frames)[0].1 == piece);
    if others.len() == 0 {
        assert(piece.fin);
        assert(payloads(arrivals(others)) =~= Seq::<u8>::empty());
        assert(state.payload + payloads(arrivals(frames)) =~= state.payload + piece.payload);
        lemma_layout(front, sent, Seq::empty(), rest);
        assert(sent + Seq::<u8>::empty() =~= sent);
        lemma_read_one_frame(front + sent + rest, at, next, piece, mask, cfg, state);
        lemma_take_continuation(cfg, state, piece, next);
    } else {
        let behind = spec_wire(others);
        let all = front + (sent + behind) + rest;
        let end = next + behind.len();
        let held = ReassemblyView { payload: state.payload + piece.payload, ..state };
        assert(!piece.fin);
        assert forall|i: int| 0 <= i < others.len() implies {
            &&& (#[trigger] others[i]).1.op_code == OpCode::Continuation
            &&& !others[i].1.rsv1
            &&& (others[i].0 is Some) != cfg.is_client
            &&& others[i].1.payload.len() <= MAX_PAYLOAD_LEN
            &&& others[i].1.fin <==> i == others.len() - 1
        } by {
            assert(others[i] == frames[i + 1]);
        }
        lemma_layout(front, sent, behind, rest);
        lemma_read_one_frame(all, at, end, piece, mask, cfg, state);
        lemma_take_continuation(cfg, state, piece, next);
        lemma_continuations_are_received(others, cfg, held, front + sent, rest);
        assert(held.payload + payloads(arrivals(others)) =~= state.payload + payloads(
            arrivals(frames),
        ));
    }
}

#[verifier::rlimit(40)]
/// A reader that has nothing of a message yet hands out one message for the frames of one
/// message that lie in its buffer: for a text or binary frame and the continuations behind
/// it, of which only the last frame closes the message, it hands out the payloads of all of
/// them, byte for byte and in the order of the wire, nothing dropped and nothing repeated,
/// under the code of the first frame.
pub proof fn lemma_message_is_received(
    frames: Seq<(Option<[u8; 4]>, FrameView)>,
    cfg: ReaderConfig,
    front: Seq<u8>,
    rest: Seq<u8>,
)
    requires
        frames.len() >= 1,
        frames[0].1.op_code == OpCode::Text || frames[0].1.op_code == OpCode::Binary,
        !frames[0].1.rsv1,
        (frames[0].0 is Some) != cfg.is_client,
        frames[0].1.payload.len() <= MAX_PAYLOAD_LEN,
        frames[0].1.fin <==> frames.len() == 1,
        frames.len() > 1 ==> are_closing_continuations(cfg, frames.drop_first()),
        payloads(arrivals(frames)).len() <= cfg.max_payload_len,
    ensures
        spec_read_frames(
            front + spec_wire(frames) + rest,
            front.len() as int,
            (front.len() + spec_wire(frames).len()) as int,
            cfg,
            ReassemblyView::idle(),
        ) == (FramesRecord {
            state: ReassemblyView::idle(),
            end: (front.len() + spec_wire(frames).len()) as int,
            result: Some(
                Ok(
                    FrameView {
                        fin: true,
                        op_code: frames[0].1.op_code,
                        payload: payloads(arrivals(frames)),
                        rsv1: false,
                    },
                ),
            ),
        }),
{
    let piece = frames[0].1;
    let mask = frames[0].0;
    let sent = piece.spec_encode(mask);
    let others = frames.drop_first();
    let at = front.len() as int;
    let next = at + sent.len();
    lemma_payloads_front(arrivals(frames));
    assert(arrivals(frames).drop_first() =~= arrivals(others));
    assert(arrivals(frames)[0].1 == piece);
    if others.len() == 0 {
        assert(payloads(arrivals(others)) =~= Seq::<u8>::empty());
        assert(payloads(arrivals(frames)) =~= piece.payload);
        lemma_layout(front, sent, Seq::empty(), rest);
        assert(sent + Seq::<u8>::empty() =~= sent);
        lemma_read_one_frame(
            front + sent + rest,
            at,
            next,
            piece,
            mask,
            cfg,
            ReassemblyView::idle(),
        );
        lemma_take_first(cfg, piece, next);
    } else {
        let behind = spec_wire(others);
        let all = front + (sent + behind) + rest;
        let end = next + behind.len();
        let held = ReassemblyView {
            payload_ty: if piece.op_code == OpCode::Text {
                PayloadTy::Text
            } else {
                PayloadTy::Binary
            },
            is_compressed: false,
            payload: piece.payload,
        };
        lemma_layout(front, sent, behind, rest);
        lemma_read_one_frame(all, at, end, piece, mask, cfg, ReassemblyView::idle());
        lemma_take_first(cfg, piece, next);
        lemma_continuations_are_received(others, cfg, held, front + sent, rest);
        assert(held.payload + payloads(arrivals(others)) =~= payloads(arrivals(frames)));
    }
}

} // verus!
