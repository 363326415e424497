//! From the bytes of a stream to the messages of the backend.

use crate::database::client::postgres::message::{framed_len, is_framed, Message, MessageTy, spec_message_ty};
use crate::error::Error;
use crate::misc::bytes::u32_from_be;
use crate::misc::partitioned_filled_buffer::{PartitionedFilledBuffer, PartitionedView};
use crate::misc::read_until::{has_progressed, read_until};
use crate::misc::stream::Stream;
use vstd::prelude::*;

verus! {

/// The number of bytes in front of the body of a message: the tag and the length.
pub const HEADER_LEN: usize = 5;

/// The tag of a warning, which is passed over wherever a message is waited for.
pub const NOTICE_TAG: u8 = 0x4e;

/// If `e` is a failure of getting at the next message: the stream failed or ended too early,
/// memory for the message could not be obtained, or the message is not one.
pub open spec fn is_fetch_failure(e: Error) -> bool {
    e is Io || e == Error::AllocationError || e == Error::UnexpectedBufferState || e
        == Error::UnexpectedValueFromBytes
}

/// If the bytes that were read ahead begin with a whole message.
pub open spec fn is_buffered(nb: PartitionedView) -> bool {
    &&& nb.following().len() >= HEADER_LEN
    &&& HEADER_LEN <= framed_len(nb.following()) <= nb.following().len()
}

/// `before` after the message that its bytes read ahead begin with moved into scope: nothing
/// but the boundaries changes.
pub open spec fn taken_from_buffer(before: PartitionedView) -> PartitionedView {
    PartitionedView {
        antecedent_end: before.current_end,
        current_end: (before.current_end + framed_len(before.following())) as nat,
        ..before
    }
}

/// `nb` after every warning that its bytes read ahead begin with moved into scope and was
/// passed over, one after the other: what is read ahead then begins with a message that is
/// no warning, or with no whole message.
pub open spec fn past_notices(nb: PartitionedView) -> PartitionedView
    decreases nb.following_end - nb.current_end,
{
    if is_buffered(nb) && nb.current_end <= nb.following_end <= nb.all.len()
        && nb.following()[0] == NOTICE_TAG {
        past_notices(taken_from_buffer(nb))
    } else {
        nb
    }
}

/// `after` is `before` after the next message moved into scope: what was in scope counts as
/// consumed, the message begins where the bytes that were read ahead began and is whole, and
/// no byte that was held is lost.
pub open spec fn has_advanced(before: PartitionedView, after: PartitionedView) -> bool {
    &&& after.antecedent_end == before.current_end
    &&& is_framed(after.current())
    &&& after.following_end >= before.following_end
    &&& after.len >= before.len
    &&& after.all.len() >= before.all.len()
    &&& after.all.subrange(0, before.following_end as int) == before.all.subrange(
        0,
        before.following_end as int,
    )
}

/// The number of bytes of a message whose length field tells `length`, the tag included; a
/// length that does not count itself, or a message that can not be addressed, is refused.
pub fn whole_len(length: u32) -> (r: Result<usize, Error>)
    ensures
        match r {
            Ok(len) => len == length + 1 && len >= HEADER_LEN,
            Err(e) => e == Error::UnexpectedValueFromBytes && (length < 4 || length + 1
                > usize::MAX),
        },
{
    if length < 4 {
        return Err(Error::UnexpectedValueFromBytes);
    }
    match (length as usize).checked_add(1) {
        Some(len) => Ok(len),
        None => Err(Error::UnexpectedValueFromBytes),
    }
}

/// Reads the tag and the length of the next message, unless they were read ahead, and tells
/// the tag and the number of bytes of the whole message, as [`whole_len`] tells it.
pub fn fetch_one_header_from_stream<S>(
    nb: &mut PartitionedFilledBuffer,
    read: &mut usize,
    stream: &mut S,
) -> (r: Result<(u8, usize), Error>) where S: Stream
    requires
        old(nb).inv(),
        *old(read) == old(nb)@.following_end - old(nb)@.current_end,
    ensures
        final(nb).inv(),
        has_progressed(old(nb)@, final(nb)@),
        *old(read) <= *final(read) <= final(nb)@.len - final(nb)@.current_end,
        match r {
            Ok((tag, len)) => {
                &&& *final(read) >= HEADER_LEN
                &&& tag == final(nb)@.following_trail()[0]
                &&& len == framed_len(final(nb)@.following_trail())
                &&& len >= HEADER_LEN
            },
            Err(e) => is_fetch_failure(e),
        },
        r is Ok <==> *final(read) >= HEADER_LEN && HEADER_LEN <= framed_len(
            final(nb)@.following_trail(),
        ) <= usize::MAX,
        (r matches Err(Error::UnexpectedValueFromBytes)) <==> *final(read) >= HEADER_LEN && !(
        HEADER_LEN <= framed_len(final(nb)@.following_trail()) <= usize::MAX),
        old(nb)@.current_end + HEADER_LEN > usize::MAX ==> r matches Err(Error::AllocationError),
        old(nb)@.current_end + HEADER_LEN <= old(nb)@.all.len() ==> !(r matches Err(
            Error::AllocationError,
        )),
        old(nb)@.following().len() >= HEADER_LEN ==> {
            &&& final(nb)@ == old(nb)@
            &&& *final(read) == *old(read)
            &&& *final(stream) == *old(stream)
            &&& r is Ok <==> HEADER_LEN <= framed_len(old(nb)@.following()) <= usize::MAX
        },
{
    proof {
        nb.lemma_ordered();
    }
    let until: usize = match nb.current_end_idx().checked_add(HEADER_LEN) {
        Some(until) => until,
        None => {
            return Err(Error::AllocationError);
        },
    };
    match nb.expand_buffer(until) {
        Ok(()) => {},
        Err(e) => {
            return Err(e);
        },
    }
    let ghost expanded = nb@;
    proof {
        assert(expanded.all.subrange(0, old(nb)@.following_end as int) =~= old(nb)@.all.subrange(
            0,
            old(nb)@.following_end as int,
        ));
    }
    match read_until(nb, read, HEADER_LEN, stream) {
        Ok(()) => {},
        Err(e) => {
            proof {
                assert(nb@.all.subrange(0, old(nb)@.following_end as int) =~= expanded.all.subrange(
                    0,
                    old(nb)@.following_end as int,
                ));
            }
            return Err(e);
        },
    }
    proof {
        assert(nb@.all.subrange(0, old(nb)@.following_end as int) =~= expanded.all.subrange(
            0,
            old(nb)@.following_end as int,
        ));
        if old(nb)@.following().len() >= HEADER_LEN {
            let cur = old(nb)@.current_end as int;
            assert forall|i: int| 0 <= i < HEADER_LEN implies nb@.following_trail()[i] == old(nb)@.following()[i] by {
                assert(nb@.following_trail()[i] == nb@.all[cur + i]);
                assert(old(nb)@.following()[i] == old(nb)@.all[cur + i]);
            }
        }
    }
    let trail = nb.following_trail();
    let tag: u8 = trail[0];
    let length: u32 = u32_from_be(trail[1], trail[2], trail[3], trail[4]);
    match whole_len(length) {
        Ok(len) => Ok((tag, len)),
        Err(e) => Err(e),
    }
}

/// Reads what is missing of a message of `len` bytes, of which `read` bytes are there already.
///
/// A message that is there already asks nothing of the stream. A message that ends behind
/// what the machine can address is refused with [`Error::AllocationError`], and so is one
/// that no memory can be had for; nothing was read then. Else the stream is read as
/// [`read_until`] tells.
pub fn fetch_one_payload_from_stream<S>(
    len: usize,
    nb: &mut PartitionedFilledBuffer,
    read: &mut usize,
    stream: &mut S,
) -> (r: Result<(), Error>) where S: Stream
    requires
        old(nb).inv(),
        old(nb)@.following_end - old(nb)@.current_end <= *old(read) <= old(nb)@.len - old(nb)@.current_end,
    ensures
        final(nb).inv(),
        has_progressed(old(nb)@, final(nb)@),
        final(nb)@.all.subrange(0, old(nb)@.current_end + *old(read)) == old(nb)@.all.subrange(
            0,
            old(nb)@.current_end + *old(read),
        ),
        *old(read) <= *final(read) <= final(nb)@.len - final(nb)@.current_end,
        r is Ok <==> *final(read) >= len,
        r matches Err(e) ==> e is Io || e == Error::AllocationError || e
            == Error::UnexpectedBufferState,
        old(nb)@.current_end + len > usize::MAX ==> r matches Err(Error::AllocationError),
        old(nb)@.current_end + len <= old(nb)@.all.len() ==> !(r matches Err(
            Error::AllocationError,
        )),
        (r matches Err(Error::AllocationError)) ==> *final(read) == *old(read) && final(nb)@
            == old(nb)@ && *final(stream) == *old(stream),
        *old(read) >= len ==> *final(read) == *old(read) && final(nb)@ == old(nb)@ && *final(stream) == *old(stream),
{
    proof {
        nb.lemma_ordered();
    }
    if *read >= len {
        return Ok(());
    }
    let until: usize = match nb.current_end_idx().checked_add(len) {
        Some(until) => until,
        None => {
            return Err(Error::AllocationError);
        },
    };
    match nb.expand_buffer(until) {
        Ok(()) => {},
        Err(e) => {
            return Err(e);
        },
    }
    let ghost expanded = nb@;
    proof {
        assert(expanded.all.subrange(0, old(nb)@.following_end as int) =~= old(nb)@.all.subrange(
            0,
            old(nb)@.following_end as int,
        ));
        assert(expanded.all.subrange(0, old(nb)@.current_end + *old(read)) =~= old(nb)@.all.subrange(0, old(nb)@.current_end + *old(read)));
    }
    let r = read_until(nb, read, len, stream);
    proof {
        assert(nb@.all.subrange(0, old(nb)@.following_end as int) =~= expanded.all.subrange(
            0,
            old(nb)@.following_end as int,
        ));
    }
    r
}

/// Moves the next message into scope, reading what is missing of it, and tells its tag.
///
/// A message that was read ahead whole is taken from the buffer as it is: the stream is not
/// asked for anything.
pub fn fetch_one_msg_from_stream<S>(nb: &mut PartitionedFilledBuffer, stream: &mut S) -> (r: Result<
    u8,
    Error,
>) where S: Stream
    requires
        old(nb).inv(),
    ensures
        final(nb).inv(),
        match r {
            Ok(tag) => has_advanced(old(nb)@, final(nb)@) && tag == final(nb)@.current()[0],
            Err(e) => has_progressed(old(nb)@, final(nb)@) && is_fetch_failure(e),
        },
        r is Ok <==> has_advanced(old(nb)@, final(nb)@),
        old(nb)@.current_end + HEADER_LEN > usize::MAX ==> r matches Err(Error::AllocationError),
        is_buffered(old(nb)@) ==> {
            &&& r == Ok::<u8, Error>(old(nb)@.following()[0])
            &&& final(nb)@ == taken_from_buffer(old(nb)@)
            &&& *final(stream) == *old(stream)
        },
{
    proof {
        nb.lemma_ordered();
    }
    let mut read: usize = nb.following_len();
    let (tag, len) = match fetch_one_header_from_stream(nb, &mut read, stream) {
        Ok(header) => header,
        Err(e) => {
            return Err(e);
        },
    };
    let ghost with_header = nb@;
    let ghost header_read = read;
    proof {
        nb.lemma_ordered();
    }
    match fetch_one_payload_from_stream(len, nb, &mut read, stream) {
        Ok(()) => {},
        Err(e) => {
            proof {
                assert(nb@.all.subrange(0, old(nb)@.following_end as int)
                    =~= with_header.all.subrange(0, old(nb)@.following_end as int));
            }
            return Err(e);
        },
    }
    proof {
        nb.lemma_ordered();
        let cur = old(nb)@.current_end as int;
        assert(nb@.all.subrange(0, old(nb)@.following_end as int) =~= with_header.all.subrange(
            0,
            old(nb)@.following_end as int,
        ));
        let kept = nb@.all.subrange(0, cur + header_read);
        let held = with_header.all.subrange(0, cur + header_read);
        assert(kept[cur] == held[cur] && kept[cur + 1] == held[cur + 1] && kept[cur + 2] == held[cur
            + 2] && kept[cur + 3] == held[cur + 3] && kept[cur + 4] == held[cur + 4]);
        assert(with_header.following_trail()[0] == with_header.all[cur]);
        assert(with_header.following_trail()[1] == with_header.all[cur + 1]);
        assert(with_header.following_trail()[2] == with_header.all[cur + 2]);
        assert(with_header.following_trail()[3] == with_header.all[cur + 3]);
        assert(with_header.following_trail()[4] == with_header.all[cur + 4]);
    }
    let current_end_idx: usize = nb.current_end_idx();
    let r = nb.set_indices(current_end_idx, len, read - len);
    proof {
        let cur = old(nb)@.current_end as int;
        assert(r is Ok);
        assert(nb@.current()[0] == nb@.all[cur]);
        assert(nb@.current()[1] == nb@.all[cur + 1]);
        assert(nb@.current()[2] == nb@.all[cur + 2]);
        assert(nb@.current()[3] == nb@.all[cur + 3]);
        assert(nb@.current()[4] == nb@.all[cur + 4]);
        if is_buffered(old(nb)@) {
            assert(old(nb)@.following()[0] == old(nb)@.all[cur]);
            assert(old(nb)@.following()[1] == old(nb)@.all[cur + 1]);
            assert(old(nb)@.following()[2] == old(nb)@.all[cur + 2]);
            assert(old(nb)@.following()[3] == old(nb)@.all[cur + 3]);
            assert(old(nb)@.following()[4] == old(nb)@.all[cur + 4]);
        }
    }
    Ok(tag)
}

/// Moves the next message that is no warning into scope and tells its tag.
///
/// Warnings are moved into scope and passed over, one after the other. If the warnings that
/// were read ahead are followed by a whole message that was read ahead too, that message is
/// taken from the buffer as it is: the stream is not asked for anything.
pub fn fetch_representative_msg_from_stream<S>(
    nb: &mut PartitionedFilledBuffer,
    stream: &mut S,
) -> (r: Result<u8, Error>) where S: Stream
    requires
        old(nb).inv(),
    ensures
        final(nb).inv(),
        final(nb)@.current_end >= old(nb)@.current_end,
        final(nb)@.len >= old(nb)@.len,
        match r {
            Ok(tag) => {
                &&& is_framed(final(nb)@.current())
                &&& tag == final(nb)@.current()[0]
                &&& tag != NOTICE_TAG
                &&& final(nb)@.current_end >= old(nb)@.current_end + HEADER_LEN
            },
            Err(e) => is_fetch_failure(e),
        },
        r is Ok <==> final(nb)@.current_end >= old(nb)@.current_end + HEADER_LEN && final(nb)@.current()[0] != NOTICE_TAG,
        is_buffered(past_notices(old(nb)@)) ==> {
            &&& r == Ok::<u8, Error>(past_notices(old(nb)@).following()[0])
            &&& final(nb)@ == taken_from_buffer(past_notices(old(nb)@))
            &&& *final(stream) == *old(stream)
        },
{
    let ghost first = past_notices(old(nb)@);
    proof {
        nb.lemma_ordered();
    }
    let mut tag: u8 = match fetch_one_msg_from_stream(nb, stream) {
        Ok(tag) => tag,
        Err(e) => {
            return Err(e);
        },
    };
    proof {
        nb.lemma_ordered();
    }
    while tag == NOTICE_TAG
        invariant
            nb.inv(),
            is_framed(nb@.current()),
            tag == nb@.current()[0],
            nb@.current_end >= old(nb)@.current_end + HEADER_LEN,
            nb@.len >= old(nb)@.len,
            first == past_notices(old(nb)@),
            is_buffered(first) ==> {
                &&& *stream == *old(stream)
                &&& if tag == NOTICE_TAG {
                    past_notices(nb@) == first
                } else {
                    nb@ == taken_from_buffer(first) && tag == first.following()[0]
                }
            },
        decreases usize::MAX - nb@.current_end,
    {
        proof {
            nb.lemma_ordered();
        }
        let ghost notice = nb@;
        tag = match fetch_one_msg_from_stream(nb, stream) {
            Ok(tag) => tag,
            Err(e) => {
                proof {
                    assert(nb@.current()[0] == nb@.all.subrange(0, notice.following_end as int)[notice.antecedent_end as int]);
                    assert(notice.current()[0] == notice.all.subrange(
                        0,
                        notice.following_end as int,
                    )[notice.antecedent_end as int]);
                }
                return Err(e);
            },
        };
        proof {
            nb.lemma_ordered();
        }
    }
    Ok(tag)
}

/// Moves the next message that is no warning into scope and reads what it says.
///
/// Whatever goes wrong on the way leaves the connection unusable and marks it closed, and so
/// does a failure that the backend calls fatal.
pub fn fetch_msg_from_stream<S>(
    is_closed: &mut bool,
    nb: &mut PartitionedFilledBuffer,
    stream: &mut S,
) -> (r: Result<Message, Error>) where S: Stream
    requires
        old(nb).inv(),
    ensures
        final(nb).inv(),
        final(nb)@.current_end >= old(nb)@.current_end,
        final(nb)@.len >= old(nb)@.len,
        match r {
            Ok(msg) => {
                &&& is_framed(final(nb)@.current())
                &&& msg.tag == final(nb)@.current()[0]
                &&& msg.tag != NOTICE_TAG
                &&& spec_message_ty(final(nb)@.current()) == Ok::<MessageTy, Error>(msg.ty)
                &&& final(nb)@.current_end >= old(nb)@.current_end + HEADER_LEN
                &&& *final(is_closed) == (*old(is_closed) || is_fatal(msg.ty))
            },
            Err(e) => *final(is_closed) && is_fetch_failure(e),
        },
        r is Ok <==> final(nb)@.current_end >= old(nb)@.current_end + HEADER_LEN && final(nb)@.current()[0] != NOTICE_TAG && spec_message_ty(final(nb)@.current()) is Ok,
        is_buffered(past_notices(old(nb)@)) ==> {
            &&& final(nb)@ == taken_from_buffer(past_notices(old(nb)@))
            &&& *final(stream) == *old(stream)
            &&& r is Ok <==> spec_message_ty(final(nb)@.current()) is Ok
        },
{
    let tag: u8 = match fetch_representative_msg_from_stream(nb, stream) {
        Ok(tag) => tag,
        Err(e) => {
            *is_closed = true;
            return Err(e);
        },
    };
    match MessageTy::try_from(nb.current()) {
        Ok(ty) => {
            match ty {
                MessageTy::ErrorResponse { is_fatal, .. } => {
                    if is_fatal {
                        *is_closed = true;
                    }
                },
                _ => {},
            }
            Ok(Message { tag, ty })
        },
        Err(e) => {
            *is_closed = true;
            Err(e)
        },
    }
}

/// If `ty` is a failure that the backend gives the connection up for.
pub open spec fn is_fatal(ty: MessageTy) -> bool {
    ty matches MessageTy::ErrorResponse { is_fatal: true, .. }
}

/// Moves the next message into scope, be it a warning or not, and reads what it says.
///
/// Whatever goes wrong on the way leaves the connection unusable and marks it closed, and so
/// does a failure that the backend calls fatal. A message that was read ahead whole is taken
/// from the buffer as it is: the stream is not asked for anything.
pub fn fetch_next_msg_from_stream<S>(
    is_closed: &mut bool,
    nb: &mut PartitionedFilledBuffer,
    stream: &mut S,
) -> (r: Result<Message, Error>) where S: Stream
    requires
        old(nb).inv(),
    ensures
        final(nb).inv(),
        match r {
            Ok(msg) => {
                &&& has_advanced(old(nb)@, final(nb)@)
                &&& msg.tag == final(nb)@.current()[0]
                &&& spec_message_ty(final(nb)@.current()) == Ok::<MessageTy, Error>(msg.ty)
                &&& *final(is_closed) == (*old(is_closed) || is_fatal(msg.ty))
            },
            Err(e) => {
                &&& *final(is_closed)
                &&& is_fetch_failure(e)
                &&& has_progressed(old(nb)@, final(nb)@) || (has_advanced(old(nb)@, final(nb)@)
                    && spec_message_ty(final(nb)@.current()) == Err::<MessageTy, Error>(e))
            },
        },
        r is Ok <==> has_advanced(old(nb)@, final(nb)@) && spec_message_ty(final(nb)@.current())
            is Ok,
        is_buffered(old(nb)@) ==> {
            &&& final(nb)@ == taken_from_buffer(old(nb)@)
            &&& *final(stream) == *old(stream)
            &&& r is Ok <==> spec_message_ty(final(nb)@.current()) is Ok
        },
{
    let tag: u8 = match fetch_one_msg_from_stream(nb, stream) {
        Ok(tag) => tag,
        Err(e) => {
            *is_closed = true;
            return Err(e);
        },
    };
    match MessageTy::try_from(nb.current()) {
        Ok(ty) => {
            match ty {
                MessageTy::ErrorResponse { is_fatal, .. } => {
                    if is_fatal {
                        *is_closed = true;
                    }
                },
                _ => {},
            }
            Ok(Message { tag, ty })
        },
        Err(e) => {
            *is_closed = true;
            proof {
                crate::database::client::postgres::message::lemma_message_ty_failure(
                    nb@.current(),
                );
            }
            Err(e)
        },
    }
}

} // verus!
