//! Filling a partitioned buffer from a stream.

use crate::error::Error;
use crate::misc::partitioned_filled_buffer::{PartitionedFilledBuffer, PartitionedView};
use crate::misc::stream::Stream;
use vstd::prelude::*;

verus! {

/// `after` is `before` after some bytes arrived behind the bytes that were read ahead: the
/// boundaries are where they were and so is every byte in front of the last of them.
pub open spec fn has_progressed(before: PartitionedView, after: PartitionedView) -> bool {
    &&& after.antecedent_end == before.antecedent_end
    &&& after.current_end == before.current_end
    &&& after.following_end == before.following_end
    &&& after.len >= before.len
    &&& after.all.len() >= before.all.len()
    &&& after.all.subrange(0, before.following_end as int) == before.all.subrange(
        0,
        before.following_end as int,
    )
}

/// What is to be done once a stream was asked for more bytes.
#[derive(Debug, Clone, Copy, PartialEq, Eq)]
pub enum ReadStep {
    /// Enough bytes are there: the number of bytes that are there.
    Done(usize),
    /// The stream is asked again: the number of bytes that are there and the number of turns
    /// that are left.
    More(usize, usize),
    /// The stream stayed behind on its last turn: the number of bytes that are there.
    GivenUp(usize),
    /// The stream failed.
    Failed(std::io::ErrorKind),
}

/// What is to be done once a stream gave `answer` when `read` of `until` bytes were there and
/// it had `turns` turns left, this one included.
///
/// The bytes that arrived count. With enough of them the reading is done; with too few of
/// them the stream is asked again, unless this was its last turn. A failure of the stream
/// ends the reading.
pub open spec fn spec_read_step(
    read: usize,
    until: usize,
    turns: usize,
    answer: Result<usize, std::io::ErrorKind>,
) -> ReadStep {
    match answer {
        Err(kind) => ReadStep::Failed(kind),
        Ok(n) => if read + n >= until {
            ReadStep::Done((read + n) as usize)
        } else if turns <= 1 {
            ReadStep::GivenUp((read + n) as usize)
        } else {
            ReadStep::More((read + n) as usize, (turns - 1) as usize)
        },
    }
}

/// Decides what is to be done once a stream gave `answer`.
pub fn read_step(read: usize, until: usize, turns: usize, answer: Result<usize, std::io::ErrorKind>) -> (r:
    ReadStep)
    requires
        answer matches Ok(n) ==> read + n <= usize::MAX,
    ensures
        r == spec_read_step(read, until, turns, answer),
{
    match answer {
        Err(kind) => ReadStep::Failed(kind),
        Ok(n) => {
            let now: usize = read + n;
            if now >= until {
                ReadStep::Done(now)
            } else if turns <= 1 {
                ReadStep::GivenUp(now)
            } else {
                ReadStep::More(now, turns - 1)
            }
        },
    }
}

/// Reads from `stream` until at least `until` bytes lie behind the message in scope, of which
/// `read` are there already. Bytes that are there are not asked for again. The stream gets
/// `until` turns, and what is done after each of them is what [`read_step`] decides: a stream
/// that stays behind is given up with [`Error::UnexpectedBufferState`], and one that fails
/// ends the reading with its failure.
pub fn read_until<S>(
    nb: &mut PartitionedFilledBuffer,
    read: &mut usize,
    until: usize,
    stream: &mut S,
) -> (r: Result<(), Error>) where S: Stream
    requires
        old(nb).inv(),
        old(nb)@.following_end - old(nb)@.current_end <= *old(read) <= old(nb)@.len - old(nb)@.current_end,
        old(nb)@.current_end + until <= old(nb)@.len,
    ensures
        final(nb).inv(),
        has_progressed(old(nb)@, final(nb)@),
        final(nb)@.len == old(nb)@.len,
        final(nb)@.all.subrange(0, old(nb)@.current_end + *old(read)) == old(nb)@.all.subrange(
            0,
            old(nb)@.current_end + *old(read),
        ),
        *old(read) <= *final(read) <= final(nb)@.len - final(nb)@.current_end,
        r is Ok <==> *final(read) >= until,
        r matches Err(e) ==> e is Io || e == Error::UnexpectedBufferState,
        *old(read) >= until ==> *final(read) == *old(read) && final(nb)@ == old(nb)@ && *final(stream) == *old(stream),
{
    if *read >= until {
        proof {
            assert(nb@.all.subrange(0, nb@.following_end as int) =~= nb@.all.subrange(
                0,
                nb@.following_end as int,
            ));
        }
        return Ok(());
    }
    let ghost begin = *read;
    let mut turns: usize = until;
    loop
        invariant
            nb.inv(),
            has_progressed(old(nb)@, nb@),
            nb@.len == old(nb)@.len,
            nb@.all.subrange(0, old(nb)@.current_end + begin) == old(nb)@.all.subrange(
                0,
                old(nb)@.current_end + begin,
            ),
            begin == *old(read),
            begin <= *read <= nb@.len - nb@.current_end,
            old(nb)@.following_end - old(nb)@.current_end <= begin,
            nb@.current_end + until <= nb@.len,
            *read < until,
            turns >= 1,
        decreases turns,
    {
        let ghost before = nb@;
        let at: usize = *read;
        proof {
            nb.lemma_ordered();
        }
        let trail = nb.following_trail_mut();
        let (head, target) = trail.split_at_mut(at);
        let answer = stream.read(target);
        proof {
            assert(final(trail)@.len() == trail@.len());
            let cur = before.current_end as int;
            assert(nb@.all.subrange(0, cur + at) =~= before.all.subrange(0, cur + at));
            assert(nb@.all.subrange(0, old(nb)@.following_end as int) =~= nb@.all.subrange(
                0,
                cur + at,
            ).subrange(0, old(nb)@.following_end as int));
            assert(nb@.all.subrange(0, old(nb)@.current_end + begin) =~= nb@.all.subrange(
                0,
                cur + at,
            ).subrange(0, old(nb)@.current_end + begin));
            assert(before.all.subrange(0, old(nb)@.following_end as int) =~= before.all.subrange(
                0,
                cur + at,
            ).subrange(0, old(nb)@.following_end as int));
            assert(before.all.subrange(0, old(nb)@.current_end + begin) =~= before.all.subrange(
                0,
                cur + at,
            ).subrange(0, old(nb)@.current_end + begin));
        }
        match read_step(at, until, turns, answer) {
            ReadStep::Done(now) => {
                *read = now;
                return Ok(());
            },
            ReadStep::More(now, left) => {
                *read = now;
                turns = left;
            },
            ReadStep::GivenUp(now) => {
                *read = now;
                return Err(Error::UnexpectedBufferState);
            },
            ReadStep::Failed(kind) => {
                return Err(Error::Io(kind));
            },
        }
    }
}

} // verus!
