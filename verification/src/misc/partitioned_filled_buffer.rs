//! One run of bytes, cut into what was consumed, what is being looked at and what was read ahead.

use crate::error::Error;
use crate::misc::buffer_mode::BufferMode;
use crate::misc::filled_buffer::{grown, overwritten, FilledBuffer};
use core::ops::Range;
use vstd::prelude::*;

verus! {

/// What a [`PartitionedFilledBuffer`] is: three boundaries over a run of bytes.
pub struct PartitionedView {
    /// Where the consumed bytes end and the message in scope begins.
    pub antecedent_end: nat,
    /// Where the message in scope ends and the bytes read ahead begin.
    pub current_end: nat,
    /// Where the bytes read ahead end.
    pub following_end: nat,
    /// How many bytes are open for partitioning and for the next read.
    pub len: nat,
    /// Every initialised byte. Its length is the capacity.
    pub all: Seq<u8>,
}

impl PartitionedView {
    /// The boundaries are ordered and lie inside the capacity.
    pub open spec fn wf(self) -> bool {
        0 <= self.antecedent_end <= self.current_end <= self.following_end <= self.len
            <= self.all.len()
    }

    /// The bytes that are open for partitioning.
    pub open spec fn bytes(self) -> Seq<u8> {
        self.all.subrange(0, self.len as int)
    }

    /// The bytes that were consumed and are kept until they are reclaimed.
    pub open spec fn antecedent(self) -> Seq<u8> {
        self.all.subrange(0, self.antecedent_end as int)
    }

    /// The message in scope.
    pub open spec fn current(self) -> Seq<u8> {
        self.all.subrange(self.antecedent_end as int, self.current_end as int)
    }

    /// The bytes that were read ahead and belong to later messages.
    pub open spec fn following(self) -> Seq<u8> {
        self.all.subrange(self.current_end as int, self.following_end as int)
    }

    /// Everything behind the message in scope: the target of the next read.
    pub open spec fn following_trail(self) -> Seq<u8> {
        self.all.subrange(self.current_end as int, self.len as int)
    }

    /// The boundaries that `antecedent_end` and the two lengths describe, if they fit into the
    /// bytes at hand.
    pub open spec fn with_indices(
        self,
        antecedent_end: nat,
        current_len: nat,
        following_len: nat,
    ) -> Option<Self> {
        if antecedent_end + current_len + following_len <= self.len {
            Some(
                PartitionedView {
                    antecedent_end,
                    current_end: antecedent_end + current_len,
                    following_end: antecedent_end + current_len + following_len,
                    ..self
                },
            )
        } else {
            None
        }
    }
}

/// A byte arena with three zones, `[0, antecedent_end)`, `[antecedent_end, current_end)` and
/// `[current_end, following_end)`, for parsing a stream of framed messages without copying.
///
/// Moving to the next message only moves boundaries. Space is reclaimed in one place,
/// [`Self::clear_if_following_is_empty`], so that what was handed out stays where it is until
/// then.
#[derive(Debug)]
pub struct PartitionedFilledBuffer {
    antecedent_end_idx: usize,
    buffer: FilledBuffer,
    current_end_idx: usize,
    following_end_idx: usize,
}

impl View for PartitionedFilledBuffer {
    type V = PartitionedView;

    closed spec fn view(&self) -> PartitionedView {
        PartitionedView {
            antecedent_end: self.antecedent_end_idx as nat,
            current_end: self.current_end_idx as nat,
            following_end: self.following_end_idx as nat,
            len: self.buffer.spec_len(),
            all: self.buffer.all(),
        }
    }
}

impl PartitionedFilledBuffer {
    /// The boundaries are ordered and lie inside the bytes that the buffer holds.
    pub closed spec fn inv(&self) -> bool {
        self.buffer.inv() && self@.wf()
    }

    /// At every moment `0 <= antecedent_end <= current_end <= following_end <= capacity`, and
    /// the capacity fits the machine.
    pub proof fn lemma_ordered(&self)
        requires
            self.inv(),
        ensures
            self@.wf(),
            0 <= self@.antecedent_end <= self@.current_end <= self@.following_end
                <= self@.all.len() <= usize::MAX,
    {
        self.buffer.lemma_bounds();
    }

    /// An empty buffer that holds no memory.
    pub fn new() -> (r: Self)
        ensures
            r.inv(),
            r@ == (PartitionedView {
                antecedent_end: 0,
                current_end: 0,
                following_end: 0,
                len: 0,
                all: Seq::empty(),
            }),
    {
        Self {
            antecedent_end_idx: 0,
            buffer: FilledBuffer::_new(),
            current_end_idx: 0,
            following_end_idx: 0,
        }
    }

    /// An empty buffer whose first `cap` bytes are zero and open for the next read.
    pub fn with_capacity(cap: usize) -> (r: Result<Self, Error>)
        ensures
            match r {
                Ok(this) => this.inv() && this@ == (PartitionedView {
                    antecedent_end: 0,
                    current_end: 0,
                    following_end: 0,
                    len: cap as nat,
                    all: crate::misc::filled_buffer::zeros(cap as nat),
                }),
                Err(e) => e == Error::AllocationError,
            },
            cap == 0 ==> r is Ok,
    {
        match FilledBuffer::_with_capacity(cap) {
            Ok(mut buffer) => {
                buffer._set_len(cap);
                Ok(
                    Self {
                        antecedent_end_idx: 0,
                        buffer,
                        current_end_idx: 0,
                        following_end_idx: 0,
                    },
                )
            },
            Err(e) => Err(e),
        }
    }

    /// Where the consumed bytes end.
    pub fn antecedent_end_idx(&self) -> (r: usize)
        ensures
            r == self@.antecedent_end,
    {
        self.antecedent_end_idx
    }

    /// Where the message in scope ends.
    pub fn current_end_idx(&self) -> (r: usize)
        ensures
            r == self@.current_end,
    {
        self.current_end_idx
    }

    /// Where the bytes read ahead end.
    pub fn following_end_idx(&self) -> (r: usize)
        ensures
            r == self@.following_end,
    {
        self.following_end_idx
    }

    /// The number of bytes that can be held without obtaining memory.
    pub fn capacity(&self) -> (r: usize)
        ensures
            r == self@.all.len(),
    {
        self.buffer._capacity()
    }

    /// The bytes that are open for partitioning.
    pub fn buffer(&self) -> (r: &[u8])
        requires
            self.inv(),
        ensures
            r@ == self@.bytes(),
    {
        self.buffer.as_slice()
    }

    /// The bytes that were consumed.
    pub fn antecedent(&self) -> (r: &[u8])
        requires
            self.inv(),
        ensures
            r@ == self@.antecedent(),
    {
        proof {
            self.buffer.lemma_bounds();
        }
        let r = vstd::slice::slice_subrange(self.buffer.as_slice(), 0, self.antecedent_end_idx);
        assert(r@ =~= self@.antecedent());
        r
    }

    /// The message in scope.
    pub fn current(&self) -> (r: &[u8])
        requires
            self.inv(),
        ensures
            r@ == self@.current(),
    {
        proof {
            self.buffer.lemma_bounds();
        }
        let r = vstd::slice::slice_subrange(
            self.buffer.as_slice(),
            self.antecedent_end_idx,
            self.current_end_idx,
        );
        assert(r@ =~= self@.current());
        r
    }

    /// Where the message in scope lies.
    pub fn current_range(&self) -> (r: Range<usize>)
        ensures
            r.start == self@.antecedent_end,
            r.end == self@.current_end,
    {
        self.antecedent_end_idx..self.current_end_idx
    }

    /// The bytes that were read ahead.
    pub fn following(&self) -> (r: &[u8])
        requires
            self.inv(),
        ensures
            r@ == self@.following(),
    {
        proof {
            self.buffer.lemma_bounds();
        }
        let r = vstd::slice::slice_subrange(
            self.buffer.as_slice(),
            self.current_end_idx,
            self.following_end_idx,
        );
        assert(r@ =~= self@.following());
        r
    }

    /// Everything behind the message in scope.
    pub fn following_trail(&self) -> (r: &[u8])
        requires
            self.inv(),
        ensures
            r@ == self@.following_trail(),
    {
        proof {
            self.buffer.lemma_bounds();
        }
        let contents = self.buffer.as_slice();
        let r = vstd::slice::slice_subrange(contents, self.current_end_idx, contents.len());
        assert(r@ =~= self@.following_trail());
        r
    }

    /// How many bytes are open for partitioning and for the next read.
    pub fn len(&self) -> (r: usize)
        ensures
            r == self@.len,
    {
        self.buffer.len()
    }

    /// How many bytes were read ahead.
    pub fn following_len(&self) -> (r: usize)
        requires
            self.inv(),
        ensures
            r == self@.following_end - self@.current_end,
    {
        self.following_end_idx - self.current_end_idx
    }

    /// If any byte was read ahead.
    pub fn has_following(&self) -> (r: bool)
        requires
            self.inv(),
        ensures
            r == (self@.following_end > self@.current_end),
    {
        self.following_end_idx > self.current_end_idx
    }

    /// Everything behind the message in scope, for the next read to write into. The boundaries
    /// stay where they are, and so does every byte in front of the returned slice.
    pub fn following_trail_mut(&mut self) -> (r: &mut [u8])
        requires
            old(self).inv(),
        ensures
            r@ == old(self)@.following_trail(),
            final(r)@.len() == r@.len() ==> final(self).inv() && final(self)@ == (PartitionedView {
                all: overwritten(old(self)@.all, old(self)@.current_end as int, final(r)@),
                ..old(self)@
            }),
    {
        proof {
            self.buffer.lemma_bounds();
        }
        let current_end_idx: usize = self.current_end_idx;
        let (head, trail) = self.buffer.as_slice_mut().split_at_mut(current_end_idx);
        proof {
            let before = old(self)@;
            let spare = before.all.subrange(before.len as int, before.all.len() as int);
            assert(trail@ =~= before.following_trail());
            assert(final(trail)@.len() == trail@.len() ==> (head@ + final(trail)@) + spare
                =~= overwritten(before.all, before.current_end as int, final(trail)@));
        }
        trail
    }

    /// Opens `additional` more bytes behind the bytes read ahead, obtaining zeroed memory where
    /// the capacity falls short. The boundaries stay where they are.
    pub fn expand_following(&mut self, additional: usize) -> (r: Result<(), Error>)
        requires
            old(self).inv(),
        ensures
            final(self).inv(),
            match r {
                Ok(()) => {
                    let len = old(self)@.following_end + additional;
                    if len <= old(self)@.len {
                        final(self)@ == old(self)@
                    } else {
                        final(self)@ == (PartitionedView {
                            len: len as nat,
                            all: grown(old(self)@.all, len),
                            ..old(self)@
                        })
                    }
                },
                Err(e) => e == Error::AllocationError && final(self)@ == old(self)@,
            },
            old(self)@.following_end + additional <= old(self)@.all.len() ==> r is Ok,
            old(self)@.following_end + additional > usize::MAX ==> r is Err,
    {
        proof {
            self.buffer.lemma_bounds();
        }
        match self.following_end_idx.checked_add(additional) {
            Some(len) => self.expand_buffer(len),
            None => Err(Error::AllocationError),
        }
    }

    /// Opens the first `len` bytes, obtaining zeroed memory where the capacity falls short.
    /// Bytes that are open already stay open.
    pub fn expand_buffer(&mut self, len: usize) -> (r: Result<(), Error>)
        requires
            old(self).inv(),
        ensures
            final(self).inv(),
            match r {
                Ok(()) => if len <= old(self)@.len {
                    final(self)@ == old(self)@
                } else {
                    final(self)@ == (PartitionedView {
                        len: len as nat,
                        all: grown(old(self)@.all, len as int),
                        ..old(self)@
                    })
                },
                Err(e) => e == Error::AllocationError && final(self)@ == old(self)@,
            },
            len <= old(self)@.all.len() ==> r is Ok,
    {
        proof {
            self.buffer.lemma_bounds();
        }
        if len <= self.buffer.len() {
            return Ok(());
        }
        self.buffer._expand(BufferMode::Len(len))
    }

    /// Makes sure that `additional` more bytes fit behind the open bytes. Obtained memory is
    /// zeroed; the capacity never shrinks and nothing else changes.
    pub fn reserve(&mut self, additional: usize) -> (r: Result<(), Error>)
        requires
            old(self).inv(),
        ensures
            final(self).inv(),
            match r {
                Ok(()) => final(self)@ == (PartitionedView {
                    all: grown(old(self)@.all, old(self)@.len + additional),
                    ..old(self)@
                }),
                Err(e) => e == Error::AllocationError && final(self)@ == old(self)@,
            },
            old(self)@.len + additional <= old(self)@.all.len() ==> r is Ok,
            old(self)@.len + additional > usize::MAX ==> r is Err,
    {
        self.buffer._reserve(additional)
    }

    /// Moves the three boundaries at once: the consumed bytes end at `antecedent_end_idx`, the
    /// message in scope takes the next `current_len` bytes and the bytes read ahead the
    /// `following_len` bytes behind them. Boundaries that do not fit into the open bytes are
    /// refused and nothing changes.
    pub fn set_indices(
        &mut self,
        antecedent_end_idx: usize,
        current_len: usize,
        following_len: usize,
    ) -> (r: Result<(), Error>)
        requires
            old(self).inv(),
        ensures
            final(self).inv(),
            match old(self)@.with_indices(
                antecedent_end_idx as nat,
                current_len as nat,
                following_len as nat,
            ) {
                Some(view) => r is Ok && final(self)@ == view,
                None => r == Err::<(), Error>(Error::UnexpectedBufferState) && final(self)@ == old(
                    self,
                )@,
            },
    {
        let len: usize = self.buffer.len();
        let current_end_idx: usize = match antecedent_end_idx.checked_add(current_len) {
            Some(idx) => idx,
            None => {
                return Err(Error::UnexpectedBufferState);
            },
        };
        let following_end_idx: usize = match current_end_idx.checked_add(following_len) {
            Some(idx) => idx,
            None => {
                return Err(Error::UnexpectedBufferState);
            },
        };
        if following_end_idx > len {
            return Err(Error::UnexpectedBufferState);
        }
        self.antecedent_end_idx = antecedent_end_idx;
        self.current_end_idx = current_end_idx;
        self.following_end_idx = following_end_idx;
        Ok(())
    }

    /// Forgets every byte and keeps the memory.
    pub fn clear(&mut self)
        ensures
            final(self).inv(),
            final(self)@ == (PartitionedView {
                antecedent_end: 0,
                current_end: 0,
                following_end: 0,
                len: 0,
                all: old(self)@.all,
            }),
    {
        self.antecedent_end_idx = 0;
        self.buffer._clear();
        self.current_end_idx = 0;
        self.following_end_idx = 0;
    }

    /// Reclaims the space of the consumed bytes and of the message in scope, but only if nothing
    /// was read ahead: bytes that wait for the next message are never moved.
    pub fn clear_if_following_is_empty(&mut self)
        requires
            old(self).inv(),
        ensures
            final(self).inv(),
            final(self)@ == if old(self)@.following_end > old(self)@.current_end {
                old(self)@
            } else {
                PartitionedView {
                    antecedent_end: 0,
                    current_end: 0,
                    following_end: 0,
                    len: 0,
                    all: old(self)@.all,
                }
            },
    {
        if !self.has_following() {
            self.clear();
        }
    }
}

} // verus!
