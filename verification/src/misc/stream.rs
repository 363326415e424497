//! Duplex byte channels.

use std::io::ErrorKind;
use vstd::prelude::*;

verus! {

/// A channel that bytes can be pulled from and pushed into.
///
/// Nothing is said about where the bytes come from or go to. A reader only learns how many
/// bytes arrived; a short read, or no byte at all at the end of the channel, is no failure. A
/// failure is told in the way of the standard library, so that whoever uses a stream can tell
/// the failures of the stream from his own.
pub trait Stream {
    /// Pulls some bytes into the front of `bytes` and tells how many arrived.
    fn read(&mut self, bytes: &mut [u8]) -> (r: Result<usize, ErrorKind>)
        ensures
            final(bytes)@.len() == old(bytes)@.len(),
            r matches Ok(n) ==> n <= old(bytes)@.len(),
    ;

    /// Pushes every byte of `bytes` or fails.
    fn write_all(&mut self, bytes: &[u8]) -> (r: Result<(), ErrorKind>)
    ;
}

impl Stream for () {
    /// Nothing ever arrives.
    fn read(&mut self, bytes: &mut [u8]) -> (r: Result<usize, ErrorKind>)
        ensures
            final(bytes)@ == old(bytes)@,
            r == Ok::<usize, ErrorKind>(0usize),
    {
        Ok(0)
    }

    /// Everything is swallowed.
    fn write_all(&mut self, bytes: &[u8]) -> (r: Result<(), ErrorKind>)
        ensures
            r is Ok,
    {
        Ok(())
    }
}

impl<T> Stream for &mut T where T: Stream {
    fn read(&mut self, bytes: &mut [u8]) -> (r: Result<usize, ErrorKind>) {
        (**self).read(bytes)
    }

    fn write_all(&mut self, bytes: &[u8]) -> (r: Result<(), ErrorKind>) {
        (**self).write_all(bytes)
    }
}

/// The first `n` bytes of `src` followed by what `dst` holds behind them.
pub open spec fn filled_front(dst: Seq<u8>, src: Seq<u8>, n: int) -> Seq<u8> {
    src.subrange(0, n) + dst.subrange(n, dst.len() as int)
}

/// The smaller of two lengths.
pub open spec fn min_len(a: int, b: int) -> int {
    if a <= b {
        a
    } else {
        b
    }
}

/// Stores written data to transfer when read.
#[derive(Debug)]
pub struct BytesStream {
    buffer: Vec<u8>,
    idx: usize,
}

impl View for BytesStream {
    type V = Seq<u8>;

    /// The bytes that were written and not read yet, oldest first.
    closed spec fn view(&self) -> Seq<u8> {
        if self.idx <= self.buffer@.len() {
            self.buffer@.subrange(self.idx as int, self.buffer@.len() as int)
        } else {
            Seq::empty()
        }
    }
}

impl BytesStream {
    /// A stream that holds no byte.
    pub fn new() -> (r: Self)
        ensures
            r@ == Seq::<u8>::empty(),
    {
        let r = Self { buffer: Vec::new(), idx: 0 };
        assert(r@ =~= Seq::<u8>::empty());
        r
    }

    /// Empties the internal buffer.
    pub fn clear(&mut self)
        ensures
            final(self)@ == Seq::<u8>::empty(),
    {
        self.buffer.clear();
        self.idx = 0;
        assert(self@ =~= Seq::<u8>::empty());
    }

    /// The number of bytes that wait to be read.
    pub fn len(&self) -> (r: usize)
        ensures
            r == self@.len(),
    {
        let len: usize = self.buffer.len();
        if self.idx <= len {
            len - self.idx
        } else {
            0
        }
    }
}

impl Default for BytesStream {
    /// A stream that holds no byte.
    fn default() -> (r: Self)
        ensures
            r@ == Seq::<u8>::empty(),
    {
        Self::new()
    }
}

impl Stream for BytesStream {
    /// Hands out the oldest waiting bytes, as many as fit into `bytes`.
    fn read(&mut self, bytes: &mut [u8]) -> (r: Result<usize, ErrorKind>)
        ensures
            r == Ok::<usize, ErrorKind>(min_len(old(self)@.len() as int, old(bytes)@.len() as int) as usize),
            final(bytes)@ == filled_front(
                old(bytes)@,
                old(self)@,
                min_len(old(self)@.len() as int, old(bytes)@.len() as int),
            ),
            final(self)@ == old(self)@.subrange(
                min_len(old(self)@.len() as int, old(bytes)@.len() as int),
                old(self)@.len() as int,
            ),
    {
        let waiting: usize = self.len();
        let total: usize = self.buffer.len();
        let room: usize = bytes.len();
        let n: usize = if waiting <= room {
            waiting
        } else {
            room
        };
        let begin: usize = if waiting == 0 {
            0
        } else {
            self.idx
        };
        let mut i: usize = 0;
        while i < n
            invariant
                i <= n,
                n <= waiting,
                n <= room,
                waiting == self@.len(),
                self.buffer@.len() == total,
                waiting > 0 ==> begin == self.idx && begin + waiting == total,
                self@ == old(self)@,
                bytes@.len() == room,
                bytes@.len() == old(bytes)@.len(),
                forall|j: int| 0 <= j < i ==> bytes@[j] == self@[j],
                forall|j: int| i <= j < room ==> bytes@[j] == old(bytes)@[j],
            decreases n - i,
        {
            bytes[i] = self.buffer[begin + i];
            i += 1;
        }
        assert(bytes@ =~= filled_front(old(bytes)@, old(self)@, n as int));
        if waiting <= room {
            self.clear();
            assert(self@ =~= old(self)@.subrange(n as int, old(self)@.len() as int));
        } else {
            self.idx = self.idx + n;
            assert(self@ =~= old(self)@.subrange(n as int, old(self)@.len() as int));
        }
        Ok(n)
    }

    /// Appends `bytes` behind the bytes that wait.
    fn write_all(&mut self, bytes: &[u8]) -> (r: Result<(), ErrorKind>)
        ensures
            r is Ok,
            final(self)@ == old(self)@ + bytes@,
    {
        if self.idx > self.buffer.len() {
            self.buffer.clear();
            self.idx = 0;
        }
        crate::misc::filled_buffer::append_bytes(&mut self.buffer, bytes);
        assert(self@ =~= old(self)@ + bytes@);
        Ok(())
    }
}

} // verus!
