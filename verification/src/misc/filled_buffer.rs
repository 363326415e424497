//! A byte vector whose spare room is always initialised.

use crate::error::Error;
use crate::misc::buffer_mode::BufferMode;
use vstd::prelude::*;

verus! {

/// `n` zero bytes.
pub open spec fn zeros(n: nat) -> Seq<u8> {
    Seq::new(n, |i: int| 0u8)
}

/// `all` followed by as many zero bytes as are missing to reach `cap` bytes.
pub open spec fn grown(all: Seq<u8>, cap: int) -> Seq<u8> {
    if cap <= all.len() {
        all
    } else {
        all + zeros((cap - all.len()) as nat)
    }
}

/// The bytes of every slice of `slices`, one slice after the other.
pub open spec fn concat(slices: Seq<&[u8]>) -> Seq<u8>
    decreases slices.len(),
{
    if slices.len() == 0 {
        Seq::empty()
    } else {
        concat(slices.drop_last()) + slices.last()@
    }
}

/// `all` with the bytes of `src` written over the positions that start at `at`.
pub open spec fn overwritten(all: Seq<u8>, at: int, src: Seq<u8>) -> Seq<u8> {
    all.subrange(0, at) + src + all.subrange(at + src.len(), all.len() as int)
}

/// Appends the bytes of `src` to `dst`.
pub fn append_bytes(dst: &mut Vec<u8>, src: &[u8])
    ensures
        final(dst)@ == old(dst)@ + src@,
{
    dst.extend_from_slice(src);
    assert(dst@ =~= old(dst)@ + src@);
}

/// Writes `src` over the bytes of `dst` that start at `at`.
pub fn copy_into(dst: &mut Vec<u8>, at: usize, src: &[u8])
    requires
        at + src@.len() <= old(dst)@.len(),
    ensures
        final(dst)@ == overwritten(old(dst)@, at as int, src@),
{
    let n: usize = src.len();
    let dst_len: usize = dst.len();
    let mut i: usize = 0;
    while i < n
        invariant
            n == src@.len(),
            i <= n,
            at + n <= dst_len,
            dst@.len() == dst_len,
            dst@.len() == old(dst)@.len(),
            forall|j: int| 0 <= j < at ==> dst@[j] == old(dst)@[j],
            forall|j: int| at <= j < at + i ==> dst@[j] == src@[j - at],
            forall|j: int| at + i <= j < dst@.len() ==> dst@[j] == old(dst)@[j],
        decreases n - i,
    {
        dst[at + i] = src[i];
        i += 1;
    }
    assert(dst@ =~= overwritten(old(dst)@, at as int, src@));
}

/// A growable run of bytes that keeps every byte it ever obtained initialised, so that its
/// length can be moved freely inside its capacity.
///
/// The bytes in front of the length are the contents. The bytes behind it are spare: zero when
/// freshly obtained, leftovers of earlier contents otherwise.
#[derive(Debug)]
pub struct FilledBuffer {
    data: Vec<u8>,
    len: usize,
}

impl View for FilledBuffer {
    type V = Seq<u8>;

    /// The contents: the bytes in front of the length.
    open spec fn view(&self) -> Seq<u8> {
        self.all().subrange(0, self.spec_len() as int)
    }
}

impl FilledBuffer {
    /// The length never exceeds the capacity.
    pub closed spec fn inv(&self) -> bool {
        self.len <= self.data@.len()
    }

    /// Every initialised byte, contents and spare room alike.
    pub closed spec fn all(&self) -> Seq<u8> {
        self.data@
    }

    /// The number of bytes that make up the contents.
    pub closed spec fn spec_len(&self) -> nat {
        self.len as nat
    }

    /// The number of bytes that can be held without obtaining memory.
    pub open spec fn spec_capacity(&self) -> nat {
        self.all().len()
    }

    /// The capacity fits the machine and bounds the length.
    pub proof fn lemma_bounds(&self)
        requires
            self.inv(),
        ensures
            self.spec_len() <= self.spec_capacity() <= usize::MAX,
            self@.len() == self.spec_len(),
    {
        assert(self.data.len() == self.data@.len());
    }

    /// The buffer that takes over `vector`.
    pub closed spec fn spec_from_vector(vector: Vec<u8>) -> FilledBuffer {
        FilledBuffer { data: vector, len: vector@.len() as usize }
    }

    /// Takes over `vector`: its elements become the contents, with no spare room.
    pub fn _from_vector(vector: Vec<u8>) -> (r: Self)
        ensures
            r == Self::spec_from_vector(vector),
            r.inv(),
            r.all() == vector@,
            r.spec_len() == vector@.len(),
    {
        let len: usize = vector.len();
        Self { data: vector, len }
    }

    /// An empty buffer that holds no memory.
    pub fn _new() -> (r: Self)
        ensures
            r.inv(),
            r.all() == Seq::<u8>::empty(),
            r.spec_len() == 0,
    {
        Self { data: Vec::new(), len: 0 }
    }

    /// An empty buffer with `cap` zero bytes of spare room.
    pub fn _with_capacity(cap: usize) -> (r: Result<Self, Error>)
        ensures
            match r {
                Ok(this) => this.inv() && this.all() == zeros(cap as nat) && this.spec_len() == 0,
                Err(e) => e == Error::AllocationError,
            },
            cap == 0 ==> r is Ok,
    {
        let mut this = Self::_new();
        match this.grow(cap) {
            Ok(()) => {
                assert(this.all() =~= zeros(cap as nat));
                Ok(this)
            },
            Err(e) => Err(e),
        }
    }

    /// Every initialised byte.
    pub fn _all(&self) -> (r: &[u8])
        ensures
            r@ == self.all(),
    {
        self.data.as_slice()
    }

    /// Every initialised byte, for writing. The invariant survives whatever is written, because
    /// a slice keeps its length.
    pub fn _all_mut(&mut self) -> (r: &mut [u8])
        ensures
            r@ == old(self).all(),
            final(self).all() == final(r)@,
            final(self).spec_len() == old(self).spec_len(),
            old(self).inv() && final(r)@.len() == r@.len() ==> final(self).inv(),
    {
        self.data.as_mut_slice()
    }

    /// The number of bytes that can be held without obtaining memory.
    pub fn _capacity(&self) -> (r: usize)
        ensures
            r == self.spec_capacity(),
    {
        self.data.len()
    }

    /// The number of bytes that make up the contents.
    pub fn len(&self) -> (r: usize)
        ensures
            r == self.spec_len(),
    {
        self.len
    }

    /// Drops the contents and keeps the memory.
    pub fn _clear(&mut self)
        ensures
            final(self).inv(),
            final(self).all() == old(self).all(),
            final(self).spec_len() == 0,
    {
        self.len = 0;
    }

    /// Moves the length as `bp` asks, obtaining zeroed memory where the capacity falls short.
    /// A request that can not be honoured leaves the buffer as it is.
    pub fn _expand(&mut self, bp: BufferMode) -> (r: Result<(), Error>)
        requires
            old(self).inv(),
        ensures
            final(self).inv(),
            match (r, bp.spec_params(old(self).spec_len() as usize)) {
                (Ok(()), Some((_, new_len))) => {
                    &&& final(self).all() == grown(old(self).all(), new_len as int)
                    &&& final(self).spec_len() == new_len
                },
                (Ok(()), None) => {
                    &&& final(self).all() == old(self).all()
                    &&& final(self).spec_len() == old(self).spec_len()
                },
                (Err(e), params) => {
                    &&& e == Error::AllocationError
                    &&& params is Some
                    &&& final(self).all() == old(self).all()
                    &&& final(self).spec_len() == old(self).spec_len()
                },
            },
            bp.spec_params(old(self).spec_len() as usize) matches Some((_, new_len)) && new_len
                <= old(self).spec_capacity() ==> r is Ok,
    {
        let len: usize = self.len;
        match bp.params(len) {
            None => Ok(()),
            Some((additional, new_len)) => {
                match self._reserve(additional) {
                    Ok(()) => {
                        self.len = new_len;
                        Ok(())
                    },
                    Err(e) => Err(e),
                }
            },
        }
    }

    /// Appends `other` to the contents.
    pub fn _extend_from_slice(&mut self, other: &[u8]) -> (r: Result<(), Error>)
        requires
            old(self).inv(),
        ensures
            final(self).inv(),
            match r {
                Ok(()) => {
                    &&& final(self).spec_len() == old(self).spec_len() + other@.len()
                    &&& final(self).all() == overwritten(
                        grown(old(self).all(), (old(self).spec_len() + other@.len()) as int),
                        old(self).spec_len() as int,
                        other@,
                    )
                    &&& final(self)@ == old(self)@ + other@
                },
                Err(e) => {
                    &&& e == Error::AllocationError
                    &&& final(self).all() == old(self).all()
                    &&& final(self).spec_len() == old(self).spec_len()
                },
            },
            old(self).spec_len() + other@.len() <= old(self).spec_capacity() ==> r is Ok,
            old(self).spec_len() + other@.len() > usize::MAX ==> r is Err,
    {
        let n: usize = other.len();
        match self._reserve(n) {
            Ok(()) => {
                let at: usize = self.len;
                copy_into(&mut self.data, at, other);
                self.len = at + n;
                assert(self@ =~= old(self)@ + other@);
                Ok(())
            },
            Err(e) => Err(e),
        }
    }

    /// Appends every slice of `others` to the contents and tells how many bytes that were.
    /// Either all of them are appended or none is.
    pub fn _extend_from_slices(&mut self, others: &[&[u8]]) -> (r: Result<usize, Error>)
        requires
            old(self).inv(),
        ensures
            final(self).inv(),
            match r {
                Ok(n) => {
                    &&& n == concat(others@).len()
                    &&& final(self).spec_len() == old(self).spec_len() + n
                    &&& final(self).all() == overwritten(
                        grown(old(self).all(), (old(self).spec_len() + n) as int),
                        old(self).spec_len() as int,
                        concat(others@),
                    )
                    &&& final(self)@ == old(self)@ + concat(others@)
                },
                Err(e) => {
                    &&& e == Error::AllocationError
                    &&& final(self).all() == old(self).all()
                    &&& final(self).spec_len() == old(self).spec_len()
                },
            },
            old(self).spec_len() + concat(others@).len() <= old(self).spec_capacity() ==> r is Ok,
            old(self).spec_len() + concat(others@).len() > usize::MAX ==> r is Err,
    {
        proof {
            self.lemma_bounds();
        }
        let total: usize = match concat_len(others) {
            Some(total) => total,
            None => {
                return Err(Error::AllocationError);
            },
        };
        match self._reserve(total) {
            Ok(()) => {},
            Err(e) => {
                return Err(e);
            },
        }
        let begin: usize = self.len;
        let cap: usize = self.data.len();
        let ghost reserved = self.data@;
        let mut at: usize = begin;
        let mut i: usize = 0;
        while i < others.len()
            invariant
                i <= others@.len(),
                total == concat(others@).len(),
                begin + total <= cap,
                self.data@.len() == cap,
                reserved.len() == cap,
                self.len == begin,
                at == begin + concat(others@.take(i as int)).len(),
                self.data@ == overwritten(reserved, begin as int, concat(others@.take(i as int))),
            decreases others@.len() - i,
        {
            let other: &[u8] = others[i];
            proof {
                lemma_concat_take(others@, i as int);
                lemma_concat_take_len(others@, i as int + 1);
            }
            copy_into(&mut self.data, at, other);
            assert(self.data@ =~= overwritten(
                reserved,
                begin as int,
                concat(others@.take(i as int + 1)),
            ));
            at = at + other.len();
            i += 1;
        }
        proof {
            assert(others@.take(others@.len() as int) =~= others@);
        }
        self.len = at;
        assert(self@ =~= old(self)@ + concat(others@));
        Ok(total)
    }

    /// Makes sure that `additional` more bytes fit behind the contents. Obtained memory is
    /// zeroed; the capacity never shrinks.
    pub fn _reserve(&mut self, additional: usize) -> (r: Result<(), Error>)
        requires
            old(self).inv(),
        ensures
            final(self).inv(),
            final(self).spec_len() == old(self).spec_len(),
            match r {
                Ok(()) => final(self).all() == grown(
                    old(self).all(),
                    (old(self).spec_len() + additional) as int,
                ),
                Err(e) => e == Error::AllocationError && final(self).all() == old(self).all(),
            },
            old(self).spec_len() + additional <= old(self).spec_capacity() ==> r is Ok,
            old(self).spec_len() + additional > usize::MAX ==> r is Err,
    {
        proof {
            self.lemma_bounds();
        }
        match self.len.checked_add(additional) {
            Some(cap) => self.grow(cap),
            None => Err(Error::AllocationError),
        }
    }

    /// Moves the length to `len`, or to the capacity if `len` lies behind it.
    pub fn _set_len(&mut self, len: usize)
        requires
            old(self).inv(),
        ensures
            final(self).inv(),
            final(self).all() == old(self).all(),
            final(self).spec_len() == if len <= old(self).spec_capacity() {
                len as nat
            } else {
                old(self).spec_capacity()
            },
    {
        let cap: usize = self.data.len();
        self.len = if len <= cap {
            len
        } else {
            cap
        };
    }

    /// Shortens the contents to `len` bytes. A `len` behind the length changes nothing.
    pub fn _truncate(&mut self, len: usize)
        requires
            old(self).inv(),
        ensures
            final(self).inv(),
            final(self).all() == old(self).all(),
            final(self).spec_len() == if len < old(self).spec_len() {
                len as nat
            } else {
                old(self).spec_len()
            },
    {
        if len < self.len {
            self.len = len;
        }
    }

    /// The contents.
    pub fn as_slice(&self) -> (r: &[u8])
        requires
            self.inv(),
        ensures
            r@ == self@,
    {
        vstd::slice::slice_subrange(self.data.as_slice(), 0, self.len)
    }

    /// The contents, for writing. The invariant survives whatever is written, because a slice
    /// keeps its length.
    pub fn as_slice_mut(&mut self) -> (r: &mut [u8])
        requires
            old(self).inv(),
        ensures
            r@ == old(self)@,
            final(self).spec_len() == old(self).spec_len(),
            final(self).all() == final(r)@ + old(self).all().subrange(
                old(self).spec_len() as int,
                old(self).spec_capacity() as int,
            ),
            final(r)@.len() == r@.len() ==> final(self).inv() && final(self)@ == final(r)@,
    {
        let len: usize = self.len;
        let (head, _) = self.data.as_mut_slice().split_at_mut(len);
        proof {
            let rest = old(self).all().subrange(
                old(self).spec_len() as int,
                old(self).spec_capacity() as int,
            );
            assert(final(head)@.len() == head@.len() ==> (final(head)@ + rest).subrange(
                0,
                len as int,
            ) =~= final(head)@);
        }
        head
    }

    /// Appends `buf` to the contents and tells how many bytes were taken: all of them.
    pub fn write(&mut self, buf: &[u8]) -> (r: Result<usize, Error>)
        requires
            old(self).inv(),
        ensures
            final(self).inv(),
            match r {
                Ok(n) => n == buf@.len() && final(self)@ == old(self)@ + buf@,
                Err(e) => {
                    &&& e == Error::AllocationError
                    &&& final(self).all() == old(self).all()
                    &&& final(self).spec_len() == old(self).spec_len()
                },
            },
            old(self).spec_len() + buf@.len() <= old(self).spec_capacity() ==> r is Ok,
    {
        match self._extend_from_slice(buf) {
            Ok(()) => Ok(buf.len()),
            Err(e) => Err(e),
        }
    }

    /// Nothing is held back, so there is nothing to do.
    pub fn flush(&mut self) -> (r: Result<(), Error>)
        ensures
            r is Ok,
            *final(self) == *old(self),
    {
        Ok(())
    }

    /// Gives the contents away as a vector without spare bytes.
    pub fn into_vector(self) -> (r: Vec<u8>)
        requires
            self.inv(),
        ensures
            r@ == self@,
    {
        let mut data = self.data;
        data.truncate(self.len);
        data
    }

    /// Raises the capacity to `cap` bytes, zeroing what is obtained.
    fn grow(&mut self, cap: usize) -> (r: Result<(), Error>)
        requires
            old(self).len <= old(self).data@.len() || old(self).len <= cap,
        ensures
            final(self).len == old(self).len,
            match r {
                Ok(()) => final(self).data@ == grown(old(self).data@, cap as int),
                Err(e) => e == Error::AllocationError && final(self).data@ == old(self).data@,
            },
            cap <= old(self).data@.len() ==> r is Ok,
    {
        let prev_cap: usize = self.data.len();
        if cap <= prev_cap {
            return Ok(());
        }
        match self.data.try_reserve(cap - prev_cap) {
            Ok(()) => {
                self.fill_remaining_capacity(cap);
                Ok(())
            },
            Err(_) => Err(Error::AllocationError),
        }
    }

    /// Appends zero bytes until `cap` bytes are initialised.
    fn fill_remaining_capacity(&mut self, cap: usize)
        requires
            old(self).data@.len() <= cap,
        ensures
            final(self).len == old(self).len,
            final(self).data@ == grown(old(self).data@, cap as int),
    {
        self.data.resize(cap, 0u8);
        assert(self.data@ =~= grown(old(self).data@, cap as int));
    }
}

impl Default for FilledBuffer {
    /// An empty buffer that holds no memory.
    fn default() -> (r: Self)
        ensures
            r.inv(),
            r.all() == Seq::<u8>::empty(),
            r.spec_len() == 0,
    {
        Self::_new()
    }
}

impl core::ops::Deref for FilledBuffer {
    type Target = [u8];

    /// The contents, as far as they lie inside what is held.
    fn deref(&self) -> (r: &[u8])
        ensures
            self.inv() ==> r@ == self@,
    {
        let all = self.data.as_slice();
        if self.len <= all.len() {
            vstd::slice::slice_subrange(all, 0, self.len)
        } else {
            all
        }
    }
}

impl From<Vec<u8>> for FilledBuffer {
    /// Takes over `from`: its elements become the contents, with no spare room.
    fn from(from: Vec<u8>) -> (r: Self)
        ensures
            r.inv(),
            r.all() == from@,
            r.spec_len() == from@.len(),
    {
        Self::_from_vector(from)
    }
}

impl vstd::std_specs::convert::FromSpecImpl<Vec<u8>> for FilledBuffer {
    open spec fn obeys_from_spec() -> bool {
        true
    }

    open spec fn from_spec(from: Vec<u8>) -> Self {
        FilledBuffer::spec_from_vector(from)
    }
}

/// The number of bytes in all of `slices`, unless it exceeds what a length can hold.
pub fn concat_len(slices: &[&[u8]]) -> (r: Option<usize>)
    ensures
        match r {
            Some(n) => n == concat(slices@).len(),
            None => concat(slices@).len() > usize::MAX,
        },
{
    let mut total: usize = 0;
    let mut i: usize = 0;
    while i < slices.len()
        invariant
            i <= slices@.len(),
            total == concat(slices@.take(i as int)).len(),
        decreases slices@.len() - i,
    {
        proof {
            lemma_concat_take(slices@, i as int);
            lemma_concat_take_len(slices@, i as int + 1);
        }
        match total.checked_add(slices[i].len()) {
            Some(next) => {
                total = next;
            },
            None => {
                return None;
            },
        }
        i += 1;
    }
    proof {
        assert(slices@.take(slices@.len() as int) =~= slices@);
    }
    Some(total)
}

/// Taking one more slice appends that slice's bytes.
pub proof fn lemma_concat_take(slices: Seq<&[u8]>, i: int)
    requires
        0 <= i < slices.len(),
    ensures
        concat(slices.take(i + 1)) == concat(slices.take(i)) + slices[i]@,
{
    assert(slices.take(i + 1).drop_last() =~= slices.take(i));
}

/// The first slices never hold more bytes than all of them.
pub proof fn lemma_concat_take_len(slices: Seq<&[u8]>, i: int)
    requires
        0 <= i <= slices.len(),
    ensures
        concat(slices.take(i)).len() <= concat(slices).len(),
    decreases slices.len() - i,
{
    if i == slices.len() {
        assert(slices.take(i) =~= slices);
    } else {
        lemma_concat_take(slices, i);
        lemma_concat_take_len(slices, i + 1);
    }
}

} // verus!
