//! A list of header fields packed into one run of bytes.

use crate::error::Error;
use crate::misc::bytes::bytes_eq;
use crate::misc::filled_buffer::{append_bytes, concat, concat_len, lemma_concat_take};
use crate::misc::lease::{Lease, LeaseMut};
use vstd::prelude::*;

verus! {

/// Determines how trailers are placed in the headers.
#[derive(Clone, Copy, Debug, PartialEq, Eq, Structural)]
pub enum Trailers {
    /// Does not have trailers.
    Absent,
    /// Trailers are arbitrary placed inside the headers.
    Mixed,
    /// All trailers are positioned at the end of the headers, from the given position on.
    Tail(usize),
}

impl Trailers {
    /// If there is at least one trailer header, of any type.
    pub fn has_any(self) -> (r: bool)
        ensures
            r == (self != Trailers::Absent),
    {
        match self {
            Trailers::Absent => false,
            Trailers::Mixed => true,
            Trailers::Tail(_) => true,
        }
    }

    /// The placement after one more field was appended behind `prev_len` fields: a first trailer
    /// opens a tail, a trailer inside a tail keeps it, and an ordinary field behind any trailer
    /// mixes them for good.
    pub open spec fn next(self, is_trailer: bool, prev_len: usize) -> Trailers {
        if is_trailer {
            match self {
                Trailers::Mixed => Trailers::Mixed,
                Trailers::Absent => Trailers::Tail(prev_len),
                Trailers::Tail(idx) => Trailers::Tail(idx),
            }
        } else {
            match self {
                Trailers::Absent => Trailers::Absent,
                _ => Trailers::Mixed,
            }
        }
    }
}

/// What a header field says, whatever the shape of its value.
pub struct HeaderView {
    /// If the name/value should not be cached.
    pub is_sensitive: bool,
    /// If the field was sent behind the body.
    pub is_trailer: bool,
    /// Header name.
    pub name: Seq<u8>,
    /// Header value.
    pub value: Seq<u8>,
}

/// A field of an HTTP request or response.
#[derive(Clone, Copy, Debug, PartialEq)]
pub struct Header<'any, V> {
    /// If the name/value should NOT be cached.
    ///
    /// The applicability of this parameter depends on the HTTP version.
    pub is_sensitive: bool,
    /// Trailers are added at the end of a message.
    ///
    /// The applicability and semantics depends on the HTTP version.
    pub is_trailer: bool,
    /// Header name.
    pub name: &'any [u8],
    /// Header value.
    pub value: V,
}

impl<'any, V> Header<'any, V> {
    /// Sets `is_sensitive` and `is_trailer` to `false`.
    pub fn from_name_and_value(name: &'any [u8], value: V) -> (r: Self)
        ensures
            r == (Header { is_sensitive: false, is_trailer: false, name, value }),
    {
        Self { is_sensitive: false, is_trailer: false, name, value }
    }
}

impl<'any, 'value> View for Header<'any, &'value [u8]> {
    type V = HeaderView;

    open spec fn view(&self) -> HeaderView {
        HeaderView {
            is_sensitive: self.is_sensitive,
            is_trailer: self.is_trailer,
            name: self.name@,
            value: self.value@,
        }
    }
}

impl<'any, 'value> View for Header<'any, &'value [&'value [u8]]> {
    type V = HeaderView;

    /// The value is what its pieces spell when put one after the other.
    open spec fn view(&self) -> HeaderView {
        HeaderView {
            is_sensitive: self.is_sensitive,
            is_trailer: self.is_trailer,
            name: self.name@,
            value: concat(self.value@),
        }
    }
}

/// The number of bytes that the names and values of `headers` take.
pub open spec fn total_len(headers: Seq<HeaderView>) -> nat
    decreases headers.len(),
{
    if headers.len() == 0 {
        0
    } else {
        total_len(headers.drop_last()) + headers.last().name.len() + headers.last().value.len()
    }
}

/// The position of the first trailer of `headers`, or their number if there is none.
pub open spec fn first_trailer(headers: Seq<HeaderView>) -> int
    decreases headers.len(),
{
    if headers.len() == 0 {
        0
    } else {
        let before = first_trailer(headers.drop_last());
        if before < headers.len() - 1 || headers.last().is_trailer {
            before
        } else {
            headers.len() as int
        }
    }
}

/// How the trailers of `headers` are placed: none at all, one unbroken run at the end that
/// starts at the given position, or anything else.
pub open spec fn trailers_of(headers: Seq<HeaderView>) -> Trailers {
    let first = first_trailer(headers);
    if first == headers.len() {
        Trailers::Absent
    } else if forall|i: int| first <= i < headers.len() ==> (#[trigger] headers[i]).is_trailer {
        Trailers::Tail(first as usize)
    } else {
        Trailers::Mixed
    }
}

/// `first_trailer` is what its name says: no field in front of it is a trailer, and it is one
/// itself unless it lies behind the last field.
pub proof fn lemma_first_trailer(headers: Seq<HeaderView>)
    ensures
        0 <= first_trailer(headers) <= headers.len(),
        forall|i: int| 0 <= i < first_trailer(headers) ==> !(#[trigger] headers[i]).is_trailer,
        first_trailer(headers) < headers.len() ==> headers[first_trailer(headers)].is_trailer,
    decreases headers.len(),
{
    if headers.len() > 0 {
        lemma_first_trailer(headers.drop_last());
        assert forall|i: int| 0 <= i < first_trailer(headers) implies !(
        #[trigger] headers[i]).is_trailer by {
            if i < headers.len() - 1 {
                assert(headers[i] == headers.drop_last()[i]);
            }
        }
        if first_trailer(headers) < headers.len() - 1 {
            assert(headers[first_trailer(headers)] == headers.drop_last()[first_trailer(
                headers.drop_last(),
            )]);
        }
    }
}

/// Appending one field moves the placement of the trailers by one step of [`Trailers::next`]:
/// the tag that is kept while pushing is the placement of what was pushed.
pub proof fn lemma_trailers_push(headers: Seq<HeaderView>, header: HeaderView)
    requires
        headers.len() <= usize::MAX,
    ensures
        trailers_of(headers.push(header)) == trailers_of(headers).next(
            header.is_trailer,
            headers.len() as usize,
        ),
{
    let pushed = headers.push(header);
    assert(pushed.drop_last() =~= headers);
    lemma_first_trailer(headers);
    let first = first_trailer(headers);
    assert forall|i: int| 0 <= i < headers.len() implies #[trigger] pushed[i] == headers[i] by {}
    if first < headers.len() {
        assert(first_trailer(pushed) == first);
        if forall|i: int| first <= i < headers.len() ==> (#[trigger] headers[i]).is_trailer {
            if header.is_trailer {
                assert forall|i: int| first <= i < pushed.len() implies (
                #[trigger] pushed[i]).is_trailer by {
                    if i < headers.len() {
                        assert(headers[i].is_trailer);
                    }
                }
            } else {
                assert(!pushed[headers.len() as int].is_trailer);
            }
        } else {
            let i = choose|i: int| first <= i < headers.len() && !(#[trigger] headers[i]).is_trailer;
            assert(!pushed[i].is_trailer);
        }
    } else {
        if header.is_trailer {
            assert(first_trailer(pushed) == headers.len());
            assert forall|i: int| first_trailer(pushed) <= i < pushed.len() implies (
            #[trigger] pushed[i]).is_trailer by {}
        }
    }
}

/// `i` is the position of the first field of `headers` that is called `name`.
pub open spec fn is_first_named(headers: Seq<HeaderView>, name: Seq<u8>, i: int) -> bool {
    &&& 0 <= i < headers.len()
    &&& headers[i].name == name
    &&& forall|j: int| 0 <= j < i ==> (#[trigger] headers[j]).name != name
}

/// No field of `headers` is called `name`.
pub open spec fn is_unnamed(headers: Seq<HeaderView>, name: Seq<u8>) -> bool {
    forall|j: int| 0 <= j < headers.len() ==> (#[trigger] headers[j]).name != name
}

#[derive(Clone, Copy, Debug)]
struct HeaderParts {
    header_begin: usize,
    header_end: usize,
    header_len: usize,
    header_name_end: usize,
    is_sensitive: bool,
    is_trailer: bool,
}

impl HeaderParts {
    /// The field that the offsets cut out of `bytes`.
    spec fn cut(self, bytes: Seq<u8>) -> HeaderView {
        HeaderView {
            is_sensitive: self.is_sensitive,
            is_trailer: self.is_trailer,
            name: bytes.subrange(self.header_begin as int, self.header_name_end as int),
            value: bytes.subrange(self.header_name_end as int, self.header_end as int),
        }
    }

    /// The offsets are ordered and the recorded length is the distance between the outer ones.
    spec fn wf(self) -> bool {
        &&& self.header_begin <= self.header_name_end <= self.header_end
        &&& self.header_len == self.header_end - self.header_begin
    }
}

/// List of pairs sent and received on every request/response.
///
/// Names and values lie one after the other in a single run of bytes, in the order in which
/// they were pushed; a table tells where each field begins, where its name ends and where the
/// field ends.
#[derive(Debug)]
pub struct Headers {
    bytes: Vec<u8>,
    headers_parts: Vec<HeaderParts>,
    trailers: Trailers,
}

impl View for Headers {
    type V = Seq<HeaderView>;

    /// The fields, oldest first.
    closed spec fn view(&self) -> Seq<HeaderView> {
        Seq::new(self.headers_parts@.len(), |i: int| self.headers_parts@[i].cut(self.bytes@))
    }
}

impl Headers {
    /// The fields lie back to back and fill the bytes exactly.
    pub closed spec fn inv(&self) -> bool {
        let parts = self.headers_parts@;
        &&& forall|i: int| 0 <= i < parts.len() ==> (#[trigger] parts[i]).wf()
        &&& parts.len() > 0 ==> parts[0].header_begin == 0
        &&& forall|i: int, j: int|
            0 <= i && j == i + 1 && j < parts.len() ==> (#[trigger] parts[i]).header_end == (
            #[trigger] parts[j]).header_begin
        &&& self.bytes@.len() == if parts.len() == 0 {
            0
        } else {
            parts.last().header_end as int
        }
    }

    /// The number of bytes that all fields take.
    pub closed spec fn spec_bytes_len(&self) -> nat {
        self.bytes@.len()
    }

    /// The recorded placement of the trailers.
    pub closed spec fn spec_trailers(&self) -> Trailers {
        self.trailers
    }

    /// The recorded placement of the trailers is their true placement. Pushing keeps this;
    /// popping may lose it, because the record is not revised when a field leaves.
    pub open spec fn trailers_are_exact(&self) -> bool {
        self.spec_trailers() == trailers_of(self@)
    }

    /// Every field ends where the bytes end or before.
    proof fn lemma_ends(&self, j: int)
        requires
            self.inv(),
            0 <= j < self.headers_parts@.len(),
        ensures
            self.headers_parts@[j].header_end <= self.bytes@.len(),
        decreases self.headers_parts@.len() - j,
    {
        let parts = self.headers_parts@;
        if j < parts.len() - 1 {
            self.lemma_ends(j + 1);
            assert(parts[j + 1].wf());
        }
    }

    /// A field ends where a later one ends or before, and the last one ends with the bytes.
    proof fn lemma_ordered(&self, i: int, j: int)
        requires
            self.inv(),
            0 <= i <= j < self.headers_parts@.len(),
        ensures
            self.headers_parts@[i].header_end <= self.headers_parts@[j].header_end,
            self.headers_parts@[j].header_end <= self.bytes@.len(),
            self.headers_parts@[i].wf(),
        decreases j - i,
    {
        let parts = self.headers_parts@;
        assert(parts[i].wf());
        self.lemma_ends(j);
        if i < j {
            self.lemma_ordered(i + 1, j);
            assert(parts[i + 1].wf());
        }
    }

    /// The first `n` fields take exactly the bytes in front of the `n`-th field.
    proof fn lemma_total_len_prefix(&self, n: int)
        requires
            self.inv(),
            0 <= n <= self.headers_parts@.len(),
        ensures
            total_len(self@.take(n)) == if n == 0 {
                0
            } else {
                self.headers_parts@[n - 1].header_end as int
            },
        decreases n,
    {
        let parts = self.headers_parts@;
        if n > 0 {
            self.lemma_total_len_prefix(n - 1);
            self.lemma_ordered(n - 1, n - 1);
            assert(self@.take(n).drop_last() =~= self@.take(n - 1));
            assert(self@.take(n).last() == parts[n - 1].cut(self.bytes@));
            assert(parts[n - 1].wf());
        }
    }

    /// The fields number as many as the table tells and take, all together, exactly the bytes
    /// that are held: no byte belongs to no field.
    pub proof fn lemma_lengths(&self)
        requires
            self.inv(),
        ensures
            total_len(self@) == self.spec_bytes_len(),
            self@.len() <= usize::MAX,
            self.spec_bytes_len() <= usize::MAX,
    {
        self.lemma_total_len_prefix(self.headers_parts@.len() as int);
        assert(self@.take(self@.len() as int) =~= self@);
        assert(self.headers_parts.len() == self.headers_parts@.len());
        assert(self.bytes.len() == self.bytes@.len());
    }

    /// Empty instance.
    pub fn new() -> (r: Self)
        ensures
            r.inv(),
            r@ == Seq::<HeaderView>::empty(),
            r.spec_bytes_len() == 0,
            r.spec_trailers() == Trailers::Absent,
            r.trailers_are_exact(),
    {
        let r = Self { bytes: Vec::new(), headers_parts: Vec::new(), trailers: Trailers::Absent };
        assert(r@ =~= Seq::<HeaderView>::empty());
        r
    }

    /// Pre-allocates room for `bytes` bytes of names and values and for `headers` fields.
    pub fn with_capacity(bytes: usize, headers: usize) -> (r: Result<Self, Error>)
        ensures
            match r {
                Ok(this) => {
                    &&& this.inv()
                    &&& this@ == Seq::<HeaderView>::empty()
                    &&& this.spec_bytes_len() == 0
                    &&& this.spec_trailers() == Trailers::Absent
                    &&& this.trailers_are_exact()
                },
                Err(e) => e == Error::AllocationError,
            },
            bytes == 0 && headers == 0 ==> r is Ok,
    {
        let mut this = Self::new();
        match this.reserve(bytes, headers) {
            Ok(()) => Ok(this),
            Err(e) => Err(e),
        }
    }

    /// The amount of bytes used by all of the headers.
    pub fn bytes_len(&self) -> (r: usize)
        ensures
            r == self.spec_bytes_len(),
    {
        self.bytes.len()
    }

    /// Clears the internal buffer "erasing" all previously inserted elements.
    pub fn clear(&mut self)
        ensures
            final(self).inv(),
            final(self)@ == Seq::<HeaderView>::empty(),
            final(self).spec_bytes_len() == 0,
            final(self).spec_trailers() == Trailers::Absent,
            final(self).trailers_are_exact(),
    {
        self.bytes.clear();
        self.headers_parts.clear();
        self.trailers = Trailers::Absent;
        assert(self@ =~= Seq::<HeaderView>::empty());
    }

    /// The number of headers.
    pub fn headers_len(&self) -> (r: usize)
        ensures
            r == self@.len(),
    {
        self.headers_parts.len()
    }

    /// Reserves capacity for at least `bytes` more bytes to be inserted. The same thing is
    /// applied to the number of headers. What is held does not change, whatever the outcome.
    pub fn reserve(&mut self, bytes: usize, headers: usize) -> (r: Result<(), Error>)
        ensures
            final(self).inv() == old(self).inv(),
            final(self)@ == old(self)@,
            final(self).spec_bytes_len() == old(self).spec_bytes_len(),
            final(self).spec_trailers() == old(self).spec_trailers(),
            r matches Err(e) ==> e == Error::AllocationError,
            bytes == 0 && headers == 0 ==> r is Ok,
    {
        if bytes > 0 {
            match self.bytes.try_reserve(bytes) {
                Ok(()) => {},
                Err(_) => {
                    return Err(Error::AllocationError);
                },
            }
        }
        if headers > 0 {
            match self.headers_parts.try_reserve(headers) {
                Ok(()) => {},
                Err(_) => {
                    return Err(Error::AllocationError);
                },
            }
        }
        Ok(())
    }

    /// If this instance has one or more trailer headers.
    pub fn trailers(&self) -> (r: Trailers)
        ensures
            r == self.spec_trailers(),
    {
        self.trailers
    }

    /// Returns the header that is referenced by `idx`, if any.
    pub fn get_by_idx(&self, idx: usize) -> (r: Option<Header<'_, &[u8]>>)
        requires
            self.inv(),
        ensures
            match r {
                Some(header) => idx < self@.len() && header@ == self@[idx as int],
                None => idx >= self@.len(),
            },
    {
        if idx < self.headers_parts.len() {
            proof {
                self.lemma_ordered(idx as int, self.headers_parts@.len() - 1);
            }
            Some(Self::map(self.bytes.as_slice(), self.headers_parts[idx]))
        } else {
            None
        }
    }

    /// Returns the first header that is called `name`, if any.
    pub fn get_by_name(&self, name: &[u8]) -> (r: Option<Header<'_, &[u8]>>)
        requires
            self.inv(),
        ensures
            is_lookup(self@, name@, found(r)),
    {
        let n: usize = self.headers_parts.len();
        let mut i: usize = 0;
        while i < n
            invariant
                self.inv(),
                n == self@.len(),
                i <= n,
                forall|j: int| 0 <= j < i ==> (#[trigger] self@[j]).name != name@,
            decreases n - i,
        {
            proof {
                self.lemma_ordered(i as int, n - 1);
            }
            let header = Self::map(self.bytes.as_slice(), self.headers_parts[i]);
            if bytes_eq(header.name, name) {
                assert(is_first_named(self@, name@, i as int));
                return Some(header);
            }
            i += 1;
        }
        None
    }

    /// For each of `names`, the first header that is called so, if any.
    pub fn get_many_by_name<'this, const N: usize>(&'this self, names: [&[u8]; N]) -> (r: [Option<
        Header<'this, &'this [u8]>,
    >; N])
        requires
            self.inv(),
        ensures
            forall|k: int| 0 <= k < N ==> is_lookup(self@, names@[k]@, found(#[trigger] r@[k])),
    {
        let mut rslt: [Option<Header<'this, &'this [u8]>>; N] = [None;N];
        let mut k: usize = 0;
        while k < N
            invariant
                self.inv(),
                k <= N,
                forall|j: int| 0 <= j < k ==> is_lookup(self@, names@[j]@, found(#[trigger] rslt@[j])),
            decreases N - k,
        {
            let header = self.get_by_name(names[k]);
            rslt[k] = header;
            k += 1;
        }
        rslt
    }

    /// Retrieves all stored pairs, oldest first.
    pub fn iter(&self) -> (r: Vec<Header<'_, &[u8]>>)
        requires
            self.inv(),
        ensures
            r@.len() == self@.len(),
            forall|i: int| 0 <= i < r@.len() ==> (#[trigger] r@[i])@ == self@[i],
    {
        let n: usize = self.headers_parts.len();
        let mut rslt: Vec<Header<'_, &[u8]>> = Vec::new();
        let mut i: usize = 0;
        while i < n
            invariant
                self.inv(),
                n == self@.len(),
                i <= n,
                rslt@.len() == i,
                forall|j: int| 0 <= j < i ==> (#[trigger] rslt@[j])@ == self@[j],
            decreases n - i,
        {
            proof {
                self.lemma_ordered(i as int, n - 1);
            }
            rslt.push(Self::map(self.bytes.as_slice(), self.headers_parts[i]));
            i += 1;
        }
        rslt
    }

    /// Removes the last element and tells if there was one. The record of where the trailers
    /// are is left as it is.
    pub fn pop(&mut self) -> (r: bool)
        requires
            old(self).inv(),
        ensures
            final(self).inv(),
            final(self).spec_trailers() == old(self).spec_trailers(),
            r == (old(self)@.len() > 0),
            final(self)@ == if r {
                old(self)@.drop_last()
            } else {
                old(self)@
            },
            final(self).spec_bytes_len() == if r {
                old(self).spec_bytes_len() - old(self)@.last().name.len() - old(
                    self,
                )@.last().value.len()
            } else {
                old(self).spec_bytes_len() as int
            },
    {
        let ghost n = self.headers_parts@.len() as int;
        match self.headers_parts.pop() {
            None => false,
            Some(header_parts) => {
                proof {
                    assert(old(self).headers_parts@[n - 1].wf());
                    if n > 1 {
                        assert(old(self).headers_parts@[n - 2].header_end
                            == header_parts.header_begin);
                    }
                    assert forall|i: int| 0 <= i < n - 1 implies old(self).headers_parts@[i].header_end
                        <= header_parts.header_begin by {
                        old(self).lemma_ordered(i, n - 2);
                    }
                }
                self.bytes.truncate(header_parts.header_begin);
                proof {
                    assert forall|i: int| 0 <= i < n - 1 implies (
                    #[trigger] self.headers_parts@[i]).cut(self.bytes@) == old(
                        self,
                    ).headers_parts@[i].cut(old(self).bytes@) by {
                        let part = old(self).headers_parts@[i];
                        assert(part.wf());
                        assert(part.header_end <= header_parts.header_begin);
                        assert(part.cut(self.bytes@).name =~= part.cut(old(self).bytes@).name);
                        assert(part.cut(self.bytes@).value =~= part.cut(old(self).bytes@).value);
                    }
                    assert(self@ =~= old(self)@.drop_last());
                }
                true
            },
        }
    }

    /// The number of bytes that `header_name` and every piece of `values` take together,
    /// unless that number exceeds what a length can hold.
    pub fn header_len(header_name: &[u8], values: &[&[u8]]) -> (r: Option<usize>)
        ensures
            match r {
                Some(n) => n == header_name@.len() + concat(values@).len(),
                None => header_name@.len() + concat(values@).len() > usize::MAX,
            },
    {
        match concat_len(values) {
            Some(n) => header_name.len().checked_add(n),
            None => None,
        }
    }

    /// Moves the record of where the trailers are by one step, for a field that was appended
    /// behind `prev_len` others.
    pub fn manage_trailers(is_trailer: bool, prev_len: usize, trailers: &mut Trailers)
        ensures
            *final(trailers) == old(trailers).next(is_trailer, prev_len),
    {
        *trailers = if is_trailer {
            match *trailers {
                Trailers::Mixed => Trailers::Mixed,
                Trailers::Absent => Trailers::Tail(prev_len),
                Trailers::Tail(idx) => Trailers::Tail(idx),
            }
        } else {
            match *trailers {
                Trailers::Mixed => Trailers::Mixed,
                Trailers::Tail(_) => Trailers::Mixed,
                Trailers::Absent => Trailers::Absent,
            }
        };
    }

    /// If `header` does not fit behind what is held, whatever memory there is.
    pub open spec fn push_overflows(&self, header: HeaderView) -> bool {
        ||| self.spec_bytes_len() + header.name.len() + header.value.len() > usize::MAX
        ||| self@.len() + 1 > usize::MAX
    }

    /// Pushes a new header with its value composed by several slices.
    ///
    /// Room is asked for first, so that a refusal leaves everything as it was.
    pub fn push_from_iter(&mut self, header: Header<'_, &[&[u8]]>) -> (r: Result<(), Error>)
        requires
            old(self).inv(),
        ensures
            final(self).inv(),
            match r {
                Ok(()) => {
                    &&& !old(self).push_overflows(header@)
                    &&& final(self)@ == old(self)@.push(header@)
                    &&& final(self).spec_trailers() == old(self).spec_trailers().next(
                        header.is_trailer,
                        old(self)@.len() as usize,
                    )
                    &&& final(self).spec_bytes_len() == old(self).spec_bytes_len()
                        + header@.name.len() + header@.value.len()
                },
                Err(e) => {
                    &&& final(self)@ == old(self)@
                    &&& final(self).spec_trailers() == old(self).spec_trailers()
                    &&& final(self).spec_bytes_len() == old(self).spec_bytes_len()
                    &&& e == if old(self).push_overflows(header@) {
                        Error::CapacityOverflow
                    } else {
                        Error::AllocationError
                    }
                },
            },
            r is Ok && old(self).trailers_are_exact() ==> final(self).trailers_are_exact(),
    {
        let reserved = match self.checked_header_len(&header) {
            Some(header_len) => self.reserve(header_len, 1),
            None => Ok(()),
        };
        self.push_reserved(header, reserved)
    }

    /// The failure that pushing `header` answers with when asking for room was answered with
    /// `reserved`, if any: a field that can never fit is refused for that reason, and otherwise
    /// a refusal of room is passed on.
    pub open spec fn spec_push_reserved(
        &self,
        header: HeaderView,
        reserved: Result<(), Error>,
    ) -> Option<Error> {
        if self.push_overflows(header) {
            Some(Error::CapacityOverflow)
        } else {
            failure(reserved)
        }
    }

    /// Pushes `header` after room for it was asked for; `reserved` is the answer that was
    /// given. With a refusal nothing is pushed and the refusal is handed back.
    #[verifier::loop_isolation(false)]
    pub fn push_reserved(
        &mut self,
        header: Header<'_, &[&[u8]]>,
        reserved: Result<(), Error>,
    ) -> (r: Result<(), Error>)
        requires
            old(self).inv(),
        ensures
            final(self).inv(),
            failure(r) == old(self).spec_push_reserved(header@, reserved),
            match r {
                Ok(()) => {
                    &&& final(self)@ == old(self)@.push(header@)
                    &&& final(self).spec_trailers() == old(self).spec_trailers().next(
                        header.is_trailer,
                        old(self)@.len() as usize,
                    )
                    &&& final(self).spec_bytes_len() == old(self).spec_bytes_len()
                        + header@.name.len() + header@.value.len()
                },
                Err(_) => {
                    &&& final(self)@ == old(self)@
                    &&& final(self).spec_trailers() == old(self).spec_trailers()
                    &&& final(self).spec_bytes_len() == old(self).spec_bytes_len()
                },
            },
            r is Ok && old(self).trailers_are_exact() ==> final(self).trailers_are_exact(),
    {
        let header_len: usize = match self.checked_header_len(&header) {
            Some(header_len) => header_len,
            None => {
                return Err(Error::CapacityOverflow);
            },
        };
        match reserved {
            Ok(()) => {},
            Err(e) => {
                return Err(e);
            },
        }
        proof {
            old(self).lemma_lengths();
        }
        let header_begin: usize = self.bytes.len();
        append_bytes(&mut self.bytes, header.name);
        let header_name_end: usize = self.bytes.len();
        let values: &[&[u8]] = header.value;
        let mut i: usize = 0;
        while i < values.len()
            invariant
                i <= values@.len(),
                self.headers_parts == old(self).headers_parts,
                self.trailers == old(self).trailers,
                self.bytes@ == old(self).bytes@ + header.name@ + concat(values@.take(i as int)),
            decreases values@.len() - i,
        {
            proof {
                lemma_concat_take(values@, i as int);
            }
            append_bytes(&mut self.bytes, values[i]);
            assert(self.bytes@ =~= old(self).bytes@ + header.name@ + concat(
                values@.take(i as int + 1),
            ));
            i += 1;
        }
        proof {
            assert(values@.take(values@.len() as int) =~= values@);
        }
        let header_end: usize = self.bytes.len();
        let prev_len: usize = self.headers_parts.len();
        let header_parts = HeaderParts {
            header_begin,
            header_end,
            header_len,
            header_name_end,
            is_sensitive: header.is_sensitive,
            is_trailer: header.is_trailer,
        };
        self.headers_parts.push(header_parts);
        Self::manage_trailers(header.is_trailer, prev_len, &mut self.trailers);
        proof {
            let n = old(self).headers_parts@.len() as int;
            assert(header_parts.cut(self.bytes@).name =~= header@.name);
            assert(header_parts.cut(self.bytes@).value =~= header@.value);
            assert forall|i: int| 0 <= i < n implies (#[trigger] self.headers_parts@[i]).cut(
                self.bytes@,
            ) == old(self).headers_parts@[i].cut(old(self).bytes@) by {
                old(self).lemma_ordered(i, n - 1);
                assert(old(self).headers_parts@[i].wf());
                let part = old(self).headers_parts@[i];
                assert(part.cut(self.bytes@).name =~= part.cut(old(self).bytes@).name);
                assert(part.cut(self.bytes@).value =~= part.cut(old(self).bytes@).value);
            }
            assert(self@ =~= old(self)@.push(header@));
            if old(self).trailers_are_exact() {
                lemma_trailers_push(old(self)@, header@);
            }
        }
        Ok(())
    }

    /// If `headers` do not fit behind what is held, whatever memory there is.
    pub open spec fn push_many_overflows(&self, headers: Seq<HeaderView>) -> bool {
        ||| self.spec_bytes_len() + total_len(headers) > usize::MAX
        ||| self@.len() + headers.len() > usize::MAX
    }

    /// Similarly to [`Self::push_from_iter`], pushes several headers. Room for all of them is
    /// asked for at once: either every header is pushed or none is.
    #[verifier::loop_isolation(false)]
    pub fn push_from_iter_many<const N: usize>(
        &mut self,
        headers: [Header<'_, &[&[u8]]>; N],
    ) -> (r: Result<(), Error>)
        requires
            old(self).inv(),
        ensures
            final(self).inv(),
            match r {
                Ok(()) => {
                    &&& !old(self).push_many_overflows(views(headers@))
                    &&& final(self)@ == old(self)@ + views(headers@)
                    &&& final(self).spec_trailers() == trailers_after(
                        old(self).spec_trailers(),
                        old(self)@.len(),
                        views(headers@),
                    )
                    &&& final(self).spec_bytes_len() == old(self).spec_bytes_len() + total_len(
                        views(headers@),
                    )
                },
                Err(e) => {
                    &&& final(self)@ == old(self)@
                    &&& final(self).spec_trailers() == old(self).spec_trailers()
                    &&& final(self).spec_bytes_len() == old(self).spec_bytes_len()
                    &&& e == if old(self).push_many_overflows(views(headers@)) {
                        Error::CapacityOverflow
                    } else {
                        Error::AllocationError
                    }
                },
            },
            r is Ok && old(self).trailers_are_exact() ==> final(self).trailers_are_exact(),
    {
        let ghost all = views(headers@);
        proof {
            old(self).lemma_lengths();
        }
        let mut header_len: usize = 0;
        let mut i: usize = 0;
        while i < N
            invariant
                i <= N,
                header_len == total_len(all.take(i as int)),
            decreases N - i,
        {
            proof {
                lemma_total_len_take(all, i as int);
                lemma_total_len_take_le(all, i as int + 1);
            }
            let header = headers[i];
            header_len = match Self::header_len(header.name, header.value) {
                Some(len) => match header_len.checked_add(len) {
                    Some(sum) => sum,
                    None => {
                        return Err(Error::CapacityOverflow);
                    },
                },
                None => {
                    return Err(Error::CapacityOverflow);
                },
            };
            i += 1;
        }
        proof {
            assert(all.take(N as int) =~= all);
        }
        if self.bytes.len().checked_add(header_len).is_none() || self.headers_parts.len().checked_add(
            N,
        ).is_none() {
            return Err(Error::CapacityOverflow);
        }
        match self.reserve(header_len, N) {
            Ok(()) => {},
            Err(e) => {
                return Err(e);
            },
        }
        let mut i: usize = 0;
        while i < N
            invariant
                i <= N,
                self.inv(),
                self@ == old(self)@ + all.take(i as int),
                self.spec_bytes_len() == old(self).spec_bytes_len() + total_len(all.take(i as int)),
                self.spec_trailers() == trailers_after(
                    old(self).spec_trailers(),
                    old(self)@.len(),
                    all.take(i as int),
                ),
                old(self).trailers_are_exact() ==> self.trailers_are_exact(),
            decreases N - i,
        {
            proof {
                lemma_total_len_take(all, i as int);
                lemma_total_len_take_le(all, i as int + 1);
                assert(all.take(i as int + 1).drop_last() =~= all.take(i as int));
                assert(old(self)@ + all.take(i as int + 1) =~= (old(self)@ + all.take(
                    i as int,
                )).push(all[i as int]));
            }
            match self.push_reserved(headers[i], Ok(())) {
                Ok(()) => {},
                Err(e) => {
                    return Err(e);
                },
            }
            i += 1;
        }
        proof {
            assert(all.take(N as int) =~= all);
        }
        Ok(())
    }

    /// What the header `header`, whose value was formatted, says once its value is known.
    pub open spec fn formatted_view(header: Header<'_, Option<&[u8]>>) -> HeaderView {
        HeaderView {
            is_sensitive: header.is_sensitive,
            is_trailer: header.is_trailer,
            name: header.name@,
            value: match header.value {
                Some(value) => value@,
                None => Seq::empty(),
            },
        }
    }

    /// Pushes a header whose value was formatted; the value is what the formatting gave, or
    /// nothing if the formatting failed. Without a value nothing is pushed and
    /// [`Error::FormatError`] is handed back; with one, the header is pushed as
    /// [`Self::push_from_iter`] pushes it.
    pub fn push_formatted(&mut self, header: Header<'_, Option<&[u8]>>) -> (r: Result<(), Error>)
        requires
            old(self).inv(),
        ensures
            final(self).inv(),
            match r {
                Ok(()) => {
                    &&& header.value is Some
                    &&& !old(self).push_overflows(Self::formatted_view(header))
                    &&& final(self)@ == old(self)@.push(Self::formatted_view(header))
                    &&& final(self).spec_trailers() == old(self).spec_trailers().next(
                        header.is_trailer,
                        old(self)@.len() as usize,
                    )
                    &&& final(self).spec_bytes_len() == old(self).spec_bytes_len()
                        + header.name@.len() + Self::formatted_view(header).value.len()
                },
                Err(e) => {
                    &&& final(self)@ == old(self)@
                    &&& final(self).spec_trailers() == old(self).spec_trailers()
                    &&& final(self).spec_bytes_len() == old(self).spec_bytes_len()
                    &&& e == if header.value is None {
                        Error::FormatError
                    } else if old(self).push_overflows(Self::formatted_view(header)) {
                        Error::CapacityOverflow
                    } else {
                        Error::AllocationError
                    }
                },
            },
            r is Ok && old(self).trailers_are_exact() ==> final(self).trailers_are_exact(),
    {
        match header.value {
            None => Err(Error::FormatError),
            Some(value) => {
                let pieces: [&[u8]; 1] = [value];
                let pushed = Header {
                    is_sensitive: header.is_sensitive,
                    is_trailer: header.is_trailer,
                    name: header.name,
                    value: pieces.as_slice(),
                };
                proof {
                    reveal_with_fuel(concat, 2);
                    assert(pieces@.drop_last() =~= Seq::<&[u8]>::empty());
                    assert(pushed@.value =~= value@);
                    assert(pushed@ == Self::formatted_view(header));
                }
                self.push_from_iter(pushed)
            },
        }
    }

    /// Pushes a new header whose value is whatever `header.value` spells when it is formatted.
    /// A value whose formatter fails is not pushed, and nothing changes.
    pub fn push_from_fmt(&mut self, header: Header<'_, core::fmt::Arguments<'_>>) -> (r: Result<
        (),
        Error,
    >)
        requires
            old(self).inv(),
        ensures
            final(self).inv(),
            match r {
                Ok(()) => {
                    &&& final(self)@.len() == old(self)@.len() + 1
                    &&& final(self)@.drop_last() == old(self)@
                    &&& final(self)@.last().name == header.name@
                    &&& final(self)@.last().is_sensitive == header.is_sensitive
                    &&& final(self)@.last().is_trailer == header.is_trailer
                    &&& final(self).spec_trailers() == old(self).spec_trailers().next(
                        header.is_trailer,
                        old(self)@.len() as usize,
                    )
                },
                Err(e) => {
                    &&& final(self)@ == old(self)@
                    &&& final(self).spec_trailers() == old(self).spec_trailers()
                    &&& final(self).spec_bytes_len() == old(self).spec_bytes_len()
                    &&& (e == Error::FormatError || e == Error::CapacityOverflow || e
                        == Error::AllocationError)
                },
            },
            r is Ok && old(self).trailers_are_exact() ==> final(self).trailers_are_exact(),
    {
        let formatted: Option<Vec<u8>> = format_value(header.value);
        let value: Option<&[u8]> = match &formatted {
            Some(value) => Some(value.as_slice()),
            None => None,
        };
        let r = self.push_formatted(
            Header {
                is_sensitive: header.is_sensitive,
                is_trailer: header.is_trailer,
                name: header.name,
                value,
            },
        );
        proof {
            if r is Ok {
                assert(self@.drop_last() =~= old(self)@);
            }
        }
        r
    }

    /// The number of bytes that `header` takes, if it fits behind what is held.
    fn checked_header_len(&self, header: &Header<'_, &[&[u8]]>) -> (r: Option<usize>)
        ensures
            match r {
                Some(n) => !self.push_overflows(header@) && n == header@.name.len()
                    + header@.value.len(),
                None => self.push_overflows(header@),
            },
    {
        if self.headers_parts.len() == usize::MAX {
            return None;
        }
        match Self::header_len(header.name, header.value) {
            Some(header_len) => match self.bytes.len().checked_add(header_len) {
                Some(_) => Some(header_len),
                None => None,
            },
            None => None,
        }
    }

    /// The field that `header_parts` cuts out of `bytes`.
    fn map<'bytes>(bytes: &'bytes [u8], header_parts: HeaderParts) -> (r: Header<
        'bytes,
        &'bytes [u8],
    >)
        requires
            header_parts.wf(),
            header_parts.header_end <= bytes@.len(),
        ensures
            r@ == header_parts.cut(bytes@),
    {
        Header {
            is_sensitive: header_parts.is_sensitive,
            is_trailer: header_parts.is_trailer,
            name: vstd::slice::slice_subrange(
                bytes,
                header_parts.header_begin,
                header_parts.header_name_end,
            ),
            value: vstd::slice::slice_subrange(
                bytes,
                header_parts.header_name_end,
                header_parts.header_end,
            ),
        }
    }
}

impl Lease<Headers> for Headers {
    /// The headers themselves.
    fn lease(&self) -> (r: &Headers)
        ensures
            *r == *self,
    {
        self
    }
}

impl LeaseMut<Headers> for Headers {
    /// The headers themselves.
    fn lease_mut(&mut self) -> (r: &mut Headers)
        ensures
            *r == *old(self),
            *final(self) == *final(r),
    {
        self
    }
}

impl Default for Headers {
    /// Empty instance.
    fn default() -> (r: Self)
        ensures
            r.inv(),
            r@ == Seq::<HeaderView>::empty(),
            r.spec_trailers() == Trailers::Absent,
    {
        Self::new()
    }
}

/// What each of `headers` says, in their order.
pub open spec fn views(headers: Seq<Header<'_, &[&[u8]]>>) -> Seq<HeaderView> {
    Seq::new(headers.len(), |i: int| headers[i]@)
}

/// The record of where the trailers are after `headers` were pushed, one after the other,
/// behind `prev_len` fields whose record was `trailers`.
pub open spec fn trailers_after(trailers: Trailers, prev_len: nat, headers: Seq<HeaderView>) -> Trailers
    decreases headers.len(),
{
    if headers.len() == 0 {
        trailers
    } else {
        trailers_after(trailers, prev_len, headers.drop_last()).next(
            headers.last().is_trailer,
            (prev_len + headers.len() - 1) as usize,
        )
    }
}

/// Taking one more field adds that field's bytes.
pub proof fn lemma_total_len_take(headers: Seq<HeaderView>, i: int)
    requires
        0 <= i < headers.len(),
    ensures
        total_len(headers.take(i + 1)) == total_len(headers.take(i)) + headers[i].name.len()
            + headers[i].value.len(),
{
    assert(headers.take(i + 1).drop_last() =~= headers.take(i));
}

/// The first fields never take more bytes than all of them.
pub proof fn lemma_total_len_take_le(headers: Seq<HeaderView>, i: int)
    requires
        0 <= i <= headers.len(),
    ensures
        total_len(headers.take(i)) <= total_len(headers),
    decreases headers.len() - i,
{
    if i == headers.len() {
        assert(headers.take(i) =~= headers);
    } else {
        lemma_total_len_take(headers, i);
        lemma_total_len_take_le(headers, i + 1);
    }
}

/// A field that is pushed under a name that no held field has is what a lookup of that name
/// finds afterwards.
pub proof fn lemma_push_then_get(
    headers: Seq<HeaderView>,
    header: HeaderView,
    found: Option<HeaderView>,
)
    requires
        is_unnamed(headers, header.name),
        is_lookup(headers.push(header), header.name, found),
    ensures
        found == Some(header),
{
    let pushed = headers.push(header);
    assert(pushed[headers.len() as int] == header);
    match found {
        Some(_) => {
            let i = choose|i: int| is_first_named(pushed, header.name, i) && found == Some(pushed[i]);
            if i < headers.len() {
                assert(pushed[i] == headers[i]);
            }
        },
        None => {},
    }
}

/// The text that `value` spells, as bytes. This is `core::fmt::write` of the standard library
/// into an empty `String`; what it writes depends on the formatting code of whatever `value`
/// captured, so nothing is claimed of the text. A formatter that reports a failure gives
/// nothing.
#[verifier::external_body]
fn format_value(value: core::fmt::Arguments<'_>) -> (r: Option<Vec<u8>>) {
    let mut text = String::new();
    match core::fmt::write(&mut text, value) {
        Ok(()) => Some(text.into_bytes()),
        Err(_) => None,
    }
}

/// Formatting instructions together with what they capture, as the standard library hands them
/// to a formatter.
#[verifier::external_type_specification]
#[verifier::external_body]
pub struct ExArguments<'a>(core::fmt::Arguments<'a>);

/// The failure that `r` reports, if it reports one.
pub open spec fn failure(r: Result<(), Error>) -> Option<Error> {
    match r {
        Ok(_) => None,
        Err(e) => Some(e),
    }
}

/// What a lookup handed out, without the borrow.
pub open spec fn found(header: Option<Header<'_, &[u8]>>) -> Option<HeaderView> {
    match header {
        Some(header) => Some(header@),
        None => None,
    }
}

/// `found` is what looking for `name` in `headers` yields: the first field of that name, or
/// nothing if no field has it.
pub open spec fn is_lookup(headers: Seq<HeaderView>, name: Seq<u8>, found: Option<HeaderView>) -> bool {
    match found {
        Some(header) => exists|i: int| is_first_named(headers, name, i) && header == headers[i],
        None => is_unnamed(headers, name),
    }
}

} // verus!
