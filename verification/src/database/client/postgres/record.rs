//! Rows, as views over the bytes that arrived.

use crate::error::Error;
use crate::misc::bytes::{be_u32, u32_from_be};
use core::ops::Range;
use vstd::prelude::*;

verus! {

/// The length that announces a missing value.
pub const NULL_LEN: u32 = 0xffff_ffff;

/// The first `n` values that are laid out in `bytes` from `start` on: each is a length of four
/// bytes and as many bytes, and a missing value is the length -1 alone.
pub open spec fn spec_values(bytes: Seq<u8>, start: int, n: nat) -> Option<Seq<Option<Seq<u8>>>>
    decreases n,
{
    if n == 0 {
        Some(Seq::empty())
    } else if start < 0 || start + 4 > bytes.len() {
        None
    } else {
        let len = be_u32(bytes[start], bytes[start + 1], bytes[start + 2], bytes[start + 3]);
        if len == NULL_LEN {
            match spec_values(bytes, start + 4, (n - 1) as nat) {
                Some(rest) => Some(seq![None] + rest),
                None => None,
            }
        } else if start + 4 + len > bytes.len() {
            None
        } else {
            match spec_values(bytes, start + 4 + len, (n - 1) as nat) {
                Some(rest) => Some(seq![Some(bytes.subrange(start + 4, start + 4 + len))] + rest),
                None => None,
            }
        }
    }
}

/// Where the first `n` values lie that are laid out in `bytes` from `start` on, and for each
/// if it is missing; nothing if the bytes end too early.
pub open spec fn spec_offsets(bytes: Seq<u8>, start: int, n: nat) -> Option<
    Seq<(bool, Range<usize>)>,
>
    decreases n,
{
    if n == 0 {
        Some(Seq::empty())
    } else if start < 0 || start + 4 > bytes.len() {
        None
    } else {
        let len = be_u32(bytes[start], bytes[start + 1], bytes[start + 2], bytes[start + 3]);
        let entry = if len == NULL_LEN {
            (true, Range { start: (start + 4) as usize, end: (start + 4) as usize })
        } else {
            (false, Range { start: (start + 4) as usize, end: (start + 4 + len) as usize })
        };
        if len != NULL_LEN && start + 4 + len > bytes.len() {
            None
        } else {
            match spec_offsets(bytes, entry.1.end as int, (n - 1) as nat) {
                Some(rest) => Some(seq![entry] + rest),
                None => None,
            }
        }
    }
}

/// If `offsets` point inside `len` bytes.
pub open spec fn offsets_fit(offsets: Seq<(bool, Range<usize>)>, len: int) -> bool {
    forall|i: int|
        0 <= i < offsets.len() ==> (#[trigger] offsets[i]).1.start <= offsets[i].1.end <= len
}

/// The values that `offsets` cut out of `bytes`.
pub open spec fn values_of(bytes: Seq<u8>, offsets: Seq<(bool, Range<usize>)>) -> Seq<
    Option<Seq<u8>>,
> {
    Seq::new(
        offsets.len(),
        |i: int|
            if offsets[i].0 {
                None
            } else {
                Some(bytes.subrange(offsets[i].1.start as int, offsets[i].1.end as int))
            },
    )
}

/// Where the values lie tells the values: the offsets of the `n` values that are laid out in
/// `bytes` from `start` on cut out of `bytes` exactly those values, and there are offsets
/// exactly if there are values.
pub proof fn lemma_offsets_tell_values(bytes: Seq<u8>, start: int, n: nat)
    requires
        bytes.len() <= usize::MAX,
    ensures
        match spec_offsets(bytes, start, n) {
            Some(offsets) => offsets.len() == n && spec_values(bytes, start, n) == Some(
                values_of(bytes, offsets),
            ),
            None => spec_values(bytes, start, n) is None,
        },
    decreases n,
{
    if n == 0 {
        assert(values_of(bytes, Seq::empty()) =~= Seq::empty());
    } else if !(start < 0 || start + 4 > bytes.len()) {
        let len = be_u32(bytes[start], bytes[start + 1], bytes[start + 2], bytes[start + 3]);
        if len == NULL_LEN {
            lemma_offsets_tell_values(bytes, start + 4, (n - 1) as nat);
            let entry = (true, Range { start: (start + 4) as usize, end: (start + 4) as usize });
            match spec_offsets(bytes, start + 4, (n - 1) as nat) {
                Some(rest) => {
                    assert(values_of(bytes, seq![entry] + rest) =~= seq![None] + values_of(
                        bytes,
                        rest,
                    ));
                },
                None => {},
            }
        } else if start + 4 + len <= bytes.len() {
            lemma_offsets_tell_values(bytes, start + 4 + len, (n - 1) as nat);
            let entry = (
                false,
                Range { start: (start + 4) as usize, end: (start + 4 + len) as usize },
            );
            match spec_offsets(bytes, start + 4 + len, (n - 1) as nat) {
                Some(rest) => {
                    assert(values_of(bytes, seq![entry] + rest) =~= seq![
                        Some(bytes.subrange(start + 4, start + 4 + len)),
                    ] + values_of(bytes, rest));
                },
                None => {},
            }
        }
    }
}

/// A row without values is an empty row: nothing has to lie anywhere.
pub proof fn lemma_row_without_values(bytes: Seq<u8>, start: int)
    ensures
        spec_offsets(bytes, start, 0) == Some(Seq::<(bool, Range<usize>)>::empty()),
        spec_values(bytes, start, 0) == Some(Seq::<Option<Seq<u8>>>::empty()),
        values_of(bytes, Seq::empty()).len() == 0,
{
}

/// Finds the `n` values that are laid out in `bytes` from `start` on and appends where each of
/// them lies to `vb`. If the bytes end too early nothing is appended.
pub fn parse_values(bytes: &[u8], start: usize, n: u16, vb: &mut Vec<(bool, Range<usize>)>) -> (r:
    Result<(), Error>)
    requires
        start <= bytes@.len(),
    ensures
        match r {
            Ok(()) => {
                &&& final(vb)@.len() == old(vb)@.len() + n
                &&& final(vb)@.subrange(0, old(vb)@.len() as int) == old(vb)@
                &&& offsets_fit(
                    final(vb)@.subrange(old(vb)@.len() as int, final(vb)@.len() as int),
                    bytes@.len() as int,
                )
                &&& spec_values(bytes@, start as int, n as nat) == Some(
                    values_of(
                        bytes@,
                        final(vb)@.subrange(old(vb)@.len() as int, final(vb)@.len() as int),
                    ),
                )
                &&& spec_offsets(bytes@, start as int, n as nat) matches Some(offsets)
                    && final(vb)@ == old(vb)@ + offsets
            },
            Err(e) => {
                &&& e == Error::UnexpectedValueFromBytes
                &&& spec_values(bytes@, start as int, n as nat) is None
                &&& spec_offsets(bytes@, start as int, n as nat) is None
                &&& final(vb)@ == old(vb)@
            },
        },
{
    let len: usize = bytes.len();
    let begin: usize = vb.len();
    let mut at: usize = start;
    let mut i: u16 = 0;
    while i < n
        invariant
            len == bytes@.len(),
            i <= n,
            at <= len,
            begin == old(vb)@.len(),
            vb@.len() == begin + i,
            vb@.subrange(0, begin as int) == old(vb)@,
            offsets_fit(vb@.subrange(begin as int, vb@.len() as int), len as int),
            spec_offsets(bytes@, start as int, n as nat) == match spec_offsets(
                bytes@,
                at as int,
                (n - i) as nat,
            ) {
                Some(rest) => Some(vb@.subrange(begin as int, vb@.len() as int) + rest),
                None => None,
            },
            spec_values(bytes@, start as int, n as nat) == match spec_values(
                bytes@,
                at as int,
                (n - i) as nat,
            ) {
                Some(rest) => Some(
                    values_of(bytes@, vb@.subrange(begin as int, vb@.len() as int)) + rest,
                ),
                None => None,
            },
        decreases n - i,
    {
        if len - at < 4 {
            vb.truncate(begin);
            assert(vb@ =~= old(vb)@);
            return Err(Error::UnexpectedValueFromBytes);
        }
        let value_len: u32 = u32_from_be(bytes[at], bytes[at + 1], bytes[at + 2], bytes[at + 3]);
        let ghost before = vb@.subrange(begin as int, vb@.len() as int);
        let ghost prev = vb@;
        let entry: (bool, Range<usize>) = if value_len == NULL_LEN {
            (true, at + 4..at + 4)
        } else {
            if len - at - 4 < value_len as usize {
                vb.truncate(begin);
                assert(vb@ =~= old(vb)@);
                return Err(Error::UnexpectedValueFromBytes);
            }
            (false, at + 4..at + 4 + value_len as usize)
        };
        let next: usize = entry.1.end;
        vb.push(entry);
        proof {
            let after = vb@.subrange(begin as int, vb@.len() as int);
            assert(after =~= before.push(entry));
            assert(vb@.subrange(0, begin as int) =~= prev.subrange(0, begin as int));
            assert forall|j: int| 0 <= j < after.len() implies (#[trigger] after[j]).1.start
                <= after[j].1.end <= len by {
                if j < before.len() {
                    assert(after[j] == before[j]);
                }
            }
            let value = if entry.0 {
                None
            } else {
                Some(bytes@.subrange(at + 4, next as int))
            };
            assert(values_of(bytes@, after) =~= values_of(bytes@, before).push(value));
            match spec_values(bytes@, next as int, (n - i - 1) as nat) {
                Some(rest) => {
                    assert(values_of(bytes@, before) + (seq![value] + rest) =~= values_of(
                        bytes@,
                        before,
                    ).push(value) + rest);
                },
                None => {},
            }
            match spec_offsets(bytes@, next as int, (n - i - 1) as nat) {
                Some(rest) => {
                    assert(before + (seq![entry] + rest) =~= before.push(entry) + rest);
                },
                None => {},
            }
        }
        at = next;
        i += 1;
    }
    proof {
        let after = vb@.subrange(begin as int, vb@.len() as int);
        assert(values_of(bytes@, after) + Seq::<Option<Seq<u8>>>::empty() =~= values_of(
            bytes@,
            after,
        ));
        assert(after + Seq::<(bool, Range<usize>)>::empty() =~= after);
        assert(vb@ =~= old(vb)@ + after);
    }
    Ok(())
}

/// One row: the bytes that hold it and where each of its values lies in them.
#[derive(Debug, Clone, Copy)]
pub struct Record<'exec> {
    bytes: &'exec [u8],
    offsets: &'exec [(bool, Range<usize>)],
}

impl<'exec> View for Record<'exec> {
    type V = Seq<Option<Seq<u8>>>;

    /// The values of the row, in the order of its columns; a missing value is nothing.
    closed spec fn view(&self) -> Seq<Option<Seq<u8>>> {
        values_of(self.bytes@, self.offsets@)
    }
}

impl<'exec> Record<'exec> {
    /// Every value lies inside the bytes.
    pub closed spec fn inv(&self) -> bool {
        offsets_fit(self.offsets@, self.bytes@.len() as int)
    }

    /// The row whose values lie in `bytes` where `offsets` tell.
    pub fn new(bytes: &'exec [u8], offsets: &'exec [(bool, Range<usize>)]) -> (r: Self)
        requires
            offsets_fit(offsets@, bytes@.len() as int),
        ensures
            r.inv(),
            r@ == values_of(bytes@, offsets@),
    {
        Self { bytes, offsets }
    }

    /// The number of values.
    pub fn len(&self) -> (r: usize)
        ensures
            r == self@.len(),
    {
        self.offsets.len()
    }

    /// The value of the column `idx`: nothing if there is no such column or if the value is
    /// missing.
    pub fn value(&self, idx: usize) -> (r: Option<&'exec [u8]>)
        requires
            self.inv(),
        ensures
            match r {
                Some(value) => idx < self@.len() && self@[idx as int] == Some(value@),
                None => idx >= self@.len() || self@[idx as int] is None,
            },
    {
        if idx >= self.offsets.len() {
            return None;
        }
        let is_null: bool = self.offsets[idx].0;
        if is_null {
            return None;
        }
        let start: usize = self.offsets[idx].1.start;
        let end: usize = self.offsets[idx].1.end;
        assert(self.offsets@[idx as int].1.start <= self.offsets@[idx as int].1.end);
        Some(vstd::slice::slice_subrange(self.bytes, start, end))
    }

    /// If the value of the column `idx` is missing. A column that does not exist has no value
    /// either.
    pub fn is_null(&self, idx: usize) -> (r: bool)
        ensures
            r == (idx >= self@.len() || self@[idx as int] is None),
    {
        if idx >= self.offsets.len() {
            return true;
        }
        self.offsets[idx].0
    }
}

/// Where the rows end among the values: the `i`-th row takes the values from the end of the
/// row before it, or from the first value, up to its own end.
pub open spec fn rows_fit(ends: Seq<usize>, values: int) -> bool {
    &&& forall|i: int, j: int| 0 <= i <= j < ends.len() ==> #[trigger] ends[i] <= #[trigger] ends[j]
    &&& forall|i: int| 0 <= i < ends.len() ==> #[trigger] ends[i] <= values
}

/// Where the values of the `i`-th row begin.
pub open spec fn row_begin(ends: Seq<usize>, i: int) -> int {
    if i == 0 {
        0
    } else {
        ends[i - 1] as int
    }
}

/// The rows that `ends` cut out of the values that `offsets` cut out of `bytes`.
pub open spec fn rows_of(
    bytes: Seq<u8>,
    ends: Seq<usize>,
    offsets: Seq<(bool, Range<usize>)>,
) -> Seq<Seq<Option<Seq<u8>>>> {
    Seq::new(
        ends.len(),
        |i: int| values_of(bytes, offsets.subrange(row_begin(ends, i), ends[i] as int)),
    )
}

/// Several rows: the bytes that hold them, where each value lies and where each row ends.
#[derive(Debug, Clone, Copy)]
pub struct Records<'exec> {
    bytes: &'exec [u8],
    records_values_offsets: &'exec [usize],
    values_bytes_offsets: &'exec [(bool, Range<usize>)],
}

impl<'exec> View for Records<'exec> {
    type V = Seq<Seq<Option<Seq<u8>>>>;

    /// The rows, in the order in which they arrived.
    closed spec fn view(&self) -> Seq<Seq<Option<Seq<u8>>>> {
        rows_of(self.bytes@, self.records_values_offsets@, self.values_bytes_offsets@)
    }
}

impl<'exec> Records<'exec> {
    /// Every value lies inside the bytes and every row inside the values.
    pub closed spec fn inv(&self) -> bool {
        &&& offsets_fit(self.values_bytes_offsets@, self.bytes@.len() as int)
        &&& rows_fit(self.records_values_offsets@, self.values_bytes_offsets@.len() as int)
    }

    /// The rows that end where `records_values_offsets` tell among the values that lie in
    /// `bytes` where `values_bytes_offsets` tell.
    pub fn new(
        bytes: &'exec [u8],
        records_values_offsets: &'exec [usize],
        values_bytes_offsets: &'exec [(bool, Range<usize>)],
    ) -> (r: Self)
        requires
            offsets_fit(values_bytes_offsets@, bytes@.len() as int),
            rows_fit(records_values_offsets@, values_bytes_offsets@.len() as int),
        ensures
            r.inv(),
            r@ == rows_of(bytes@, records_values_offsets@, values_bytes_offsets@),
    {
        Self { bytes, records_values_offsets, values_bytes_offsets }
    }

    /// The number of rows.
    pub fn len(&self) -> (r: usize)
        ensures
            r == self@.len(),
    {
        self.records_values_offsets.len()
    }

    /// The row at the position `idx`, if there are that many.
    pub fn get(&self, idx: usize) -> (r: Option<Record<'exec>>)
        requires
            self.inv(),
        ensures
            match r {
                Some(record) => idx < self@.len() && record.inv() && record@ == self@[idx as int],
                None => idx >= self@.len(),
            },
    {
        if idx >= self.records_values_offsets.len() {
            return None;
        }
        let begin: usize = if idx == 0 {
            0
        } else {
            self.records_values_offsets[idx - 1]
        };
        let end: usize = self.records_values_offsets[idx];
        proof {
            let ends = self.records_values_offsets@;
            if idx > 0 {
                assert(ends[idx - 1] <= ends[idx as int]);
            }
            assert(ends[idx as int] <= self.values_bytes_offsets@.len());
        }
        let offsets: &'exec [(bool, Range<usize>)] = vstd::slice::slice_subrange(
            self.values_bytes_offsets,
            begin,
            end,
        );
        proof {
            assert forall|i: int| 0 <= i < offsets@.len() implies (#[trigger] offsets@[i]).1.start
                <= offsets@[i].1.end <= self.bytes@.len() by {
                assert(offsets@[i] == self.values_bytes_offsets@[begin + i]);
            }
        }
        Some(Record::new(self.bytes, offsets))
    }
}

/// If a callback of the type `F` was called with the row `row` and answered with `failure`, or
/// without one.
pub open spec fn answered<F>(row: Seq<Option<Seq<u8>>>, failure: Option<Error>) -> bool where
    F: FnMut(&Record<'_>) -> Result<(), Error>,
 {
    exists|f: F, record: &Record<'_>, answer: Result<(), Error>|
        record@ == row && #[trigger] f.ensures((record,), answer) && failure == match answer {
            Ok(_) => None,
            Err(e) => Some(e),
        }
}

/// If a callback of the type `F` was called with each of the first `n` rows of `rows`, in
/// their order, and answered each time without a failure.
pub open spec fn answered_all<F>(rows: Seq<Seq<Option<Seq<u8>>>>, n: int) -> bool where
    F: FnMut(&Record<'_>) -> Result<(), Error>,
 {
    forall|i: int| 0 <= i < n ==> answered::<F>(#[trigger] rows[i], None)
}

/// Calls `cb` with each row of `records`, in their order, until it answers with a failure,
/// which is handed on.
pub fn for_each_record<F>(records: &Records<'_>, cb: F) -> (r: Result<(), Error>) where
    F: FnMut(&Record<'_>) -> Result<(), Error>,

    requires
        records.inv(),
        forall|f: F, record: &Record<'_>| f.requires((record,)),
    ensures
        match r {
            Ok(()) => answered_all::<F>(records@, records@.len() as int),
            Err(e) => exists|i: int|
                0 <= i < records@.len() && answered::<F>(#[trigger] records@[i], Some(e))
                    && answered_all::<F>(records@, i),
        },
{
    let mut cb = cb;
    let mut i: usize = 0;
    while i < records.len()
        invariant
            records.inv(),
            i <= records@.len(),
            forall|f: F, record: &Record<'_>| f.requires((record,)),
            answered_all::<F>(records@, i as int),
        decreases records@.len() - i,
    {
        match records.get(i) {
            Some(record) => {
                let ghost called = cb;
                let answer = cb(&record);
                assert(called.ensures((&record,), answer));
                assert(answered::<F>(
                    records@[i as int],
                    match answer {
                        Ok(_) => None,
                        Err(e) => Some(e),
                    },
                ));
                match answer {
                    Ok(()) => {},
                    Err(e) => {
                        return Err(e);
                    },
                }
            },
            None => {},
        }
        i += 1;
    }
    Ok(())
}

} // verus!
