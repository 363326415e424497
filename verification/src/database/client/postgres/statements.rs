//! Prepared statements and the cache that remembers them.

use crate::error::Error;
use crate::misc::bytes::{be_u32, find_piece_end, piece_end, u32_from_be};
use crate::misc::filled_buffer::append_bytes;
use vstd::prelude::*;

verus! {

/// The offset basis of the 64-bit FNV-1a hash.
pub const FNV_OFFSET_BASIS: u64 = 0xcbf2_9ce4_8422_2325;

/// The prime of the 64-bit FNV-1a hash.
pub const FNV_PRIME: u64 = 0x0000_0100_0000_01b3;

/// The 64-bit FNV-1a hash of `bytes`: starting from the offset basis, each byte is mixed in
/// with an exclusive or and the result is multiplied by the prime, dropping what overflows.
pub open spec fn spec_fnv1a64(bytes: Seq<u8>) -> u64
    decreases bytes.len(),
{
    if bytes.len() == 0 {
        FNV_OFFSET_BASIS
    } else {
        (spec_fnv1a64(bytes.drop_last()) ^ (bytes.last() as u64)).wrapping_mul(FNV_PRIME)
    }
}

/// Computes the 64-bit FNV-1a hash of `bytes`.
pub fn fnv1a64(bytes: &[u8]) -> (r: u64)
    ensures
        r == spec_fnv1a64(bytes@),
{
    let mut hash: u64 = FNV_OFFSET_BASIS;
    let mut i: usize = 0;
    while i < bytes.len()
        invariant
            i <= bytes@.len(),
            hash == spec_fnv1a64(bytes@.take(i as int)),
        decreases bytes@.len() - i,
    {
        proof {
            assert(bytes@.take(i as int + 1).drop_last() =~= bytes@.take(i as int));
        }
        hash = (hash ^ (bytes[i] as u64)).wrapping_mul(FNV_PRIME);
        i += 1;
    }
    proof {
        assert(bytes@.take(bytes@.len() as int) =~= bytes@);
    }
    hash
}

/// The decimal digits of `n`, most significant first.
pub open spec fn decimal_digits(n: nat) -> Seq<u8>
    decreases n,
{
    if n < 10 {
        seq![(0x30 + n) as u8]
    } else {
        decimal_digits(n / 10).push((0x30 + n % 10) as u8)
    }
}

/// Spells `n` in decimal digits. The name of a prepared statement is its identifier spelled
/// this way.
pub fn u64_to_decimal(n: u64) -> (r: Vec<u8>)
    ensures
        r@ == decimal_digits(n as nat),
        1 <= r@.len() <= 20,
{
    let mut reversed: Vec<u8> = Vec::new();
    let mut rest: u64 = n;
    proof {
        assert(pow10(0) == 1);
        assert(decimal_digits(n as nat) =~= decimal_digits(rest as nat) + reversed@.reverse());
    }
    while rest >= 10
        invariant
            reversed@.len() <= 19,
            rest * pow10(reversed@.len()) <= n,
            decimal_digits(n as nat) == decimal_digits(rest as nat) + reversed@.reverse(),
        decreases rest,
    {
        let digit: u8 = 0x30 + (rest % 10) as u8;
        proof {
            assert(decimal_digits(rest as nat) == decimal_digits(rest as nat / 10).push(digit));
            assert(decimal_digits(rest as nat / 10).push(digit) + reversed@.reverse()
                =~= decimal_digits(rest as nat / 10) + reversed@.push(digit).reverse());
            lemma_pow10(reversed@.len());
            assert(rest / 10 * pow10(reversed@.len() + 1) <= n) by (nonlinear_arith)
                requires
                    rest * pow10(reversed@.len()) <= n,
                    pow10(reversed@.len() + 1) == 10 * pow10(reversed@.len()),
                    pow10(reversed@.len()) > 0,
                    rest >= 0,
            ;
            if reversed@.len() == 19 {
                lemma_pow10_20();
                assert(false) by (nonlinear_arith)
                    requires
                        rest >= 10,
                        rest * pow10(19) <= n,
                        n <= u64::MAX,
                        pow10(19) == 10_000_000_000_000_000_000,
                ;
            }
        }
        reversed.push(digit);
        rest = rest / 10;
    }
    reversed.push(0x30 + rest as u8);
    proof {
        assert(decimal_digits(rest as nat) + reversed@.drop_last().reverse() =~= reversed@.reverse());
    }
    let mut digits: Vec<u8> = Vec::new();
    let mut i: usize = reversed.len();
    while i > 0
        invariant
            i <= reversed@.len(),
            digits@ == reversed@.reverse().take(reversed@.len() - i),
        decreases i,
    {
        i -= 1;
        digits.push(reversed[i]);
        assert(digits@ =~= reversed@.reverse().take(reversed@.len() - i));
    }
    proof {
        assert(reversed@.reverse().take(reversed@.len() as int) =~= reversed@.reverse());
    }
    digits
}

/// Ten to the power of `e`.
pub open spec fn pow10(e: nat) -> nat
    decreases e,
{
    if e == 0 {
        1
    } else {
        10 * pow10((e - 1) as nat)
    }
}

/// A power of ten is positive and ten times the one before.
pub proof fn lemma_pow10(e: nat)
    ensures
        pow10(e) > 0,
        pow10(e + 1) == 10 * pow10(e),
    decreases e,
{
    if e > 0 {
        lemma_pow10((e - 1) as nat);
    }
}

/// Ten to the power of nineteen, written out.
pub proof fn lemma_pow10_20()
    ensures
        pow10(19) == 10_000_000_000_000_000_000,
{
    reveal_with_fuel(pow10, 20);
}

/// A column of the rows that a statement yields.
#[derive(Debug, Clone, PartialEq, Eq)]
pub struct Column {
    /// The name of the column.
    pub name: Vec<u8>,
    /// The object identifier of the type of the column.
    pub type_oid: u32,
}

/// What a [`Column`] says.
pub struct ColumnView {
    /// The name of the column.
    pub name: Seq<u8>,
    /// The object identifier of the type of the column.
    pub type_oid: u32,
}

impl View for Column {
    type V = ColumnView;

    open spec fn view(&self) -> ColumnView {
        ColumnView { name: self.name@, type_oid: self.type_oid }
    }
}

/// What each of `columns` says.
pub open spec fn column_views(columns: Seq<Column>) -> Seq<ColumnView> {
    Seq::new(columns.len(), |i: int| columns[i]@)
}

/// A statement that the backend has prepared.
#[derive(Debug, Clone, PartialEq, Eq)]
pub struct Statement {
    /// The identifier: the hash of the text of the statement.
    pub id: u64,
    /// The columns of the rows that the statement yields.
    pub columns: Vec<Column>,
    /// The object identifiers of the types of the parameters.
    pub param_types: Vec<u32>,
}

/// What a [`Statement`] says.
pub struct StatementView {
    /// The identifier.
    pub id: u64,
    /// The columns of the rows that the statement yields.
    pub columns: Seq<ColumnView>,
    /// The object identifiers of the types of the parameters.
    pub param_types: Seq<u32>,
}

impl View for Statement {
    type V = StatementView;

    open spec fn view(&self) -> StatementView {
        StatementView {
            id: self.id,
            columns: column_views(self.columns@),
            param_types: self.param_types@,
        }
    }
}

/// The number of bytes that follow the name of a column in its description.
pub const COLUMN_TAIL_LEN: usize = 18;

/// The first `n` columns that are described in `bytes` from `start` on. A description is the
/// name, a zero byte and eighteen bytes, of which the seventh to the tenth are the type.
pub open spec fn spec_columns(bytes: Seq<u8>, start: int, n: nat) -> Option<Seq<ColumnView>>
    decreases n,
{
    if n == 0 {
        Some(Seq::empty())
    } else if start < 0 || start > bytes.len() {
        None
    } else {
        let end = piece_end(bytes, 0, start);
        if end + 1 + COLUMN_TAIL_LEN > bytes.len() {
            None
        } else {
            match spec_columns(bytes, end + 1 + COLUMN_TAIL_LEN, (n - 1) as nat) {
                Some(rest) => Some(
                    seq![
                        ColumnView {
                            name: bytes.subrange(start, end),
                            type_oid: be_u32(
                                bytes[end + 7],
                                bytes[end + 8],
                                bytes[end + 9],
                                bytes[end + 10],
                            ),
                        },
                    ] + rest,
                ),
                None => None,
            }
        }
    }
}

/// The first `n` object identifiers in `bytes` from `start` on, four bytes each.
pub open spec fn spec_param_types(bytes: Seq<u8>, start: int, n: nat) -> Option<Seq<u32>>
    decreases n,
{
    if n == 0 {
        Some(Seq::empty())
    } else if start < 0 || start + 4 > bytes.len() {
        None
    } else {
        match spec_param_types(bytes, start + 4, (n - 1) as nat) {
            Some(rest) => Some(
                seq![be_u32(bytes[start], bytes[start + 1], bytes[start + 2], bytes[start + 3])]
                    + rest,
            ),
            None => None,
        }
    }
}

/// Reads the descriptions of `n` columns from `bytes`, which is what follows the number of
/// columns in a row description.
pub fn parse_columns(bytes: &[u8], n: u16) -> (r: Result<Vec<Column>, Error>)
    ensures
        match r {
            Ok(columns) => spec_columns(bytes@, 0, n as nat) == Some(column_views(columns@)),
            Err(e) => e == Error::UnexpectedValueFromBytes && spec_columns(bytes@, 0, n as nat)
                is None,
        },
{
    let len: usize = bytes.len();
    let mut columns: Vec<Column> = Vec::new();
    let mut start: usize = 0;
    let mut i: u16 = 0;
    while i < n
        invariant
            len == bytes@.len(),
            i <= n,
            start <= len,
            columns@.len() == i,
            spec_columns(bytes@, 0, n as nat) == match spec_columns(
                bytes@,
                start as int,
                (n - i) as nat,
            ) {
                Some(rest) => Some(column_views(columns@) + rest),
                None => None,
            },
        decreases n - i,
    {
        let end: usize = find_piece_end(bytes, 0, start);
        if len - end < 1 + COLUMN_TAIL_LEN {
            return Err(Error::UnexpectedValueFromBytes);
        }
        let mut name: Vec<u8> = Vec::new();
        append_bytes(&mut name, vstd::slice::slice_subrange(bytes, start, end));
        let type_oid: u32 = u32_from_be(
            bytes[end + 7],
            bytes[end + 8],
            bytes[end + 9],
            bytes[end + 10],
        );
        let ghost before = column_views(columns@);
        columns.push(Column { name, type_oid });
        proof {
            let column = ColumnView { name: bytes@.subrange(start as int, end as int), type_oid };
            assert(name@ =~= bytes@.subrange(start as int, end as int));
            assert(column_views(columns@) =~= before.push(column));
            match spec_columns(bytes@, end + 1 + COLUMN_TAIL_LEN, (n - i - 1) as nat) {
                Some(rest) => {
                    assert(before + (seq![column] + rest) =~= before.push(column) + rest);
                },
                None => {},
            }
        }
        start = end + 1 + COLUMN_TAIL_LEN;
        i += 1;
    }
    proof {
        assert(column_views(columns@) + Seq::<ColumnView>::empty() =~= column_views(columns@));
    }
    Ok(columns)
}

/// Reads `n` object identifiers from `bytes`, which is what follows the number of parameters
/// in a parameter description.
pub fn parse_param_types(bytes: &[u8], n: u16) -> (r: Result<Vec<u32>, Error>)
    ensures
        match r {
            Ok(types) => spec_param_types(bytes@, 0, n as nat) == Some(types@),
            Err(e) => e == Error::UnexpectedValueFromBytes && spec_param_types(
                bytes@,
                0,
                n as nat,
            ) is None,
        },
{
    let len: usize = bytes.len();
    let mut types: Vec<u32> = Vec::new();
    let mut start: usize = 0;
    let mut i: u16 = 0;
    while i < n
        invariant
            len == bytes@.len(),
            i <= n,
            start <= len,
            types@.len() == i,
            spec_param_types(bytes@, 0, n as nat) == match spec_param_types(
                bytes@,
                start as int,
                (n - i) as nat,
            ) {
                Some(rest) => Some(types@ + rest),
                None => None,
            },
        decreases n - i,
    {
        if len - start < 4 {
            return Err(Error::UnexpectedValueFromBytes);
        }
        let oid: u32 = u32_from_be(
            bytes[start],
            bytes[start + 1],
            bytes[start + 2],
            bytes[start + 3],
        );
        let ghost before = types@;
        types.push(oid);
        proof {
            match spec_param_types(bytes@, start + 4, (n - i - 1) as nat) {
                Some(rest) => {
                    assert(before + (seq![oid] + rest) =~= before.push(oid) + rest);
                },
                None => {},
            }
        }
        start = start + 4;
        i += 1;
    }
    proof {
        assert(types@ + Seq::<u32>::empty() =~= types@);
    }
    Ok(types)
}

/// The statements that the backend holds prepared: a map from identifiers to statements that
/// is ordered by use. It is held as a sequence in which no identifier occurs twice, least
/// recently used statement first.
#[derive(Debug)]
pub struct Statements {
    max_stmts: usize,
    stmts: Vec<Statement>,
}

/// What each of `stmts` says.
pub open spec fn statement_views(stmts: Seq<Statement>) -> Seq<StatementView> {
    Seq::new(stmts.len(), |i: int| stmts[i]@)
}

/// If a statement with the identifier `id` is among `stmts`.
pub open spec fn has_id(stmts: Seq<StatementView>, id: u64) -> bool {
    exists|i: int| 0 <= i < stmts.len() && (#[trigger] stmts[i]).id == id
}

/// Where the statement with the identifier `id` is among `stmts`.
pub open spec fn position_of(stmts: Seq<StatementView>, id: u64) -> int {
    choose|i: int| 0 <= i < stmts.len() && (#[trigger] stmts[i]).id == id
}

impl View for Statements {
    type V = Seq<StatementView>;

    /// The statements, least recently used first.
    closed spec fn view(&self) -> Seq<StatementView> {
        statement_views(self.stmts@)
    }
}

impl Statements {
    /// The number of statements that the cache holds at most.
    pub closed spec fn spec_capacity(&self) -> nat {
        self.max_stmts as nat
    }

    /// The cache holds at least one statement and never more than its capacity, and no
    /// identifier twice.
    pub open spec fn inv(&self) -> bool {
        &&& 1 <= self.spec_capacity()
        &&& self@.len() <= self.spec_capacity()
        &&& forall|i: int, j: int|
            0 <= i < j < self@.len() ==> (#[trigger] self@[i]).id != (#[trigger] self@[j]).id
    }

    /// An empty cache for at most `max_stmts` statements, and for one if zero is asked for.
    pub fn new(max_stmts: usize) -> (r: Self)
        ensures
            r.inv(),
            r@ == Seq::<StatementView>::empty(),
            r.spec_capacity() == if max_stmts == 0 {
                1
            } else {
                max_stmts as nat
            },
    {
        let r = Self { max_stmts: if max_stmts == 0 {
            1
        } else {
            max_stmts
        }, stmts: Vec::new() };
        assert(r@ =~= Seq::<StatementView>::empty());
        r
    }

    /// The number of statements that the cache holds at most.
    pub fn capacity(&self) -> (r: usize)
        ensures
            r == self.spec_capacity(),
    {
        self.max_stmts
    }

    /// The number of statements that are held.
    pub fn len(&self) -> (r: usize)
        ensures
            r == self@.len(),
    {
        self.stmts.len()
    }

    /// If no further statement fits without another one leaving.
    pub fn is_full(&self) -> (r: bool)
        ensures
            r == (self@.len() >= self.spec_capacity()),
    {
        self.stmts.len() >= self.max_stmts
    }

    /// Forgets every statement.
    pub fn clear(&mut self)
        ensures
            final(self)@ == Seq::<StatementView>::empty(),
            final(self).spec_capacity() == old(self).spec_capacity(),
            old(self).inv() ==> final(self).inv(),
    {
        self.stmts.clear();
        assert(self@ =~= Seq::<StatementView>::empty());
    }

    /// Where the statement with the identifier `id` is, if it is held.
    pub fn position(&self, id: u64) -> (r: Option<usize>)
        ensures
            match r {
                Some(i) => i < self@.len() && self@[i as int].id == id,
                None => !has_id(self@, id),
            },
    {
        let mut i: usize = 0;
        while i < self.stmts.len()
            invariant
                i <= self@.len(),
                self@.len() == self.stmts@.len(),
                forall|j: int| 0 <= j < i ==> (#[trigger] self@[j]).id != id,
            decreases self.stmts@.len() - i,
        {
            if self.stmts[i].id == id {
                return Some(i);
            }
            i += 1;
        }
        None
    }

    /// The statement at the position `idx`, counted from the least recently used one.
    pub fn get(&self, idx: usize) -> (r: Option<&Statement>)
        ensures
            match r {
                Some(stmt) => idx < self@.len() && stmt@ == self@[idx as int],
                None => idx >= self@.len(),
            },
    {
        if idx < self.stmts.len() {
            Some(&self.stmts[idx])
        } else {
            None
        }
    }

    /// Marks the statement with the identifier `id` as the most recently used one and tells if
    /// it is held at all.
    pub fn touch(&mut self, id: u64) -> (r: bool)
        requires
            old(self).inv(),
        ensures
            final(self).inv(),
            final(self).spec_capacity() == old(self).spec_capacity(),
            r == has_id(old(self)@, id),
            final(self)@ == if r {
                old(self)@.remove(position_of(old(self)@, id)).push(
                    old(self)@[position_of(old(self)@, id)],
                )
            } else {
                old(self)@
            },
            r ==> final(self)@.last().id == id,
    {
        match self.position(id) {
            None => false,
            Some(i) => {
                proof {
                    let chosen = position_of(old(self)@, id);
                    assert(chosen == i) by {
                        if chosen < i {
                            assert(old(self)@[chosen].id != old(self)@[i as int].id);
                        } else if chosen > i {
                            assert(old(self)@[i as int].id != old(self)@[chosen].id);
                        }
                    }
                }
                let stmt = self.stmts.remove(i);
                self.stmts.push(stmt);
                proof {
                    let moved = old(self)@.remove(i as int).push(old(self)@[i as int]);
                    assert(self@ =~= moved);
                    assert forall|a: int, b: int| 0 <= a < b < moved.len() implies (
                    #[trigger] moved[a]).id != (#[trigger] moved[b]).id by {
                        let from_a = if a < i {
                            a
                        } else {
                            a + 1
                        };
                        let from_b = if b == moved.len() - 1 {
                            i as int
                        } else if b < i {
                            b
                        } else {
                            b + 1
                        };
                        assert(moved[a] == old(self)@[from_a]);
                        assert(moved[b] == old(self)@[from_b]);
                        if from_a < from_b {
                            assert(old(self)@[from_a].id != old(self)@[from_b].id);
                        } else {
                            assert(old(self)@[from_b].id != old(self)@[from_a].id);
                        }
                    }
                }
                true
            },
        }
    }

    /// The identifier of the statement that leaves next: the least recently used one.
    pub fn least_recently_used(&self) -> (r: Option<u64>)
        ensures
            match r {
                Some(id) => self@.len() > 0 && id == self@[0].id,
                None => self@.len() == 0,
            },
    {
        if self.stmts.len() > 0 {
            Some(self.stmts[0].id)
        } else {
            None
        }
    }

    /// Lets the least recently used statement go and tells its identifier.
    pub fn evict(&mut self) -> (r: Option<u64>)
        requires
            old(self).inv(),
        ensures
            final(self).inv(),
            final(self).spec_capacity() == old(self).spec_capacity(),
            match r {
                Some(id) => old(self)@.len() > 0 && id == old(self)@[0].id && final(self)@ == old(
                    self,
                )@.drop_first(),
                None => old(self)@.len() == 0 && final(self)@ == old(self)@,
            },
    {
        if self.stmts.len() > 0 {
            let stmt = self.stmts.remove(0);
            proof {
                assert(self@ =~= old(self)@.drop_first());
                assert forall|a: int, b: int| 0 <= a < b < self@.len() implies (
                #[trigger] self@[a]).id != (#[trigger] self@[b]).id by {
                    assert(self@[a] == old(self)@[a + 1]);
                    assert(self@[b] == old(self)@[b + 1]);
                }
            }
            Some(stmt.id)
        } else {
            None
        }
    }

    /// Takes `stmt` in as the most recently used statement. A statement with an identifier
    /// that is held already, or one for which there is no room, is handed back.
    pub fn push(&mut self, stmt: Statement) -> (r: Option<Statement>)
        requires
            old(self).inv(),
        ensures
            final(self).inv(),
            final(self).spec_capacity() == old(self).spec_capacity(),
            match r {
                None => {
                    &&& !has_id(old(self)@, stmt.id)
                    &&& old(self)@.len() < old(self).spec_capacity()
                    &&& final(self)@ == old(self)@.push(stmt@)
                },
                Some(back) => {
                    &&& has_id(old(self)@, stmt.id) || old(self)@.len() >= old(
                        self,
                    ).spec_capacity()
                    &&& back == stmt
                    &&& final(self)@ == old(self)@
                },
            },
    {
        if self.is_full() {
            return Some(stmt);
        }
        match self.position(stmt.id) {
            Some(_) => Some(stmt),
            None => {
                self.stmts.push(stmt);
                proof {
                    assert(self@ =~= old(self)@.push(stmt@));
                    assert forall|a: int, b: int| 0 <= a < b < self@.len() implies (
                    #[trigger] self@[a]).id != (#[trigger] self@[b]).id by {
                        if b == self@.len() - 1 {
                            assert(old(self)@[a].id != stmt.id);
                        } else {
                            assert(self@[a] == old(self)@[a]);
                            assert(self@[b] == old(self)@[b]);
                        }
                    }
                }
                None
            },
        }
    }
}

} // verus!
