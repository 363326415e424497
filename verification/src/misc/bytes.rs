//! Small helpers over runs of bytes.

use vstd::prelude::*;

verus! {

/// If `a` and `b` hold the same bytes.
pub fn bytes_eq(a: &[u8], b: &[u8]) -> (r: bool)
    ensures
        r == (a@ == b@),
{
    if a.len() != b.len() {
        return false;
    }
    let n: usize = a.len();
    let mut i: usize = 0;
    while i < n
        invariant
            n == a@.len(),
            n == b@.len(),
            i <= n,
            forall|j: int| 0 <= j < i ==> a@[j] == b@[j],
        decreases n - i,
    {
        if a[i] != b[i] {
            return false;
        }
        i += 1;
    }
    assert(a@ =~= b@);
    true
}

/// The number that four bytes spell, most significant byte first.
pub open spec fn be_u32(a: u8, b: u8, c: u8, d: u8) -> u32 {
    (a * 0x100_0000 + b * 0x1_0000 + c * 0x100 + d) as u32
}

/// The number that two bytes spell, most significant byte first.
pub open spec fn be_u16(a: u8, b: u8) -> u16 {
    (a * 0x100 + b) as u16
}

/// The four bytes that spell `n`, most significant byte first.
pub open spec fn u32_be(n: u32) -> Seq<u8> {
    seq![
        (n / 0x100_0000) as u8,
        (n / 0x1_0000 % 0x100) as u8,
        (n / 0x100 % 0x100) as u8,
        (n % 0x100) as u8,
    ]
}

/// The two bytes that spell `n`, most significant byte first.
pub open spec fn u16_be(n: u16) -> Seq<u8> {
    seq![(n / 0x100) as u8, (n % 0x100) as u8]
}

/// Reading what was spelled gives the number back.
pub proof fn lemma_u32_be(n: u32)
    ensures
        u32_be(n).len() == 4,
        be_u32(u32_be(n)[0], u32_be(n)[1], u32_be(n)[2], u32_be(n)[3]) == n,
{
}

/// Reading what was spelled gives the number back.
pub proof fn lemma_u16_be(n: u16)
    ensures
        u16_be(n).len() == 2,
        be_u16(u16_be(n)[0], u16_be(n)[1]) == n,
{
}

/// Reads a number from four bytes, most significant byte first.
pub fn u32_from_be(a: u8, b: u8, c: u8, d: u8) -> (r: u32)
    ensures
        r == be_u32(a, b, c, d),
{
    (a as u32) * 0x100_0000 + (b as u32) * 0x1_0000 + (c as u32) * 0x100 + (d as u32)
}

/// Reads a number from two bytes, most significant byte first.
pub fn u16_from_be(a: u8, b: u8) -> (r: u16)
    ensures
        r == be_u16(a, b),
{
    (a as u16) * 0x100 + (b as u16)
}

/// Spells `n` in four bytes, most significant byte first.
pub fn u32_to_be(n: u32) -> (r: [u8; 4])
    ensures
        r@ == u32_be(n),
{
    let r: [u8; 4] = [
        (n / 0x100_0000) as u8,
        (n / 0x1_0000 % 0x100) as u8,
        (n / 0x100 % 0x100) as u8,
        (n % 0x100) as u8,
    ];
    assert(r@ =~= u32_be(n));
    r
}

/// Spells `n` in two bytes, most significant byte first.
pub fn u16_to_be(n: u16) -> (r: [u8; 2])
    ensures
        r@ == u16_be(n),
{
    let r: [u8; 2] = [(n / 0x100) as u8, (n % 0x100) as u8];
    assert(r@ =~= u16_be(n));
    r
}

/// If `b` is one of the characters `0` to `9`.
pub open spec fn is_digit(b: u8) -> bool {
    0x30 <= b <= 0x39
}

/// If `s` holds nothing but the characters `0` to `9`.
pub open spec fn all_digits(s: Seq<u8>) -> bool {
    forall|i: int| 0 <= i < s.len() ==> is_digit(#[trigger] s[i])
}

/// The number that the decimal digits of `s` spell.
pub open spec fn decimal(s: Seq<u8>) -> nat
    decreases s.len(),
{
    if s.len() == 0 {
        0
    } else {
        decimal(s.drop_last()) * 10 + (s.last() - 0x30) as nat
    }
}

/// The number that `s` spells, if `s` is a non-empty run of decimal digits whose number fits.
pub open spec fn spec_atoi(s: Seq<u8>, max: nat) -> Option<nat> {
    if s.len() > 0 && all_digits(s) && decimal(s) <= max {
        Some(decimal(s))
    } else {
        None
    }
}

/// With digits only, a front part never spells more than the whole.
pub proof fn lemma_decimal_take(s: Seq<u8>, i: int)
    requires
        all_digits(s),
        0 <= i <= s.len(),
    ensures
        decimal(s.take(i)) <= decimal(s),
        i < s.len() ==> decimal(s.take(i + 1)) == decimal(s.take(i)) * 10 + (s[i] - 0x30),
    decreases s.len() - i,
{
    if i == s.len() {
        assert(s.take(i) =~= s);
    } else {
        assert(s.take(i + 1).drop_last() =~= s.take(i));
        assert(is_digit(s[i]));
        assert(all_digits(s));
        lemma_decimal_take(s, i + 1);
    }
}

/// Reads a decimal number that must fit into 32 bits. Signs, blanks and an empty input are
/// refused.
pub fn atoi_u32(bytes: &[u8]) -> (r: Option<u32>)
    ensures
        match r {
            Some(n) => spec_atoi(bytes@, u32::MAX as nat) == Some(n as nat),
            None => spec_atoi(bytes@, u32::MAX as nat) is None,
        },
{
    match atoi_u64(bytes, 0xffff_ffff) {
        Some(n) => Some(n as u32),
        None => None,
    }
}

/// Reads a decimal number that must not exceed `max`. Signs, blanks and an empty input are
/// refused.
pub fn atoi_u64(bytes: &[u8], max: u64) -> (r: Option<u64>)
    requires
        max <= u64::MAX / 10 - 1,
    ensures
        match r {
            Some(n) => spec_atoi(bytes@, max as nat) == Some(n as nat),
            None => spec_atoi(bytes@, max as nat) is None,
        },
{
    let n: usize = bytes.len();
    if n == 0 {
        return None;
    }
    let mut i: usize = 0;
    while i < n
        invariant
            n == bytes@.len(),
            i <= n,
            forall|j: int| 0 <= j < i ==> is_digit(#[trigger] bytes@[j]),
        decreases n - i,
    {
        if bytes[i] < 0x30 || bytes[i] > 0x39 {
            assert(!is_digit(bytes@[i as int]));
            return None;
        }
        i += 1;
    }
    assert(all_digits(bytes@));
    let mut acc: u64 = 0;
    let mut i: usize = 0;
    while i < n
        invariant
            n == bytes@.len(),
            i <= n,
            all_digits(bytes@),
            acc == decimal(bytes@.take(i as int)),
            acc <= max,
            max <= u64::MAX / 10 - 1,
        decreases n - i,
    {
        proof {
            lemma_decimal_take(bytes@, i as int);
            lemma_decimal_take(bytes@, i as int + 1);
            assert(is_digit(bytes@[i as int]));
        }
        acc = acc * 10 + (bytes[i] - 0x30) as u64;
        if acc > max {
            return None;
        }
        i += 1;
    }
    proof {
        assert(bytes@.take(n as int) =~= bytes@);
    }
    Some(acc)
}

/// Where the piece of `s` that starts at `start` ends: at the next `sep` or with `s`.
pub open spec fn piece_end(s: Seq<u8>, sep: u8, start: int) -> int
    decreases s.len() - start,
{
    if start >= s.len() || s[start] == sep {
        start
    } else {
        piece_end(s, sep, start + 1)
    }
}

/// A position that no separator lies in front of ends the piece, if a separator or the end of
/// `s` is there.
pub proof fn lemma_piece_end_is(s: Seq<u8>, sep: u8, start: int, end: int)
    requires
        0 <= start <= end <= s.len(),
        forall|i: int| start <= i < end ==> #[trigger] s[i] != sep,
        end == s.len() || s[end] == sep,
    ensures
        piece_end(s, sep, start) == end,
    decreases end - start,
{
    if start < end {
        lemma_piece_end_is(s, sep, start + 1, end);
    }
}

/// Finds where the piece of `bytes` that starts at `start` ends.
pub fn find_piece_end(bytes: &[u8], sep: u8, start: usize) -> (r: usize)
    requires
        start <= bytes@.len(),
    ensures
        r == piece_end(bytes@, sep, start as int),
        start <= r <= bytes@.len(),
{
    let n: usize = bytes.len();
    let mut end: usize = start;
    while end < n && bytes[end] != sep
        invariant
            n == bytes@.len(),
            start <= end <= n,
            forall|i: int| start <= i < end ==> #[trigger] bytes@[i] != sep,
        decreases n - end,
    {
        end += 1;
    }
    proof {
        lemma_piece_end_is(bytes@, sep, start as int, end as int);
    }
    end
}

} // verus!
