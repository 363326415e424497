//! Sources of random bytes.

use vstd::prelude::*;

verus! {

/// A source of random bytes.
///
/// What the bytes are is up to the source. Where they guard something, the source has to be
/// seeded from the entropy of the operating system.
pub trait Rng {
    /// Overwrites every byte of `bytes`.
    fn fill_slice(&mut self, bytes: &mut [u8])
        ensures
            final(bytes)@.len() == old(bytes)@.len(),
    ;
}

/// The generator of Marsaglia that shifts and combines 64 bits three times for each number.
#[derive(Debug, Clone, Copy, PartialEq, Eq)]
pub struct Xorshift64 {
    value: u64,
}

/// The number that follows `value`.
pub open spec fn spec_xorshift64(value: u64) -> u64 {
    let a = value ^ (value << 13);
    let b = a ^ (a >> 7);
    b ^ (b << 17)
}

/// The state of a generator after `n` numbers were drawn from the state `value`.
pub open spec fn spec_xorshift64_nth(value: u64, n: nat) -> u64
    decreases n,
{
    if n == 0 {
        value
    } else {
        spec_xorshift64(spec_xorshift64_nth(value, (n - 1) as nat))
    }
}

/// The byte of `value` at the position `i`, counted from the least significant one.
pub open spec fn spec_byte(value: u64, i: int) -> u8 {
    ((value >> ((8 * i) as u64)) & 0xff) as u8
}

/// The key that is cut from the number `value`: its four least significant bytes, the least
/// significant one first.
pub open spec fn spec_key(value: u64) -> [u8; 4] {
    [spec_byte(value, 0), spec_byte(value, 1), spec_byte(value, 2), spec_byte(value, 3)]
}

impl View for Xorshift64 {
    type V = u64;

    /// The number that was drawn last, or the seed.
    closed spec fn view(&self) -> u64 {
        self.value
    }
}

impl Xorshift64 {
    /// A generator that starts from `seed`. A generator that starts from zero yields zero
    /// forever, so zero is replaced.
    pub fn from(seed: u64) -> (r: Self)
        ensures
            r@ == if seed == 0 {
                0x2545_f491_4f6c_dd1d
            } else {
                seed
            },
    {
        Self { value: if seed == 0 {
            0x2545_f491_4f6c_dd1d
        } else {
            seed
        } }
    }

    /// Draws the next number.
    pub fn u64(&mut self) -> (r: u64)
        ensures
            r == spec_xorshift64(old(self)@),
            final(self)@ == r,
    {
        let a: u64 = self.value ^ (self.value << 13);
        let b: u64 = a ^ (a >> 7);
        self.value = b ^ (b << 17);
        self.value
    }

    /// Draws the next number and cuts a key of four bytes from it.
    pub fn u8_4(&mut self) -> (r: [u8; 4])
        ensures
            final(self)@ == spec_xorshift64(old(self)@),
            r == spec_key(final(self)@),
    {
        let value: u64 = self.u64();
        let r: [u8; 4] = [
            (value & 0xff) as u8,
            ((value >> 8) & 0xff) as u8,
            ((value >> 16) & 0xff) as u8,
            ((value >> 24) & 0xff) as u8,
        ];
        proof {
            assert(value >> 0 == value) by (bit_vector);
            assert(r@ =~= spec_key(value)@);
        }
        r
    }
}

impl Rng for Xorshift64 {
    /// Overwrites each byte of `bytes` with the least significant byte of a number of its
    /// own.
    fn fill_slice(&mut self, bytes: &mut [u8])
        ensures
            final(self)@ == spec_xorshift64_nth(old(self)@, old(bytes)@.len()),
            forall|i: int|
                0 <= i < final(bytes)@.len() ==> #[trigger] final(bytes)@[i] == spec_byte(
                    spec_xorshift64_nth(old(self)@, (i + 1) as nat),
                    0,
                ),
    {
        let n: usize = bytes.len();
        let mut i: usize = 0;
        while i < n
            invariant
                i <= n,
                bytes@.len() == n,
                n == old(bytes)@.len(),
                self@ == spec_xorshift64_nth(old(self)@, i as nat),
                forall|j: int|
                    0 <= j < i ==> #[trigger] bytes@[j] == spec_byte(
                        spec_xorshift64_nth(old(self)@, (j + 1) as nat),
                        0,
                    ),
            decreases n - i,
        {
            let value: u64 = self.u64();
            proof {
                assert(value >> 0 == value) by (bit_vector);
            }
            bytes[i] = (value & 0xff) as u8;
            i += 1;
        }
    }
}

} // verus!
