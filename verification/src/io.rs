//! Reading fixed-width little-endian integers and slices out of a borrowed
//! byte buffer at absolute offsets.

use vstd::prelude::*;

verus! {

/// The unsigned integer denoted by a little-endian byte sequence: the first
/// byte is the least significant.
pub open spec fn le_bytes_to_uint(s: Seq<u8>) -> int
    decreases s.len(),
{
    if s.len() == 0 {
        0
    } else {
        s[0] + 256 * le_bytes_to_uint(s.skip(1))
    }
}

/// The signed reading of an unsigned `bits`-bit value, two's complement.
pub open spec fn as_signed(v: int, bits: int) -> int {
    if v < pow2_spec(bits - 1) {
        v
    } else {
        v - pow2_spec(bits)
    }
}

/// Two to the power `n`.
pub open spec fn pow2_spec(n: int) -> int
    decreases n,
{
    if n <= 0 {
        1
    } else {
        2 * pow2_spec(n - 1)
    }
}

/// A read-only view over a borrowed byte buffer.
#[derive(Debug, Default)]
pub struct ReadBuf<'a> {
    data: &'a [u8],
}

impl<'a> View for ReadBuf<'a> {
    type V = Seq<u8>;

    closed spec fn view(&self) -> Seq<u8> {
        self.data@
    }
}

impl<'a> ReadBuf<'a> {
    /// Wraps `data` for positional reads.
    #[inline]
    pub fn new(data: &'a [u8]) -> (r: Self)
        ensures
            r@ == data@,
    {
        Self { data }
    }

    /// The byte at `index`.
    #[inline]
    pub fn get_u8_at(&self, index: usize) -> (r: u8)
        requires
            index < self@.len(),
        ensures
            r == self@[index as int],
    {
        self.data[index]
    }

    /// The byte at `index`, read as a signed two's-complement value.
    #[inline]
    pub fn get_i8_at(&self, index: usize) -> (r: i8)
        requires
            index < self@.len(),
        ensures
            r == as_signed(self@[index as int] as int, 8),
    {
        let v = self.data[index];
        proof {
            reveal_with_fuel(pow2_spec, 9);
        }
        if v < 0x80 {
            v as i8
        } else {
            (v as i16 - 0x100) as i8
        }
    }

    /// The two bytes starting at `index`, read as a little-endian unsigned
    /// integer.
    #[inline]
    pub fn get_u16_at(&self, index: usize) -> (r: u16)
        requires
            index + 2 <= self@.len(),
        ensures
            r == le_bytes_to_uint(self@.subrange(index as int, index + 2)),
    {
        let b0 = self.data[index] as u16;
        let b1 = self.data[index + 1] as u16;
        proof {
            reveal_with_fuel(le_bytes_to_uint, 4);
        }
        b0 + b1 * 256
    }

    /// The two bytes starting at `index`, read as a little-endian signed
    /// integer.
    #[inline]
    pub fn get_i16_at(&self, index: usize) -> (r: i16)
        requires
            index + 2 <= self@.len(),
        ensures
            r == as_signed(le_bytes_to_uint(self@.subrange(index as int, index + 2)), 16),
    {
        let v = self.get_u16_at(index);
        proof {
            reveal_with_fuel(pow2_spec, 17);
        }
        if v < 0x8000 {
            v as i16
        } else {
            (v as i32 - 0x10000) as i16
        }
    }

    /// The four bytes starting at `index`, read as a little-endian unsigned
    /// integer.
    #[inline]
    pub fn get_u32_at(&self, index: usize) -> (r: u32)
        requires
            index + 4 <= self@.len(),
        ensures
            r == le_bytes_to_uint(self@.subrange(index as int, index + 4)),
    {
        let b0 = self.data[index] as u32;
        let b1 = self.data[index + 1] as u32;
        let b2 = self.data[index + 2] as u32;
        let b3 = self.data[index + 3] as u32;
        proof {
            reveal_with_fuel(le_bytes_to_uint, 6);
        }
        b0 + 256 * (b1 + 256 * (b2 + 256 * b3))
    }

    /// The four bytes starting at `index`, read as a little-endian signed
    /// integer.
    #[inline]
    pub fn get_i32_at(&self, index: usize) -> (r: i32)
        requires
            index + 4 <= self@.len(),
        ensures
            r == as_signed(le_bytes_to_uint(self@.subrange(index as int, index + 4)), 32),
    {
        let v = self.get_u32_at(index);
        proof {
            reveal_with_fuel(pow2_spec, 33);
        }
        if v < 0x80000000 {
            v as i32
        } else {
            (v as i64 - 0x100000000) as i32
        }
    }

    /// The eight bytes starting at `index`, read as a little-endian unsigned
    /// integer.
    #[inline]
    pub fn get_u64_at(&self, index: usize) -> (r: u64)
        requires
            index + 8 <= self@.len(),
        ensures
            r == le_bytes_to_uint(self@.subrange(index as int, index + 8)),
    {
        let b0 = self.data[index] as u64;
        let b1 = self.data[index + 1] as u64;
        let b2 = self.data[index + 2] as u64;
        let b3 = self.data[index + 3] as u64;
        let b4 = self.data[index + 4] as u64;
        let b5 = self.data[index + 5] as u64;
        let b6 = self.data[index + 6] as u64;
        let b7 = self.data[index + 7] as u64;
        proof {
            reveal_with_fuel(le_bytes_to_uint, 10);
        }
        b0 + 256 * (b1 + 256 * (b2 + 256 * (b3 + 256 * (b4 + 256 * (b5 + 256 * (b6 + 256
            * b7))))))
    }

    /// The eight bytes starting at `index`, read as a little-endian signed
    /// integer.
    #[inline]
    pub fn get_i64_at(&self, index: usize) -> (r: i64)
        requires
            index + 8 <= self@.len(),
        ensures
            r == as_signed(le_bytes_to_uint(self@.subrange(index as int, index + 8)), 64),
    {
        let v = self.get_u64_at(index);
        proof {
            reveal_with_fuel(pow2_spec, 65);
        }
        if v < 0x8000000000000000 {
            v as i64
        } else {
            (v as i128 - 0x10000000000000000) as i64
        }
    }

    /// The `len` bytes starting at `index`, as a borrowed slice.
    #[inline]
    pub fn get_slice_at(&self, index: usize, len: usize) -> (r: &[u8])
        requires
            index + len <= self@.len(),
        ensures
            r@ == self@.subrange(index as int, index + len),
    {
        let n = self.data.len();
        proof {
            assert(index + len <= n);
        }
        &self.data[index..index + len]
    }
}

} // verus!
