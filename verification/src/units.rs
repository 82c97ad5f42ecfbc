//! Counts that carry their unit: bits, bytes and 32-bit words.
//!
//! IR shifts are counted in bits, DR shifts in bytes and configuration
//! packets in 32-bit words. A count widens from words to bytes (times four)
//! and from bytes to bits (times eight); nothing narrows by itself.

use vstd::prelude::*;

verus! {

/// A count of bits.
#[derive(Clone, Copy, Debug)]
pub struct Bits<T>(pub T);

/// A count of bytes.
#[derive(Clone, Copy, Debug)]
pub struct Bytes<T>(pub T);

/// A count of 32-bit words.
#[derive(Clone, Copy, Debug)]
pub struct Words32<T>(pub T);

impl Bits<usize> {
    /// The same amount counted in bits: eight per byte.
    pub fn from(value: Bytes<usize>) -> (r: Self)
        requires
            value.0 * 8 <= usize::MAX,
        ensures
            r.0 == value.0 * 8,
    {
        Bits(value.0 * 8)
    }

    /// Whole bytes and the bits left over.
    pub fn as_pair(self) -> (r: (Bytes<usize>, Bits<usize>))
        ensures
            r.0.0 == self.0 / 8,
            r.1.0 == self.0 % 8,
            r.0.0 * 8 + r.1.0 == self.0,
            r.1.0 < 8,
    {
        (Bytes(self.0 / 8), Bits(self.0 % 8))
    }
}

impl Bytes<usize> {
    /// The same amount counted in bytes: four per word.
    pub fn from(value: Words32<usize>) -> (r: Self)
        requires
            value.0 * 4 <= usize::MAX,
        ensures
            r.0 == value.0 * 4,
    {
        Bytes(value.0 * 4)
    }
}

} // verus!
