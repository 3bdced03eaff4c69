//! The counting backend: measures what a write sequence would cost.
//!
//! A `BitCounter` implements the whole write contract but discards every
//! bit, tracking only a running total.  It validates its inputs exactly as
//! the direct writer does, so an invalid call fails here too instead of
//! being silently accepted.  Comparing two counters compares their totals:
//! the cheaper of two candidate encodings can be picked without
//! materializing either.

use vstd::prelude::*;

use crate::stream::Endianness;
use crate::values::{SignedValue, UnsignedValue};
use crate::write::{check_signed, check_unsigned, BitWrite, WriteError};

verus! {

/// Counts the bits written, producing no output.
pub struct BitCounter {
    endian: Endianness,
    bits: u64,
}

impl BitCounter {
    /// A fresh counter, most-significant-bit-first.
    pub fn new() -> (c: BitCounter)
        ensures
            c.inv(),
            c.endianness() == Endianness::Big,
            c.stream_len() == 0,
    {
        BitCounter { endian: Endianness::Big, bits: 0 }
    }

    /// A fresh counter with the given bit ordering.
    pub fn endian(endianness: Endianness) -> (c: BitCounter)
        ensures
            c.inv(),
            c.endianness() == endianness,
            c.stream_len() == 0,
    {
        BitCounter { endian: endianness, bits: 0 }
    }

    /// The number of bits written so far.
    pub fn written(&self) -> (n: u64)
        ensures
            n == self.stream_len(),
    {
        self.bits
    }
}

impl BitWrite for BitCounter {
    closed spec fn endianness(&self) -> Endianness {
        self.endian
    }

    closed spec fn stream_len(&self) -> nat {
        self.bits as nat
    }

    closed spec fn stream_val(&self) -> nat {
        0
    }

    closed spec fn inv(&self) -> bool {
        true
    }

    open spec fn tracks_bits() -> bool {
        false
    }

    open spec fn checks_fit() -> bool {
        true
    }

    open spec fn sink_can_fail() -> bool {
        false
    }

    fn write_bit(&mut self, bit: bool) -> (r: Result<(), WriteError>) {
        self.bits = self.bits + 1;
        Ok(())
    }

    fn write(&mut self, bits: u32, value: UnsignedValue) -> (r: Result<(), WriteError>) {
        if !check_unsigned(bits, &value) {
            proof {
                assert(Self::checks_fit());
            }
            return Err(WriteError::InvalidInput);
        }
        self.bits = self.bits + bits as u64;
        Ok(())
    }

    fn write_signed(&mut self, bits: u32, value: SignedValue) -> (r: Result<(), WriteError>) {
        if !check_signed(bits, &value) {
            proof {
                assert(Self::checks_fit());
            }
            return Err(WriteError::InvalidInput);
        }
        self.bits = self.bits + bits as u64;
        Ok(())
    }

    fn write_bytes(&mut self, buf: &[u8]) -> (r: Result<(), WriteError>) {
        self.bits = self.bits + 8 * (buf.len() as u64);
        Ok(())
    }

    fn byte_aligned(&self) -> (r: bool) {
        self.bits % 8 == 0
    }
}

impl PartialEq for BitCounter {
    /// Two counters are equal when their totals are.
    fn eq(&self, other: &BitCounter) -> (r: bool) {
        self.bits == other.bits
    }
}

impl vstd::std_specs::cmp::PartialEqSpecImpl for BitCounter {
    open spec fn obeys_eq_spec() -> bool {
        true
    }

    open spec fn eq_spec(&self, other: &BitCounter) -> bool {
        self.stream_len() == other.stream_len()
    }
}

impl PartialOrd for BitCounter {
    /// Counters order by their totals: the smaller wrote fewer bits.
    fn partial_cmp(&self, other: &BitCounter) -> (r: Option<core::cmp::Ordering>) {
        if self.bits < other.bits {
            Some(core::cmp::Ordering::Less)
        } else if self.bits == other.bits {
            Some(core::cmp::Ordering::Equal)
        } else {
            Some(core::cmp::Ordering::Greater)
        }
    }
}

impl vstd::std_specs::cmp::PartialOrdSpecImpl for BitCounter {
    open spec fn obeys_partial_cmp_spec() -> bool {
        true
    }

    open spec fn partial_cmp_spec(&self, other: &BitCounter) -> Option<core::cmp::Ordering> {
        if self.stream_len() < other.stream_len() {
            Some(core::cmp::Ordering::Less)
        } else if self.stream_len() == other.stream_len() {
            Some(core::cmp::Ordering::Equal)
        } else {
            Some(core::cmp::Ordering::Greater)
        }
    }
}

} // verus!
