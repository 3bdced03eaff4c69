//! Width-tagged numeric values.
//!
//! `write` and `write_signed` accept a value of any fixed width from 8 to
//! 128 bits, signed or unsigned, through one closed tagged union per
//! signedness.  Each value knows its type's bit width, its mathematical
//! value, and its two's-complement bit pattern at that width; the write
//! contracts are stated over those three.

use vstd::prelude::*;

use crate::stream::{lemma_pow2_128, pow2_u128};

verus! {

use vstd::arithmetic::power2::*;
use vstd::arithmetic::div_mod::*;

/// A value for `write`: any fixed-width integer, tagged with its type.
#[derive(Clone, Copy, Debug)]
pub enum UnsignedValue {
    /// An 8-bit unsigned value.
    U8(u8),
    /// A 16-bit unsigned value.
    U16(u16),
    /// A 32-bit unsigned value.
    U32(u32),
    /// A 64-bit unsigned value.
    U64(u64),
    /// A 128-bit unsigned value.
    U128(u128),
    /// An 8-bit signed value, written as its two's-complement pattern.
    I8(i8),
    /// A 16-bit signed value, written as its two's-complement pattern.
    I16(i16),
    /// A 32-bit signed value, written as its two's-complement pattern.
    I32(i32),
    /// A 64-bit signed value, written as its two's-complement pattern.
    I64(i64),
    /// A 128-bit signed value, written as its two's-complement pattern.
    I128(i128),
}

/// A value for `write_signed`: a signed fixed-width integer, tagged with
/// its type.
#[derive(Clone, Copy, Debug)]
pub enum SignedValue {
    /// An 8-bit signed value.
    I8(i8),
    /// A 16-bit signed value.
    I16(i16),
    /// A 32-bit signed value.
    I32(i32),
    /// A 64-bit signed value.
    I64(i64),
    /// A 128-bit signed value.
    I128(i128),
}

impl UnsignedValue {
    /// The bit width of the value's type.
    pub open spec fn spec_width(self) -> nat {
        match self {
            UnsignedValue::U8(_) => 8,
            UnsignedValue::U16(_) => 16,
            UnsignedValue::U32(_) => 32,
            UnsignedValue::U64(_) => 64,
            UnsignedValue::U128(_) => 128,
            UnsignedValue::I8(_) => 8,
            UnsignedValue::I16(_) => 16,
            UnsignedValue::I32(_) => 32,
            UnsignedValue::I64(_) => 64,
            UnsignedValue::I128(_) => 128,
        }
    }

    /// The value as a mathematical integer.
    pub open spec fn as_int(self) -> int {
        match self {
            UnsignedValue::U8(v) => v as int,
            UnsignedValue::U16(v) => v as int,
            UnsignedValue::U32(v) => v as int,
            UnsignedValue::U64(v) => v as int,
            UnsignedValue::U128(v) => v as int,
            UnsignedValue::I8(v) => v as int,
            UnsignedValue::I16(v) => v as int,
            UnsignedValue::I32(v) => v as int,
            UnsignedValue::I64(v) => v as int,
            UnsignedValue::I128(v) => v as int,
        }
    }

    /// The value's bit pattern at its type's width: the value itself when
    /// non-negative, its two's complement otherwise.
    pub open spec fn pattern(self) -> nat {
        if self.as_int() >= 0 {
            self.as_int() as nat
        } else {
            (self.as_int() + pow2(self.spec_width())) as nat
        }
    }

    /// The pattern stays within the type's width.
    pub proof fn lemma_pattern_in_width(self)
        ensures
            self.pattern() < pow2(self.spec_width()),
    {
        lemma2_to64();
        lemma2_to64_rest();
        lemma_pow2_128();
    }

    /// The bit width of the value's type.
    pub fn width(&self) -> (w: u32)
        ensures
            w == self.spec_width(),
    {
        match self {
            UnsignedValue::U8(_) => 8,
            UnsignedValue::U16(_) => 16,
            UnsignedValue::U32(_) => 32,
            UnsignedValue::U64(_) => 64,
            UnsignedValue::U128(_) => 128,
            UnsignedValue::I8(_) => 8,
            UnsignedValue::I16(_) => 16,
            UnsignedValue::I32(_) => 32,
            UnsignedValue::I64(_) => 64,
            UnsignedValue::I128(_) => 128,
        }
    }

    /// True iff the value is below zero.
    pub fn is_negative(&self) -> (r: bool)
        ensures
            r == (self.as_int() < 0),
    {
        match self {
            UnsignedValue::U8(_) => false,
            UnsignedValue::U16(_) => false,
            UnsignedValue::U32(_) => false,
            UnsignedValue::U64(_) => false,
            UnsignedValue::U128(_) => false,
            UnsignedValue::I8(v) => *v < 0,
            UnsignedValue::I16(v) => *v < 0,
            UnsignedValue::I32(v) => *v < 0,
            UnsignedValue::I64(v) => *v < 0,
            UnsignedValue::I128(v) => *v < 0,
        }
    }

    /// The value's bit pattern, zero-extended into the widest carrier.
    pub fn to_bits(&self) -> (r: u128)
        ensures
            r as nat == self.pattern(),
            (r as nat) < pow2(self.spec_width()),
    {
        proof {
            lemma2_to64();
            lemma2_to64_rest();
            lemma_pow2_128();
        }
        match self {
            UnsignedValue::U8(v) => *v as u128,
            UnsignedValue::U16(v) => *v as u128,
            UnsignedValue::U32(v) => *v as u128,
            UnsignedValue::U64(v) => *v as u128,
            UnsignedValue::U128(v) => *v,
            UnsignedValue::I8(v) => twos_complement_128(*v as i128, 8),
            UnsignedValue::I16(v) => twos_complement_128(*v as i128, 16),
            UnsignedValue::I32(v) => twos_complement_128(*v as i128, 32),
            UnsignedValue::I64(v) => twos_complement_128(*v as i128, 64),
            UnsignedValue::I128(v) => twos_complement_128(*v, 128),
        }
    }
}

impl SignedValue {
    /// The bit width of the value's type.
    pub open spec fn spec_width(self) -> nat {
        match self {
            SignedValue::I8(_) => 8,
            SignedValue::I16(_) => 16,
            SignedValue::I32(_) => 32,
            SignedValue::I64(_) => 64,
            SignedValue::I128(_) => 128,
        }
    }

    /// The value as a mathematical integer.
    pub open spec fn as_int(self) -> int {
        match self {
            SignedValue::I8(v) => v as int,
            SignedValue::I16(v) => v as int,
            SignedValue::I32(v) => v as int,
            SignedValue::I64(v) => v as int,
            SignedValue::I128(v) => v as int,
        }
    }

    /// The value's two's-complement pattern in `bits` bits.
    pub open spec fn pattern_in(self, bits: nat) -> nat {
        if self.as_int() >= 0 {
            self.as_int() as nat
        } else {
            (self.as_int() + pow2(bits)) as nat
        }
    }

    /// The bit width of the value's type.
    pub fn width(&self) -> (w: u32)
        ensures
            w == self.spec_width(),
    {
        match self {
            SignedValue::I8(_) => 8,
            SignedValue::I16(_) => 16,
            SignedValue::I32(_) => 32,
            SignedValue::I64(_) => 64,
            SignedValue::I128(_) => 128,
        }
    }

    /// The value widened into the widest signed carrier.
    pub fn to_i128(&self) -> (r: i128)
        ensures
            r as int == self.as_int(),
    {
        match self {
            SignedValue::I8(v) => *v as i128,
            SignedValue::I16(v) => *v as i128,
            SignedValue::I32(v) => *v as i128,
            SignedValue::I64(v) => *v as i128,
            SignedValue::I128(v) => *v,
        }
    }
}

/// The two's-complement pattern of `v` in `bits` bits, for a `v` in range.
pub fn twos_complement_128(v: i128, bits: u32) -> (r: u128)
    requires
        1 <= bits <= 128,
        -pow2((bits - 1) as nat) <= v as int,
        v < pow2((bits - 1) as nat),
    ensures
        r as nat == (if v >= 0 {
            v as nat
        } else {
            (v + pow2(bits as nat)) as nat
        }),
        (r as nat) < pow2(bits as nat),
{
    proof {
        lemma_pow2_128();
        lemma_pow2_adds((bits - 1) as nat, 1);
        lemma2_to64();
        if bits < 128 {
            crate::stream::lemma_pow2_fits_u128(bits as nat);
        }
    }
    if v >= 0 {
        v as u128
    } else {
        let m = (-(v + 1)) as u128;
        let top: u128 = if bits == 128 {
            u128::MAX
        } else {
            pow2_u128(bits) - 1
        };
        top - m
    }
}

} // verus!
