//! The write contract: the operation set every backend implements with the
//! same observable effect.
//!
//! Each backend views its state as a bit stream (a length and, for backends
//! that keep content, a packed value).  Every operation's contract says
//! exactly how it extends that stream, when it validates its input, and
//! which error it returns on which input.  Backends differ only in three
//! declared capabilities: whether they keep the stream's content, whether
//! they validate at write time, and whether a sink failure can reach them.

use vstd::prelude::*;

use crate::stream::{
    bytes_val, lemma_ones_concat, lemma_pow2_128, lemma_push_val_assoc, pow2_u128, push_val,
    Endianness,
};
use crate::values::{SignedValue, UnsignedValue};

verus! {

use vstd::arithmetic::power2::*;
use vstd::arithmetic::div_mod::*;

/// The two failure kinds of the write contract.
#[derive(Clone, Copy, Debug, PartialEq, Eq, Structural)]
pub enum WriteError {
    /// The requested bit count exceeds the value type's width, or the value
    /// does not fit the requested bits: a programming error at the call
    /// site, never retried.
    InvalidInput,
    /// The underlying byte sink failed; propagated with no retry.
    Sink,
}

/// When `write(bits, value)` is valid: `bits` must fit within the value
/// type's width, and unless `bits` is the full width, the value must be
/// below `pow2(bits)`.
pub open spec fn fits_unsigned(bits: u32, value: UnsignedValue) -> bool {
    bits <= value.spec_width() && (bits == value.spec_width() || value.as_int() < pow2(bits as nat))
}

/// When `write_signed(bits, value)` is valid: at least one bit, at most the
/// value type's width, and the value within the two's-complement range of
/// `bits` bits.
pub open spec fn fits_signed(bits: u32, value: SignedValue) -> bool {
    &&& 1 <= bits
    &&& bits <= value.spec_width()
    &&& -pow2((bits - 1) as nat) <= value.as_int()
    &&& value.as_int() < pow2((bits - 1) as nat)
}

/// The pattern `write(bits, value)` appends: the low `bits` bits of the
/// value's two's-complement pattern.
pub open spec fn unsigned_pattern(bits: u32, value: UnsignedValue) -> nat {
    value.pattern() % pow2(bits as nat)
}

/// The pattern `write_signed(bits, value)` appends: the value's
/// two's-complement pattern in `bits` bits.
pub open spec fn signed_pattern(bits: u32, value: SignedValue) -> nat {
    value.pattern_in(bits as nat)
}

/// A single bit as a pattern.
pub open spec fn bool_bit(bit: bool) -> nat {
    if bit {
        1
    } else {
        0
    }
}

/// The pattern of `n` one-bits followed by one zero bit, as appended by
/// `write_unary0(n)`.
pub open spec fn unary0_pattern(e: Endianness, n: nat) -> nat {
    match e {
        Endianness::Big => (pow2(n + 1) - 2) as nat,
        Endianness::Little => (pow2(n) - 1) as nat,
    }
}

/// The pattern of `n` zero-bits followed by one one-bit, as appended by
/// `write_unary1(n)`.
pub open spec fn unary1_pattern(e: Endianness, n: nat) -> nat {
    match e {
        Endianness::Big => 1,
        Endianness::Little => pow2(n),
    }
}

/// How many zero bits `byte_align` appends to a stream of `len` bits.
pub open spec fn align_padding(len: nat) -> nat {
    ((8 - len % 8) % 8) as nat
}

/// The padding is below a byte, lands the stream on a byte boundary, and
/// vanishes on an already aligned stream.
pub proof fn lemma_align_padding_props(len: nat)
    ensures
        align_padding(len) < 8,
        (len + align_padding(len)) % 8 == 0,
        len % 8 == 0 ==> align_padding(len) == 0,
{
    lemma_fundamental_div_mod(len as int, 8);
    lemma_mod_bound(len as int, 8);
    let r = len % 8;
    if r == 0 {
        lemma_mod_self_0(8);
        lemma_mod_multiples_basic(len as int / 8, 8);
    } else {
        lemma_small_mod((8 - r) as nat, 8);
        lemma_mod_multiples_basic(len as int / 8 + 1, 8);
    }
}

/// Decides `fits_unsigned` at run time.
pub fn check_unsigned(bits: u32, value: &UnsignedValue) -> (r: bool)
    ensures
        r == fits_unsigned(bits, *value),
{
    let w = value.width();
    if bits > w {
        false
    } else if bits == w {
        true
    } else if value.is_negative() {
        proof {
            lemma_pow2_pos(bits as nat);
        }
        true
    } else {
        let p = value.to_bits();
        p < pow2_u128(bits)
    }
}

/// Decides `fits_signed` at run time.
pub fn check_signed(bits: u32, value: &SignedValue) -> (r: bool)
    ensures
        r == fits_signed(bits, *value),
{
    let w = value.width();
    if bits == 0 || bits > w {
        return false;
    }
    let v = value.to_i128();
    let half = pow2_u128(bits - 1);
    if v >= 0 {
        (v as u128) < half
    } else {
        let m = (-(v + 1)) as u128;
        m < half
    }
}

/// The low `bits` bits of the value's pattern, in the widest carrier.
pub(crate) fn unsigned_pattern_bits(bits: u32, value: &UnsignedValue) -> (r: u128)
    requires
        bits <= 128,
    ensures
        r as nat == unsigned_pattern(bits, *value),
        (r as nat) < pow2(bits as nat),
{
    let p = value.to_bits();
    if bits < 128 {
        let m = pow2_u128(bits);
        proof {
            lemma_pow2_pos(bits as nat);
            lemma_mod_division_less_than_divisor(p as int, m as int);
        }
        p % m
    } else {
        proof {
            lemma_pow2_128();
            if value.spec_width() < 128 {
                lemma_pow2_strictly_increases(value.spec_width(), 128);
            }
            lemma_small_mod(value.pattern(), pow2(128));
        }
        p
    }
}

/// The shared write contract.  All backends extend their stream
/// identically; they differ only in the three capabilities below.
pub trait BitWrite: Sized {
    /// The writer's bit ordering, fixed for its lifetime.
    spec fn endianness(&self) -> Endianness;

    /// How many bits the writer has accepted.
    spec fn stream_len(&self) -> nat;

    /// The packed value of the accepted bits; meaningful only for backends
    /// with `tracks_bits()`.
    spec fn stream_val(&self) -> nat;

    /// The backend's internal invariant.
    spec fn inv(&self) -> bool;

    /// Whether this backend keeps the content of the stream, not only its
    /// length.
    spec fn tracks_bits() -> bool;

    /// Whether this backend validates values at write time; the recorder
    /// defers validation to playback.
    spec fn checks_fit() -> bool;

    /// Whether a sink failure can reach this backend.
    spec fn sink_can_fail() -> bool;

    /// Writes a single bit; `true` is 1, `false` is 0.
    ///
    /// On a sink failure nothing is appended: the stream is unchanged.
    fn write_bit(&mut self, bit: bool) -> (r: Result<(), WriteError>)
        requires
            old(self).inv(),
            old(self).stream_len() + 1 <= u64::MAX,
        ensures
            final(self).inv(),
            final(self).endianness() == old(self).endianness(),
            final(self).stream_len() <= old(self).stream_len() + 1,
            r is Ok ==> final(self).stream_len() == old(self).stream_len() + 1,
            r is Ok && Self::tracks_bits() ==> final(self).stream_val() == push_val(
                old(self).endianness(),
                old(self).stream_len(),
                old(self).stream_val(),
                1,
                bool_bit(bit),
            ),
            old(self).stream_len() % 8 < 7 ==> r is Ok,
            !Self::sink_can_fail() ==> r is Ok,
            r is Err ==> r == Err::<(), WriteError>(WriteError::Sink) && Self::sink_can_fail()
                && final(self).stream_len() == old(self).stream_len() && (Self::tracks_bits()
                ==> final(self).stream_val() == old(self).stream_val()),
    ;

    /// Writes the low `bits` bits of `value`, first bit per the ordering.
    ///
    /// Fails with `InvalidInput` exactly when `bits` exceeds the width of
    /// the value's type, or the value does not fit `bits` bits; a backend
    /// without `checks_fit()` accepts everything and defers the check.  On
    /// a sink failure the stream reflects only what reached the sink.
    fn write(&mut self, bits: u32, value: UnsignedValue) -> (r: Result<(), WriteError>)
        requires
            old(self).inv(),
            old(self).stream_len() + bits <= u64::MAX,
        ensures
            final(self).inv(),
            final(self).endianness() == old(self).endianness(),
            final(self).stream_len() <= old(self).stream_len() + bits,
            r is Ok ==> final(self).stream_len() == old(self).stream_len() + bits,
            r is Ok && Self::tracks_bits() ==> final(self).stream_val() == push_val(
                old(self).endianness(),
                old(self).stream_len(),
                old(self).stream_val(),
                bits as nat,
                unsigned_pattern(bits, value),
            ),
            r == Err::<(), WriteError>(WriteError::InvalidInput) ==> Self::checks_fit()
                && !fits_unsigned(bits, value) && final(self).stream_len() == old(
                self,
            ).stream_len() && (Self::tracks_bits() ==> final(self).stream_val() == old(
                self,
            ).stream_val()),
            Self::checks_fit() && !fits_unsigned(bits, value) ==> r == Err::<(), WriteError>(
                WriteError::InvalidInput,
            ),
            r == Err::<(), WriteError>(WriteError::Sink) ==> Self::sink_can_fail(),
            old(self).stream_len() <= final(self).stream_len(),
            fits_unsigned(bits, value) && old(self).stream_len() % 8 + bits < 8 ==> r is Ok,
            fits_unsigned(bits, value) && !Self::sink_can_fail() ==> r is Ok,
            !Self::checks_fit() && !Self::sink_can_fail() ==> r is Ok,
    ;

    /// Writes the two's-complement pattern of `value` in `bits` bits.
    ///
    /// Fails with `InvalidInput` exactly when `bits` is zero, exceeds the
    /// width of the value's type, or the value is outside the
    /// two's-complement range of `bits` bits; a backend without
    /// `checks_fit()` accepts everything and defers the check.  On a sink
    /// failure the stream reflects only what reached the sink.
    fn write_signed(&mut self, bits: u32, value: SignedValue) -> (r: Result<(), WriteError>)
        requires
            old(self).inv(),
            old(self).stream_len() + bits <= u64::MAX,
        ensures
            final(self).inv(),
            final(self).endianness() == old(self).endianness(),
            final(self).stream_len() <= old(self).stream_len() + bits,
            r is Ok ==> final(self).stream_len() == old(self).stream_len() + bits,
            r is Ok && Self::tracks_bits() ==> final(self).stream_val() == push_val(
                old(self).endianness(),
                old(self).stream_len(),
                old(self).stream_val(),
                bits as nat,
                signed_pattern(bits, value),
            ),
            r == Err::<(), WriteError>(WriteError::InvalidInput) ==> Self::checks_fit()
                && !fits_signed(bits, value) && final(self).stream_len() == old(self).stream_len()
                && (Self::tracks_bits() ==> final(self).stream_val() == old(self).stream_val()),
            Self::checks_fit() && !fits_signed(bits, value) ==> r == Err::<(), WriteError>(
                WriteError::InvalidInput,
            ),
            r == Err::<(), WriteError>(WriteError::Sink) ==> Self::sink_can_fail(),
            old(self).stream_len() <= final(self).stream_len(),
            fits_signed(bits, value) && old(self).stream_len() % 8 + bits < 8 ==> r is Ok,
            fits_signed(bits, value) && !Self::sink_can_fail() ==> r is Ok,
            !Self::checks_fit() && !Self::sink_can_fail() ==> r is Ok,
    ;

    /// Writes a run of whole bytes, each as eight bits.
    ///
    /// On a sink failure the stream reflects only what reached the sink.
    #[verifier::loop_isolation(false)]
    #[verifier::rlimit(60)]
    fn write_bytes(&mut self, buf: &[u8]) -> (r: Result<(), WriteError>)
        requires
            old(self).inv(),
            old(self).stream_len() + 8 * buf@.len() <= u64::MAX,
        ensures
            final(self).inv(),
            final(self).endianness() == old(self).endianness(),
            final(self).stream_len() <= old(self).stream_len() + 8 * buf@.len(),
            r is Ok ==> final(self).stream_len() == old(self).stream_len() + 8 * buf@.len(),
            r is Ok && Self::tracks_bits() ==> final(self).stream_val() == push_val(
                old(self).endianness(),
                old(self).stream_len(),
                old(self).stream_val(),
                8 * buf@.len(),
                bytes_val(old(self).endianness(), buf@),
            ),
            r is Err ==> r == Err::<(), WriteError>(WriteError::Sink) && Self::sink_can_fail(),
            old(self).stream_len() <= final(self).stream_len(),
            !Self::sink_can_fail() ==> r is Ok,
    {
        let ghost g_e = old(self).endianness();
        let ghost g_len = old(self).stream_len();
        let ghost g_val = old(self).stream_val();
        let mut i: usize = 0;
        proof {
            assert(buf@.take(0) =~= Seq::<u8>::empty());
            crate::stream::lemma_push_val_empty(g_e, g_len, g_val);
        }
        while i < buf.len()
            invariant
                i <= buf@.len(),
                self.inv(),
                self.endianness() == g_e,
                g_len + 8 * buf@.len() <= u64::MAX,
                self.stream_len() == g_len + 8 * i,
                Self::tracks_bits() ==> self.stream_val() == push_val(
                    g_e,
                    g_len,
                    g_val,
                    (8 * i) as nat,
                    bytes_val(g_e, buf@.take(i as int)),
                ),
            decreases buf@.len() - i,
        {
            let b = buf[i];
            let ghost pre_len = self.stream_len();
            let ghost pre_val = self.stream_val();
            match self.write(8, UnsignedValue::U8(b)) {
                Ok(()) => {},
                Err(err) => {
                    return Err(err);
                },
            }
            proof {
                lemma2_to64();
                lemma_small_mod(b as nat, 256);
                assert(unsigned_pattern(8, UnsignedValue::U8(b)) == b as nat);
                if Self::tracks_bits() {
                    lemma_push_val_assoc(
                        g_e,
                        g_len,
                        g_val,
                        (8 * i) as nat,
                        bytes_val(g_e, buf@.take(i as int)),
                        8,
                        b as nat,
                    );
                    assert(buf@.take(i + 1) =~= buf@.take(i as int).push(b));
                    crate::stream::lemma_bytes_val_snoc(g_e, buf@.take(i as int), b);
                }
            }
            i = i + 1;
        }
        proof {
            assert(buf@.take(buf@.len() as int) =~= buf@);
        }
        Ok(())
    }

    /// Writes `value` one-bits, then a terminating zero bit.
    ///
    /// Runs longer than the widest carrier are emitted in chunks.  On a
    /// sink failure the stream reflects only what reached the sink.
    #[verifier::loop_isolation(false)]
    #[verifier::rlimit(60)]
    fn write_unary0(&mut self, value: u32) -> (r: Result<(), WriteError>)
        requires
            old(self).inv(),
            old(self).stream_len() + value + 1 <= u64::MAX,
        ensures
            final(self).inv(),
            final(self).endianness() == old(self).endianness(),
            final(self).stream_len() <= old(self).stream_len() + value + 1,
            r is Ok ==> final(self).stream_len() == old(self).stream_len() + value + 1,
            r is Ok && Self::tracks_bits() ==> final(self).stream_val() == push_val(
                old(self).endianness(),
                old(self).stream_len(),
                old(self).stream_val(),
                (value + 1) as nat,
                unary0_pattern(old(self).endianness(), value as nat),
            ),
            r is Err ==> r == Err::<(), WriteError>(WriteError::Sink) && Self::sink_can_fail(),
            old(self).stream_len() <= final(self).stream_len(),
            !Self::sink_can_fail() ==> r is Ok,
    {
        let ghost g_e = old(self).endianness();
        let ghost g_len = old(self).stream_len();
        let ghost g_val = old(self).stream_val();
        let mut remaining = value;
        proof {
            lemma_pow2_pos(0);
            lemma2_to64();
            crate::stream::lemma_push_val_empty(g_e, g_len, g_val);
        }
        while remaining > 64
            invariant
                remaining <= value,
                self.inv(),
                self.endianness() == g_e,
                g_len + value + 1 <= u64::MAX,
                self.stream_len() == g_len + (value - remaining),
                Self::tracks_bits() ==> self.stream_val() == push_val(
                    g_e,
                    g_len,
                    g_val,
                    (value - remaining) as nat,
                    (pow2((value - remaining) as nat) - 1) as nat,
                ),
            decreases remaining,
        {
            let ghost k = (value - remaining) as nat;
            match self.write(64, UnsignedValue::U64(u64::MAX)) {
                Ok(()) => {},
                Err(err) => {
                    return Err(err);
                },
            }
            proof {
                lemma2_to64();
                lemma_small_mod((u64::MAX) as nat, pow2(64));
                if Self::tracks_bits() {
                    lemma_push_val_assoc(
                        g_e,
                        g_len,
                        g_val,
                        k,
                        (pow2(k) - 1) as nat,
                        64,
                        (pow2(64) - 1) as nat,
                    );
                    lemma_ones_concat(g_e, k, 64);
                }
            }
            remaining = remaining - 64;
        }
        let ghost k = (value - remaining) as nat;
        if remaining > 0 {
            proof {
                lemma_pow2_pos(remaining as nat);
                lemma2_to64();
                lemma2_to64_rest();
                if remaining < 64 {
                    lemma_pow2_strictly_increases(remaining as nat, 64);
                }
                lemma_small_mod((pow2(remaining as nat) - 1) as nat, pow2(remaining as nat));
            }
            let ones = (pow2_u128(remaining) - 1) as u64;
            match self.write(remaining, UnsignedValue::U64(ones)) {
                Ok(()) => {},
                Err(err) => {
                    return Err(err);
                },
            }
            proof {
                if Self::tracks_bits() {
                    lemma_push_val_assoc(
                        g_e,
                        g_len,
                        g_val,
                        k,
                        (pow2(k) - 1) as nat,
                        remaining as nat,
                        (pow2(remaining as nat) - 1) as nat,
                    );
                    lemma_ones_concat(g_e, k, remaining as nat);
                }
            }
        }
        let res = self.write_bit(false);
        proof {
            if res is Ok && Self::tracks_bits() {
                lemma_push_val_assoc(
                    g_e,
                    g_len,
                    g_val,
                    value as nat,
                    (pow2(value as nat) - 1) as nat,
                    1,
                    0,
                );
                lemma_pow2_adds(value as nat, 1);
                lemma2_to64();
                lemma_pow2_pos(value as nat);
                assert(push_val(g_e, value as nat, (pow2(value as nat) - 1) as nat, 1, 0)
                    == unary0_pattern(g_e, value as nat)) by {
                    vstd::arithmetic::mul::lemma_mul_is_commutative(
                        (pow2(value as nat) - 1) as int,
                        2,
                    );
                }
            }
        }
        res
    }

    /// Writes `value` zero-bits, then a terminating one-bit.
    ///
    /// Runs longer than the widest carrier are emitted in chunks.  On a
    /// sink failure the stream reflects only what reached the sink.
    #[verifier::loop_isolation(false)]
    #[verifier::rlimit(60)]
    fn write_unary1(&mut self, value: u32) -> (r: Result<(), WriteError>)
        requires
            old(self).inv(),
            old(self).stream_len() + value + 1 <= u64::MAX,
        ensures
            final(self).inv(),
            final(self).endianness() == old(self).endianness(),
            final(self).stream_len() <= old(self).stream_len() + value + 1,
            r is Ok ==> final(self).stream_len() == old(self).stream_len() + value + 1,
            r is Ok && Self::tracks_bits() ==> final(self).stream_val() == push_val(
                old(self).endianness(),
                old(self).stream_len(),
                old(self).stream_val(),
                (value + 1) as nat,
                unary1_pattern(old(self).endianness(), value as nat),
            ),
            r is Err ==> r == Err::<(), WriteError>(WriteError::Sink) && Self::sink_can_fail(),
            old(self).stream_len() <= final(self).stream_len(),
            !Self::sink_can_fail() ==> r is Ok,
    {
        let ghost g_e = old(self).endianness();
        let ghost g_len = old(self).stream_len();
        let ghost g_val = old(self).stream_val();
        let mut remaining = value;
        proof {
            lemma_pow2_pos(0);
            lemma2_to64();
            crate::stream::lemma_push_val_empty(g_e, g_len, g_val);
        }
        while remaining > 64
            invariant
                remaining <= value,
                self.inv(),
                self.endianness() == g_e,
                g_len + value + 1 <= u64::MAX,
                self.stream_len() == g_len + (value - remaining),
                Self::tracks_bits() ==> self.stream_val() == push_val(
                    g_e,
                    g_len,
                    g_val,
                    (value - remaining) as nat,
                    0,
                ),
            decreases remaining,
        {
            let ghost k = (value - remaining) as nat;
            match self.write(64, UnsignedValue::U64(0)) {
                Ok(()) => {},
                Err(err) => {
                    return Err(err);
                },
            }
            proof {
                lemma2_to64();
                lemma_small_mod(0, pow2(64));
                if Self::tracks_bits() {
                    lemma_push_val_assoc(g_e, g_len, g_val, k, 0, 64, 0);
                    assert(push_val(g_e, k, 0, 64, 0) == 0);
                }
            }
            remaining = remaining - 64;
        }
        let ghost k = (value - remaining) as nat;
        if remaining > 0 {
            proof {
                lemma_pow2_pos(remaining as nat);
                lemma_small_mod(0, pow2(remaining as nat));
            }
            match self.write(remaining, UnsignedValue::U64(0)) {
                Ok(()) => {},
                Err(err) => {
                    return Err(err);
                },
            }
            proof {
                if Self::tracks_bits() {
                    lemma_push_val_assoc(g_e, g_len, g_val, k, 0, remaining as nat, 0);
                    assert(push_val(g_e, k, 0, remaining as nat, 0) == 0);
                }
            }
        }
        let res = self.write_bit(true);
        proof {
            if res is Ok && Self::tracks_bits() {
                lemma_push_val_assoc(g_e, g_len, g_val, value as nat, 0, 1, 1);
                assert(push_val(g_e, value as nat, 0, 1, 1) == unary1_pattern(
                    g_e,
                    value as nat,
                ));
            }
        }
        res
    }

    /// True iff no partial byte is pending: the stream holds whole bytes.
    fn byte_aligned(&self) -> (r: bool)
        requires
            self.inv(),
        ensures
            r == (self.stream_len() % 8 == 0),
    ;

    /// Writes zero bits one at a time until the stream is byte-aligned; a
    /// no-op on an aligned stream.
    ///
    /// On a sink failure the stream reflects only what reached the sink.
    #[verifier::loop_isolation(false)]
    #[verifier::rlimit(60)]
    fn byte_align(&mut self) -> (r: Result<(), WriteError>)
        requires
            old(self).inv(),
            old(self).stream_len() + 8 <= u64::MAX,
        ensures
            final(self).inv(),
            final(self).endianness() == old(self).endianness(),
            final(self).stream_len() <= old(self).stream_len() + align_padding(
                old(self).stream_len(),
            ),
            r is Ok ==> final(self).stream_len() == old(self).stream_len() + align_padding(
                old(self).stream_len(),
            ) && final(self).stream_len() % 8 == 0,
            r is Ok && Self::tracks_bits() ==> final(self).stream_val() == push_val(
                old(self).endianness(),
                old(self).stream_len(),
                old(self).stream_val(),
                align_padding(old(self).stream_len()),
                0,
            ),
            old(self).stream_len() % 8 == 0 ==> r is Ok,
            r is Err ==> r == Err::<(), WriteError>(WriteError::Sink) && Self::sink_can_fail(),
            old(self).stream_len() <= final(self).stream_len(),
            !Self::sink_can_fail() ==> r is Ok,
    {
        let ghost g_e = old(self).endianness();
        let ghost g_len = old(self).stream_len();
        let ghost g_val = old(self).stream_val();
        proof {
            crate::stream::lemma_push_val_empty(g_e, g_len, g_val);
            lemma_align_padding_props(g_len);
        }
        while !self.byte_aligned()
            invariant
                self.inv(),
                self.endianness() == g_e,
                g_len <= self.stream_len(),
                self.stream_len() <= g_len + align_padding(g_len),
                g_len + 8 <= u64::MAX,
                Self::tracks_bits() ==> self.stream_val() == push_val(
                    g_e,
                    g_len,
                    g_val,
                    (self.stream_len() - g_len) as nat,
                    0,
                ),
            decreases (8 - self.stream_len() % 8) % 8,
        {
            let ghost k = (self.stream_len() - g_len) as nat;
            match self.write_bit(false) {
                Ok(()) => {},
                Err(err) => {
                    return Err(err);
                },
            }
            proof {
                lemma_align_padding_props(g_len);
                assert(self.stream_len() <= g_len + align_padding(g_len));
                if Self::tracks_bits() {
                    lemma_push_val_assoc(g_e, g_len, g_val, k, 0, 1, 0);
                    assert(push_val(g_e, k, 0, 1, 0) == 0);
                }
            }
        }
        proof {
            lemma_align_padding_props(g_len);
            lemma_fundamental_div_mod(self.stream_len() as int, 8);
            lemma_fundamental_div_mod((g_len + align_padding(g_len)) as int, 8);
            assert(self.stream_len() == g_len + align_padding(g_len));
        }
        Ok(())
    }
}

} // verus!
