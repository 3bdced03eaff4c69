//! The bit accumulator: a small value holding up to 128 bits.
//!
//! A `BitQueue` holds a run of bits as a length and a packed value.  Bits are
//! pushed at the back and popped from the front, where front and back follow
//! the queue's bit ordering: an MSB-first queue keeps its oldest bit most
//! significant, an LSB-first queue keeps it least significant.  The direct
//! writer keeps one queue below a byte for the pending partial byte, and a
//! second, wide one while it splits a value into whole bytes.

use vstd::prelude::*;

use crate::stream::{
    lemma_pow2_128, lemma_pow2_fits_u128, lemma_push_val_bound, pow2_u128, push_val, Endianness,
};

verus! {

use vstd::arithmetic::power2::*;
use vstd::arithmetic::div_mod::*;
use vstd::arithmetic::mul::*;

/// A queue of up to 128 bits, packed into one `u128` in the order given by
/// its bit ordering.
#[derive(Clone, Copy)]
pub struct BitQueue {
    endian: Endianness,
    value: u128,
    len: u32,
}

impl BitQueue {
    /// The queue's bit ordering.
    pub closed spec fn endianness(self) -> Endianness {
        self.endian
    }

    /// How many bits the queue holds.
    pub closed spec fn spec_len(self) -> nat {
        self.len as nat
    }

    /// The queue's bits as a packed value.
    pub closed spec fn val(self) -> nat {
        self.value as nat
    }

    /// No garbage above the held bits: the packed value stays within the
    /// queue's length, which stays within the carrier.
    pub closed spec fn wf(self) -> bool {
        &&& self.len <= 128
        &&& self.val() < pow2(self.spec_len())
    }

    /// What well-formedness guarantees: the length fits the carrier and the
    /// packed value stays within the length.
    pub proof fn lemma_wf_bounds(self)
        requires
            self.wf(),
        ensures
            self.spec_len() <= 128,
            self.val() < pow2(self.spec_len()),
    {
    }

    /// An empty queue.
    pub fn new(endian: Endianness) -> (q: BitQueue)
        ensures
            q.wf(),
            q.endianness() == endian,
            q.spec_len() == 0,
            q.val() == 0,
    {
        proof {
            lemma_pow2_pos(0);
        }
        BitQueue { endian, value: 0, len: 0 }
    }

    /// A queue seeded with the low `bits` bits of `value`.
    pub fn from_value(endian: Endianness, bits: u32, value: u128) -> (q: BitQueue)
        requires
            bits <= 128,
            value < pow2(bits as nat),
        ensures
            q.wf(),
            q.endianness() == endian,
            q.spec_len() == bits,
            q.val() == value,
    {
        BitQueue { endian, value, len: bits }
    }

    /// The queue's bit ordering.
    pub fn endian(&self) -> (e: Endianness)
        ensures
            e == self.endianness(),
    {
        self.endian
    }

    /// The number of bits held.
    pub fn len(&self) -> (n: u32)
        ensures
            n == self.spec_len(),
    {
        self.len
    }

    /// The packed value of the bits held.
    pub fn value(&self) -> (v: u128)
        ensures
            v == self.val(),
    {
        self.value
    }

    /// True iff no bits are held.
    pub fn is_empty(&self) -> (r: bool)
        ensures
            r == (self.spec_len() == 0),
    {
        self.len == 0
    }

    /// Appends the low `bits` bits of `value` after the existing content.
    pub fn push(&mut self, bits: u32, value: u128)
        requires
            old(self).wf(),
            value < pow2(bits as nat),
            old(self).spec_len() + bits <= 128,
        ensures
            final(self).wf(),
            final(self).endianness() == old(self).endianness(),
            final(self).spec_len() == old(self).spec_len() + bits,
            final(self).val() == push_val(
                old(self).endianness(),
                old(self).spec_len(),
                old(self).val(),
                bits as nat,
                value as nat,
            ),
    {
        if bits == 0 {
            proof {
                lemma2_to64();
                crate::stream::lemma_push_val_empty(
                    self.endian,
                    self.spec_len(),
                    self.val(),
                );
            }
            return ;
        }
        if self.len == 0 {
            self.value = value;
            self.len = bits;
            proof {
                lemma2_to64();
                assert(pow2(0) == 1);
                assert(old(self).val() == 0);
                assert(old(self).val() * pow2(bits as nat) == 0);
                assert((value as nat) * pow2(0) == value as nat);
            }
            return ;
        }
        proof {
            lemma_push_val_bound(self.endian, self.spec_len(), self.val(), bits as nat, value as nat);
            lemma_pow2_128();
            lemma_pow2_adds(self.spec_len(), bits as nat);
            lemma_pow2_pos(self.spec_len());
            lemma_pow2_pos(bits as nat);
            if self.spec_len() + bits < 128 {
                lemma_pow2_strictly_increases((self.len + bits) as nat, 128);
            }
        }
        match self.endian {
            Endianness::Big => {
                let m = pow2_u128(bits);
                self.value = self.value * m + value;
            },
            Endianness::Little => {
                let m = pow2_u128(self.len);
                proof {
                    lemma_mul_is_commutative(value as int, pow2(self.len as nat) as int);
                }
                self.value = self.value + value * m;
            },
        }
        self.len = self.len + bits;
    }

    /// Removes the `bits` bits nearest the front and returns their packed
    /// value; the stream it held is the popped run followed by what remains.
    pub fn pop(&mut self, bits: u32) -> (r: u128)
        requires
            old(self).wf(),
            bits <= old(self).spec_len(),
        ensures
            final(self).wf(),
            final(self).endianness() == old(self).endianness(),
            final(self).spec_len() == old(self).spec_len() - bits,
            r < pow2(bits as nat),
            old(self).val() == push_val(
                old(self).endianness(),
                bits as nat,
                r as nat,
                final(self).spec_len(),
                final(self).val(),
            ),
    {
        if bits == 0 {
            proof {
                lemma2_to64();
                lemma_pow2_pos(self.spec_len());
            }
            return 0;
        }
        if bits == self.len {
            let r = self.value;
            self.value = 0;
            self.len = 0;
            proof {
                lemma2_to64();
                lemma_pow2_pos(bits as nat);
            }
            return r;
        }
        let rest = self.len - bits;
        proof {
            lemma_pow2_adds(bits as nat, rest as nat);
            lemma_mul_is_commutative(pow2(bits as nat) as int, pow2(rest as nat) as int);
            lemma_pow2_pos(bits as nat);
            lemma_pow2_pos(rest as nat);
        }
        match self.endian {
            Endianness::Big => {
                let d = pow2_u128(rest);
                let r = self.value / d;
                proof {
                    lemma_fundamental_div_mod(self.value as int, d as int);
                    lemma_mod_division_less_than_divisor(self.value as int, d as int);
                    lemma_multiply_divide_lt(self.value as int, d as int, pow2(bits as nat) as int);
                    lemma_mul_is_commutative(d as int, r as int);
                }
                self.value = self.value % d;
                self.len = rest;
                r
            },
            Endianness::Little => {
                let d = pow2_u128(bits);
                let r = self.value % d;
                proof {
                    lemma_fundamental_div_mod(self.value as int, d as int);
                    lemma_mod_division_less_than_divisor(self.value as int, d as int);
                    lemma_multiply_divide_lt(self.value as int, d as int, pow2(rest as nat) as int);
                    lemma_mul_is_commutative(d as int, (self.value / d) as int);
                }
                self.value = self.value / d;
                self.len = rest;
                r
            },
        }
    }

    /// Removes whole bytes from the front until fewer than eight bits
    /// remain, returning them in stream order: the queue held the returned
    /// bytes followed by what remains.
    #[verifier::loop_isolation(false)]
    pub fn pop_bytes(&mut self) -> (out: Vec<u8>)
        requires
            old(self).wf(),
        ensures
            final(self).wf(),
            final(self).endianness() == old(self).endianness(),
            final(self).spec_len() < 8,
            8 * out@.len() + final(self).spec_len() == old(self).spec_len(),
            old(self).val() == push_val(
                old(self).endianness(),
                8 * out@.len(),
                crate::stream::bytes_val(old(self).endianness(), out@),
                final(self).spec_len(),
                final(self).val(),
            ),
    {
        let ghost g_e = self.endianness();
        let ghost g_val0 = self.val();
        let mut out: Vec<u8> = Vec::new();
        proof {
            lemma2_to64();
            assert(out@ =~= Seq::<u8>::empty());
            assert(crate::stream::bytes_val(g_e, out@) == 0);
            assert(push_val(g_e, 0, 0, self.spec_len(), self.val()) == g_val0);
        }
        while self.len >= 8
            invariant
                self.wf(),
                self.endianness() == g_e,
                8 * out@.len() + self.spec_len() == old(self).spec_len(),
                g_val0 == push_val(
                    g_e,
                    8 * out@.len(),
                    crate::stream::bytes_val(g_e, out@),
                    self.spec_len(),
                    self.val(),
                ),
            decreases self.spec_len(),
        {
            let ghost pre_out = out@;
            let byte = self.pop(8);
            out.push(byte as u8);
            proof {
                crate::stream::lemma_push_val_assoc(
                    g_e,
                    8 * pre_out.len(),
                    crate::stream::bytes_val(g_e, pre_out),
                    8,
                    byte as nat,
                    self.spec_len(),
                    self.val(),
                );
                crate::stream::lemma_bytes_val_snoc(g_e, pre_out, byte as u8);
                assert(out@ =~= pre_out.push(byte as u8));
            }
        }
        out
    }
}

} // verus!
