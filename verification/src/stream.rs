//! The mathematical model of a bit stream.
//!
//! A stream of bits is modelled as a pair: its length `len` and a packed
//! value `val < pow2(len)`.  The packing direction depends on the bit
//! ordering: in an MSB-first stream the earliest bit is the most significant
//! bit of `val`, so appending shifts `val` up; in an LSB-first stream the
//! earliest bit is the least significant bit, so appending adds above the
//! existing bits.  `push_val` is the single appending operation; everything a
//! writer does is some composition of pushes.

use vstd::prelude::*;

verus! {

use vstd::arithmetic::power2::*;
use vstd::arithmetic::div_mod::*;
use vstd::arithmetic::mul::*;

/// Which end of a value enters the stream first, chosen once when a writer
/// is constructed and fixed for its lifetime.
#[derive(Clone, Copy, PartialEq, Eq, Structural, Debug)]
pub enum Endianness {
    /// Most-significant-bit-first: the high bit of a value is written first.
    Big,
    /// Least-significant-bit-first: the low bit of a value is written first.
    Little,
}

/// The packed value of a stream after appending `b` bits with packed value
/// `p` to a stream of `len` bits packed as `val`.
///
/// MSB-first streams keep their earliest bits most significant, so the old
/// value is shifted up past the new bits; LSB-first streams keep their
/// earliest bits least significant, so the new bits land above the old ones.
pub open spec fn push_val(e: Endianness, len: nat, val: nat, b: nat, p: nat) -> nat {
    match e {
        Endianness::Big => val * pow2(b) + p,
        Endianness::Little => val + p * pow2(len),
    }
}

/// The value a reader of `b` bits at position `pos` of the stream
/// `(total_len, val)` would see.
pub open spec fn field_at(e: Endianness, total_len: nat, pos: nat, b: nat, val: nat) -> nat {
    if pos + b <= total_len {
        match e {
            Endianness::Big => (val / pow2((total_len - pos - b) as nat)) % pow2(b),
            Endianness::Little => (val / pow2(pos)) % pow2(b),
        }
    } else {
        0
    }
}

/// Appending keeps the packed value within the stream's width.
pub proof fn lemma_push_val_bound(e: Endianness, len: nat, val: nat, b: nat, p: nat)
    requires
        val < pow2(len),
        p < pow2(b),
    ensures
        push_val(e, len, val, b, p) < pow2(len + b),
{
    lemma_pow2_adds(len, b);
    lemma_pow2_pos(len);
    lemma_pow2_pos(b);
    lemma_mul_is_commutative(pow2(len) as int, pow2(b) as int);
    match e {
        Endianness::Big => {
            assert(val * pow2(b) <= (pow2(len) - 1) * pow2(b)) by {
                lemma_mul_inequality(val as int, pow2(len) - 1, pow2(b) as int);
            }
            assert((pow2(len) - 1) * pow2(b) == pow2(len) * pow2(b) - pow2(b)) by {
                lemma_mul_is_distributive_sub_other_way(pow2(b) as int, pow2(len) as int, 1);
            }
            assert(val * pow2(b) + p < pow2(len) * pow2(b));
            assert(pow2(len) * pow2(b) == pow2(len + b));
        },
        Endianness::Little => {
            assert(p * pow2(len) <= (pow2(b) - 1) * pow2(len)) by {
                lemma_mul_inequality(p as int, pow2(b) - 1, pow2(len) as int);
            }
            assert((pow2(b) - 1) * pow2(len) == pow2(b) * pow2(len) - pow2(len)) by {
                lemma_mul_is_distributive_sub_other_way(pow2(len) as int, pow2(b) as int, 1);
            }
        },
    }
}

/// Two consecutive pushes are one push of the combined bits.  The combined
/// packed value is itself a push of the second pattern onto the first.
pub proof fn lemma_push_val_assoc(
    e: Endianness,
    len: nat,
    val: nat,
    b1: nat,
    p1: nat,
    b2: nat,
    p2: nat,
)
    ensures
        push_val(e, len + b1, push_val(e, len, val, b1, p1), b2, p2) == push_val(
            e,
            len,
            val,
            (b1 + b2) as nat,
            push_val(e, b1, p1, b2, p2),
        ),
{
    lemma_pow2_adds(len, b1);
    lemma_pow2_adds(b1, b2);
    lemma_mul_is_commutative(pow2(len) as int, pow2(b1) as int);
    lemma_mul_is_commutative(pow2(b1) as int, pow2(b2) as int);
    match e {
        Endianness::Big => {
            assert((val * pow2(b1) + p1) * pow2(b2) == val * pow2(b1) * pow2(b2) + p1 * pow2(b2))
                by {
                lemma_mul_is_distributive_add_other_way(
                    pow2(b2) as int,
                    (val * pow2(b1)) as int,
                    p1 as int,
                );
            }
            assert(val * pow2(b1) * pow2(b2) == val * (pow2(b1) * pow2(b2))) by {
                lemma_mul_is_associative(val as int, pow2(b1) as int, pow2(b2) as int);
            }
            assert(val * (pow2(b1) * pow2(b2)) == val * pow2((b1 + b2) as nat));
            assert(push_val(e, len + b1, push_val(e, len, val, b1, p1), b2, p2) == val * pow2(
                (b1 + b2) as nat,
            ) + (p1 * pow2(b2) + p2));
        },
        Endianness::Little => {
            assert((p1 + p2 * pow2(b1)) * pow2(len) == p1 * pow2(len) + p2 * pow2(b1) * pow2(
                len,
            )) by {
                lemma_mul_is_distributive_add_other_way(
                    pow2(len) as int,
                    p1 as int,
                    (p2 * pow2(b1)) as int,
                );
            }
            assert(p2 * pow2(b1) * pow2(len) == p2 * (pow2(b1) * pow2(len))) by {
                lemma_mul_is_associative(p2 as int, pow2(b1) as int, pow2(len) as int);
            }
        },
    }
}

/// Appending zero bits changes nothing.
pub proof fn lemma_push_val_empty(e: Endianness, len: nat, val: nat)
    ensures
        push_val(e, len, val, 0, 0) == val,
{
    assert(pow2(0) == 1) by {
        lemma2_to64();
    }
}

/// Reading back the bits just appended recovers their packed value, for
/// either bit ordering: the write/read round trip is the identity.
pub proof fn lemma_push_val_field_at(e: Endianness, len: nat, val: nat, b: nat, p: nat)
    requires
        val < pow2(len),
        p < pow2(b),
    ensures
        field_at(e, len + b, len, b, push_val(e, len, val, b, p)) == p,
{
    lemma_pow2_pos(len);
    lemma_pow2_pos(b);
    match e {
        Endianness::Big => {
            assert(pow2(((len + b) - len - b) as nat) == 1) by {
                lemma2_to64();
            }
            assert((val * pow2(b) + p) % pow2(b) == p) by {
                lemma_mod_multiples_vanish(val as int, p as int, pow2(b) as int);
                lemma_small_mod(p, pow2(b));
            }
        },
        Endianness::Little => {
            assert((val + p * pow2(len)) / pow2(len) == p) by {
                lemma_div_multiples_vanish_fancy(p as int, val as int, pow2(len) as int);
            }
            lemma_small_mod(p, pow2(b));
        },
    }
}

/// A push onto an empty stream is just the pushed pattern.
pub proof fn lemma_push_val_base(e: Endianness, b: nat, p: nat)
    ensures
        push_val(e, 0, 0, b, p) == p,
{
    lemma2_to64();
    lemma_mul_basics(p as int);
}

/// An all-ones run followed by an all-ones run is one all-ones run, in
/// either bit ordering.
pub proof fn lemma_ones_concat(e: Endianness, k1: nat, k2: nat)
    ensures
        push_val(e, k1, (pow2(k1) - 1) as nat, k2, (pow2(k2) - 1) as nat) == pow2(k1 + k2) - 1,
{
    lemma_pow2_pos(k1);
    lemma_pow2_pos(k2);
    lemma_pow2_adds(k1, k2);
    lemma_mul_is_commutative(pow2(k1) as int, pow2(k2) as int);
    match e {
        Endianness::Big => {
            assert(((pow2(k1) - 1) as nat) * pow2(k2) == pow2(k1) * pow2(k2) - pow2(k2)) by {
                lemma_mul_is_distributive_sub_other_way(pow2(k2) as int, pow2(k1) as int, 1);
            }
        },
        Endianness::Little => {
            assert(((pow2(k2) - 1) as nat) * pow2(k1) == pow2(k2) * pow2(k1) - pow2(k1)) by {
                lemma_mul_is_distributive_sub_other_way(pow2(k1) as int, pow2(k2) as int, 1);
            }
        },
    }
}

/// The packed value of a sequence of whole bytes, each byte appended as
/// eight bits in stream order.
pub open spec fn bytes_val(e: Endianness, s: Seq<u8>) -> nat
    decreases s.len(),
{
    if s.len() == 0 {
        0
    } else {
        push_val(e, (8 * (s.len() - 1)) as nat, bytes_val(e, s.drop_last()), 8, s.last() as nat)
    }
}

/// A byte sequence's packed value is within its width.
pub proof fn lemma_bytes_val_bound(e: Endianness, s: Seq<u8>)
    ensures
        bytes_val(e, s) < pow2(8 * s.len()),
    decreases s.len(),
{
    if s.len() == 0 {
        lemma_pow2_pos(0);
    } else {
        lemma_bytes_val_bound(e, s.drop_last());
        assert(pow2(8) == 256) by {
            lemma2_to64();
        }
        lemma_push_val_bound(
            e,
            (8 * (s.len() - 1)) as nat,
            bytes_val(e, s.drop_last()),
            8,
            s.last() as nat,
        );
    }
}

/// Appending one byte to the sequence pushes eight bits onto the stream.
pub proof fn lemma_bytes_val_snoc(e: Endianness, s: Seq<u8>, x: u8)
    ensures
        bytes_val(e, s.push(x)) == push_val(e, 8 * s.len(), bytes_val(e, s), 8, x as nat),
{
    assert(s.push(x).drop_last() =~= s);
    assert(s.push(x).last() == x);
}

/// Concatenating byte sequences pushes the second's packed value onto the
/// first's.
pub proof fn lemma_bytes_val_concat(e: Endianness, s1: Seq<u8>, s2: Seq<u8>)
    ensures
        bytes_val(e, s1 + s2) == push_val(
            e,
            8 * s1.len(),
            bytes_val(e, s1),
            8 * s2.len(),
            bytes_val(e, s2),
        ),
    decreases s2.len(),
{
    if s2.len() == 0 {
        assert(s1 + s2 =~= s1);
        lemma_push_val_empty(e, 8 * s1.len(), bytes_val(e, s1));
    } else {
        let s2p = s2.drop_last();
        let x = s2.last();
        assert(s1 + s2 =~= (s1 + s2p).push(x));
        lemma_bytes_val_concat(e, s1, s2p);
        lemma_bytes_val_snoc(e, s1 + s2p, x);
        lemma_push_val_assoc(
            e,
            8 * s1.len(),
            bytes_val(e, s1),
            8 * s2p.len(),
            bytes_val(e, s2p),
            8,
            x as nat,
        );
        lemma_bytes_val_snoc(e, s2p, x);
    }
}

/// Byte sequences of equal length with equal packed values are equal: the
/// stream determines the bytes.
pub proof fn lemma_bytes_val_injective(e: Endianness, s1: Seq<u8>, s2: Seq<u8>)
    requires
        s1.len() == s2.len(),
        bytes_val(e, s1) == bytes_val(e, s2),
    ensures
        s1 =~= s2,
    decreases s1.len(),
{
    if s1.len() > 0 {
        let n = (s1.len() - 1) as nat;
        let v1 = bytes_val(e, s1.drop_last());
        let v2 = bytes_val(e, s2.drop_last());
        let x1 = s1.last() as nat;
        let x2 = s2.last() as nat;
        lemma_bytes_val_bound(e, s1.drop_last());
        lemma_bytes_val_bound(e, s2.drop_last());
        assert(pow2(8) == 256) by {
            lemma2_to64();
        }
        lemma_pow2_pos(8 * n);
        match e {
            Endianness::Big => {
                assert(v1 * 256 + x1 == v2 * 256 + x2);
                lemma_fundamental_div_mod_converse(
                    (v1 * 256 + x1) as int,
                    256,
                    v1 as int,
                    x1 as int,
                );
                lemma_fundamental_div_mod_converse(
                    (v2 * 256 + x2) as int,
                    256,
                    v2 as int,
                    x2 as int,
                );
            },
            Endianness::Little => {
                assert(v1 + x1 * pow2(8 * n) == v2 + x2 * pow2(8 * n));
                lemma_fundamental_div_mod_converse(
                    (v1 + x1 * pow2(8 * n)) as int,
                    pow2(8 * n) as int,
                    x1 as int,
                    v1 as int,
                );
                lemma_fundamental_div_mod_converse(
                    (v2 + x2 * pow2(8 * n)) as int,
                    pow2(8 * n) as int,
                    x2 as int,
                    v2 as int,
                );
            },
        }
        assert(x1 == x2 && v1 == v2);
        lemma_bytes_val_injective(e, s1.drop_last(), s2.drop_last());
        assert(s1 =~= s1.drop_last().push(s1.last()));
        assert(s2 =~= s2.drop_last().push(s2.last()));
    } else {
        assert(s1 =~= s2);
    }
}

/// Powers of two up to `pow2(127)` fit in a `u128`.
pub proof fn lemma_pow2_fits_u128(n: nat)
    requires
        n <= 127,
    ensures
        pow2(n) <= 0x8000_0000_0000_0000_0000_0000_0000_0000,
{
    lemma2_to64();
    lemma2_to64_rest();
    lemma_pow2_adds(64, 63);
    if n < 127 {
        lemma_pow2_strictly_increases(n, 127);
    }
}

/// The width of the widest carrier: a value below `pow2(128)` fits in a
/// `u128`.
pub proof fn lemma_pow2_128()
    ensures
        pow2(128) == 0x1_0000_0000_0000_0000_0000_0000_0000_0000,
        pow2(127) == 0x8000_0000_0000_0000_0000_0000_0000_0000,
{
    lemma2_to64();
    lemma2_to64_rest();
    lemma_pow2_adds(64, 64);
    lemma_pow2_adds(64, 63);
}

/// Computes `pow2(n)` as a `u128`.
pub fn pow2_u128(n: u32) -> (r: u128)
    requires
        n <= 127,
    ensures
        r == pow2(n as nat),
{
    let mut r: u128 = 1;
    let mut i: u32 = 0;
    proof {
        lemma2_to64();
    }
    while i < n
        invariant
            i <= n,
            n <= 127,
            r == pow2(i as nat),
        decreases n - i,
    {
        proof {
            lemma_pow2_fits_u128((i + 1) as nat);
            lemma_pow2_adds(i as nat, 1);
            lemma2_to64();
        }
        r = r * 2;
        i = i + 1;
    }
    r
}

} // verus!
