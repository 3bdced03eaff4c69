//! The direct-sink backend: turns write calls into bytes in a byte sink.
//!
//! A `BitWriter` owns a byte sink and one partial-byte accumulator.  Writes
//! smaller than the room left in the partial byte only fill it; larger
//! writes seed a wide accumulator with the whole value, top the partial
//! byte up to eight bits, emit whole bytes straight from the wide
//! accumulator, and carry the remainder over.  Only whole bytes ever reach
//! the sink, so a writer disposed of while misaligned discards its pending
//! partial byte.

use vstd::prelude::*;

use crate::bytewriter::ByteWriter;
use crate::queue::BitQueue;
use crate::sink::ByteSink;
use crate::stream::{
    bytes_val, lemma_bytes_val_concat, lemma_bytes_val_snoc, lemma_push_val_assoc,
    lemma_push_val_empty, pow2_u128, push_val, Endianness,
};
use crate::values::{twos_complement_128, SignedValue, UnsignedValue};
use crate::write::{bool_bit, check_signed, check_unsigned, BitWrite, WriteError};

verus! {

use vstd::arithmetic::power2::*;
use vstd::arithmetic::div_mod::*;

/// Writes bit values to an underlying byte sink in a chosen bit ordering.
///
/// Because only whole bytes reach the sink, the stream should be
/// byte-aligned before the writer's lifetime ends: a pending partial byte
/// is discarded on disposal, by design.
pub struct BitWriter<S: ByteSink> {
    sink: S,
    queue: BitQueue,
}

impl<S: ByteSink> BitWriter<S> {
    /// The bytes already handed to the sink.
    pub closed spec fn emitted(self) -> Seq<u8> {
        self.sink.bytes()
    }

    /// How many bits are pending in the partial byte.
    pub closed spec fn pending_len(self) -> nat {
        self.queue.spec_len()
    }

    /// The packed value of the pending partial byte.
    pub closed spec fn pending_val(self) -> nat {
        self.queue.val()
    }

    /// The stream is the emitted bytes followed by the pending bits; the
    /// pending part is always smaller than a byte.
    pub proof fn lemma_stream_decomposition(self)
        requires
            self.inv(),
        ensures
            self.stream_len() == 8 * self.emitted().len() + self.pending_len(),
            self.pending_len() < 8,
            self.pending_val() < pow2(self.pending_len()),
            self.stream_val() == push_val(
                self.endianness(),
                8 * self.emitted().len(),
                bytes_val(self.endianness(), self.emitted()),
                self.pending_len(),
                self.pending_val(),
            ),
    {
        self.queue.lemma_wf_bounds();
    }

    /// Wraps a writer, most-significant-bit-first, around a byte sink.
    pub fn new(sink: S) -> (w: BitWriter<S>)
        ensures
            w.inv(),
            w.endianness() == Endianness::Big,
            w.emitted() == sink.bytes(),
            w.pending_len() == 0,
            w.stream_len() == 8 * sink.bytes().len(),
            w.stream_val() == bytes_val(Endianness::Big, sink.bytes()),
    {
        BitWriter::endian(sink, Endianness::Big)
    }

    /// Wraps a writer with the given bit ordering around a byte sink.
    pub fn endian(sink: S, endianness: Endianness) -> (w: BitWriter<S>)
        ensures
            w.inv(),
            w.endianness() == endianness,
            w.emitted() == sink.bytes(),
            w.pending_len() == 0,
            w.stream_len() == 8 * sink.bytes().len(),
            w.stream_val() == bytes_val(endianness, sink.bytes()),
    {
        let w = BitWriter { sink, queue: BitQueue::new(endianness) };
        proof {
            lemma_push_val_empty(
                endianness,
                8 * w.sink.bytes().len(),
                bytes_val(endianness, w.sink.bytes()),
            );
        }
        w
    }

    /// Unwraps the sink and disposes of the writer.
    ///
    /// Any pending partial byte is discarded: only the emitted whole bytes
    /// survive.
    pub fn into_writer(self) -> (s: S)
        ensures
            s.bytes() == self.emitted(),
    {
        self.sink
    }

    /// Borrows the underlying sink if the stream is byte-aligned, so whole
    /// bytes can be written to it directly; `None` while a partial byte is
    /// pending.
    pub fn writer(&mut self) -> (r: Option<&mut S>)
        requires
            old(self).inv(),
        ensures
            r is Some <==> old(self).stream_len() % 8 == 0,
            r is None ==> *final(self) == *old(self),
            r matches Some(s) ==> (*s).bytes() == old(self).emitted() && final(self).inv()
                && final(self).emitted() == (*final(s)).bytes() && final(self).endianness()
                == old(self).endianness() && final(self).pending_len() == 0,
    {
        proof {
            lemma_mod_multiples_vanish(
                self.sink.bytes().len() as int,
                self.queue.spec_len() as int,
                8,
            );
            lemma_small_mod(self.queue.spec_len(), 8);
        }
        if self.queue.len() == 0 {
            Some(&mut self.sink)
        } else {
            None
        }
    }

    /// Converts to an aligned byte writer in the same bit ordering.
    ///
    /// Any pending partial byte is discarded, as with `into_writer`.
    pub fn into_bytewriter(self) -> (w: ByteWriter<S>)
        ensures
            w.endianness() == self.endianness(),
            w.emitted() == self.emitted(),
    {
        let e = self.queue.endian();
        ByteWriter::endian(self.sink, e)
    }

    /// Disposes of the writer and returns the pending partial byte as a
    /// `(bits, value)` pair: exactly what `into_writer` would discard.
    pub fn into_unwritten(self) -> (r: (u32, u8))
        requires
            self.inv(),
        ensures
            r.0 == self.pending_len(),
            r.1 == self.pending_val(),
    {
        proof {
            lemma2_to64();
            self.queue.lemma_wf_bounds();
            if self.queue.spec_len() < 8 {
                lemma_pow2_strictly_increases(self.queue.spec_len(), 8);
            }
        }
        (self.queue.len(), self.queue.value() as u8)
    }

    /// Appends `bits` bits with packed value `p` to the stream, filling the
    /// partial byte and emitting whole bytes.
    #[verifier::loop_isolation(false)]
    #[verifier::rlimit(60)]
    fn write_pattern(&mut self, bits: u32, p: u128) -> (r: Result<(), WriteError>)
        requires
            old(self).inv(),
            bits <= 128,
            (p as nat) < pow2(bits as nat),
        ensures
            final(self).inv(),
            final(self).endianness() == old(self).endianness(),
            final(self).stream_len() <= old(self).stream_len() + bits,
            r is Ok ==> final(self).stream_len() == old(self).stream_len() + bits,
            r is Ok ==> final(self).stream_val() == push_val(
                old(self).endianness(),
                old(self).stream_len(),
                old(self).stream_val(),
                bits as nat,
                p as nat,
            ),
            r is Err ==> r == Err::<(), WriteError>(WriteError::Sink) && !S::infallible(),
            old(self).stream_len() <= final(self).stream_len(),
            old(self).stream_len() % 8 + bits < 8 ==> r is Ok,
    {
        let ghost g_e = old(self).endianness();
        let ghost g_len = old(self).stream_len();
        let ghost g_val = old(self).stream_val();
        let ghost g_target = push_val(g_e, g_len, g_val, bits as nat, p as nat);
        let ghost g_n0 = self.sink.bytes().len();
        let ghost g_bv0 = bytes_val(g_e, self.sink.bytes());
        let ghost g_q0 = self.queue.spec_len();
        let ghost g_qv0 = self.queue.val();
        proof {
            lemma2_to64();
            self.queue.lemma_wf_bounds();
            lemma_mod_multiples_vanish(g_n0 as int, g_q0 as int, 8);
            lemma_small_mod(g_q0, 8);
        }
        let qlen = self.queue.len();
        if bits < 8 - qlen {
            self.queue.push(bits, p);
            proof {
                lemma_push_val_assoc(g_e, 8 * g_n0, g_bv0, g_q0, g_qv0, bits as nat, p as nat);
            }
            return Ok(());
        }
        let mut acc = BitQueue::from_value(self.queue.endian(), bits, p);
        if qlen > 0 {
            let t = 8 - qlen;
            let chunk = acc.pop(t);
            let ghost g_x = push_val(g_e, g_len, g_val, t as nat, chunk as nat);
            proof {
                assert(acc.endianness() == g_e);
                assert((p as nat) == push_val(g_e, t as nat, chunk as nat, acc.spec_len(), acc.val()));
                lemma_push_val_assoc(
                    g_e,
                    g_len,
                    g_val,
                    t as nat,
                    chunk as nat,
                    (bits - t) as nat,
                    acc.val(),
                );
                assert(g_target == push_val(g_e, (g_len + t) as nat, g_x, acc.spec_len(), acc.val()));
            }
            let mut tmp = self.queue;
            tmp.push(t, chunk);
            let ghost g_qv1 = tmp.val();
            proof {
                lemma_push_val_assoc(g_e, 8 * g_n0, g_bv0, g_q0, g_qv0, t as nat, chunk as nat);
                assert(g_x == push_val(g_e, 8 * g_n0, g_bv0, 8, g_qv1));
            }
            let byte = tmp.pop(8);
            proof {
                lemma_push_val_empty(g_e, 8, byte as nat);
                tmp.lemma_wf_bounds();
                assert(tmp.val() == 0);
                assert(g_qv1 == byte as nat);
            }
            match self.sink.write_byte(byte as u8) {
                Ok(()) => {
                    self.queue = tmp;
                    proof {
                        lemma_bytes_val_snoc(g_e, old(self).sink.bytes(), byte as u8);
                        assert((byte as u8) as nat == byte as nat);
                        assert(bytes_val(g_e, self.sink.bytes()) == g_x);
                        lemma_push_val_empty(
                            g_e,
                            8 * self.sink.bytes().len(),
                            bytes_val(g_e, self.sink.bytes()),
                        );
                        assert(self.stream_val() == g_x);
                        assert(self.stream_len() == g_len + t);
                    }
                },
                Err(_) => {
                    // the partial byte was never taken out: the stream is as
                    // it was, only the requested bits are not written
                    return Err(WriteError::Sink);
                },
            }
        }
        // The stream is byte-aligned here: the partial byte is empty and
        // what remains of the wide accumulator continues the target.
        let ghost g_len1 = self.stream_len();
        let ghost g_val1 = self.stream_val();
        proof {
            lemma_push_val_empty(
                g_e,
                8 * self.sink.bytes().len(),
                bytes_val(g_e, self.sink.bytes()),
            );
            assert(push_val(g_e, g_len1, g_val1, acc.spec_len(), acc.val()) == g_target);
        }
        let out = acc.pop_bytes();
        proof {
            lemma_push_val_assoc(
                g_e,
                g_len1,
                g_val1,
                8 * out@.len(),
                bytes_val(g_e, out@),
                acc.spec_len(),
                acc.val(),
            );
            assert(push_val(
                g_e,
                (g_len1 + 8 * out@.len()) as nat,
                push_val(g_e, g_len1, g_val1, 8 * out@.len(), bytes_val(g_e, out@)),
                acc.spec_len(),
                acc.val(),
            ) == g_target);
        }
        if out.len() > 0 {
            let ghost pre_bytes = self.sink.bytes();
            match self.sink.write_all(out.as_slice()) {
                Ok(()) => {
                    proof {
                        lemma_bytes_val_concat(g_e, pre_bytes, out@);
                        lemma_push_val_empty(
                            g_e,
                            8 * self.sink.bytes().len(),
                            bytes_val(g_e, self.sink.bytes()),
                        );
                    }
                },
                Err(_) => {
                    return Err(WriteError::Sink);
                },
            }
        }
        let rem = acc.len();
        let v = acc.value();
        let ghost g_len2 = self.stream_len();
        let ghost g_val2 = self.stream_val();
        proof {
            lemma_push_val_empty(
                g_e,
                8 * self.sink.bytes().len(),
                bytes_val(g_e, self.sink.bytes()),
            );
            assert(g_len2 == g_len1 + 8 * out@.len());
            assert(g_val2 == push_val(g_e, g_len1, g_val1, 8 * out@.len(), bytes_val(g_e, out@)));
            acc.lemma_wf_bounds();
            self.queue.lemma_wf_bounds();
            assert(self.queue.spec_len() == 0);
            assert(self.queue.val() == 0);
            assert(g_len2 == 8 * self.sink.bytes().len());
            assert(g_val2 == bytes_val(g_e, self.sink.bytes()));
        }
        self.queue.push(rem, v);
        proof {
            assert(self.queue.val() == push_val(g_e, 0, 0, rem as nat, v as nat));
            crate::stream::lemma_push_val_base(g_e, rem as nat, v as nat);
            assert(self.queue.val() == v as nat);
            assert(self.stream_val() == push_val(g_e, g_len2, g_val2, acc.spec_len(), acc.val()));
        }
        Ok(())
    }
}

impl<S: ByteSink> BitWrite for BitWriter<S> {
    closed spec fn endianness(&self) -> Endianness {
        self.queue.endianness()
    }

    closed spec fn stream_len(&self) -> nat {
        8 * self.sink.bytes().len() + self.queue.spec_len()
    }

    closed spec fn stream_val(&self) -> nat {
        push_val(
            self.queue.endianness(),
            8 * self.sink.bytes().len(),
            bytes_val(self.queue.endianness(), self.sink.bytes()),
            self.queue.spec_len(),
            self.queue.val(),
        )
    }

    closed spec fn inv(&self) -> bool {
        self.queue.wf() && self.queue.spec_len() < 8
    }

    open spec fn tracks_bits() -> bool {
        true
    }

    open spec fn checks_fit() -> bool {
        true
    }

    open spec fn sink_can_fail() -> bool {
        !S::infallible()
    }

    fn write_bit(&mut self, bit: bool) -> (r: Result<(), WriteError>) {
        let ghost g_e = old(self).endianness();
        let ghost g_n0 = self.sink.bytes().len();
        let ghost g_bv0 = bytes_val(g_e, self.sink.bytes());
        let ghost g_q0 = self.queue.spec_len();
        let ghost g_qv0 = self.queue.val();
        let ghost g_target = push_val(
            g_e,
            old(self).stream_len(),
            old(self).stream_val(),
            1,
            bool_bit(bit),
        );
        proof {
            lemma2_to64();
            self.queue.lemma_wf_bounds();
            lemma_mod_multiples_vanish(g_n0 as int, g_q0 as int, 8);
            lemma_small_mod(g_q0, 8);
        }
        let b: u128 = if bit {
            1
        } else {
            0
        };
        if self.queue.len() == 7 {
            // the bit completes a byte: fill a copy of the partial queue
            // and commit it only once the sink accepted the byte
            let mut tmp = self.queue;
            tmp.push(1, b);
            let ghost g_qv1 = tmp.val();
            proof {
                lemma_push_val_assoc(g_e, 8 * g_n0, g_bv0, g_q0, g_qv0, 1, bool_bit(bit));
                assert(g_target == push_val(g_e, 8 * g_n0, g_bv0, 8, g_qv1));
            }
            let byte = tmp.pop(8);
            proof {
                lemma_push_val_empty(g_e, 8, byte as nat);
                tmp.lemma_wf_bounds();
                assert(tmp.val() == 0);
                assert(g_qv1 == byte as nat);
            }
            match self.sink.write_byte(byte as u8) {
                Ok(()) => {
                    self.queue = tmp;
                    proof {
                        lemma_bytes_val_snoc(g_e, old(self).sink.bytes(), byte as u8);
                        assert((byte as u8) as nat == byte as nat);
                        assert(bytes_val(g_e, self.sink.bytes()) == g_target);
                        lemma_push_val_empty(
                            g_e,
                            8 * self.sink.bytes().len(),
                            bytes_val(g_e, self.sink.bytes()),
                        );
                        assert(self.stream_val() == g_target);
                    }
                    Ok(())
                },
                Err(_) => Err(WriteError::Sink),
            }
        } else {
            self.queue.push(1, b);
            proof {
                lemma_push_val_assoc(g_e, 8 * g_n0, g_bv0, g_q0, g_qv0, 1, bool_bit(bit));
            }
            Ok(())
        }
    }

    fn write(&mut self, bits: u32, value: UnsignedValue) -> (r: Result<(), WriteError>) {
        if !check_unsigned(bits, &value) {
            proof {
                assert(Self::checks_fit());
            }
            return Err(WriteError::InvalidInput);
        }
        let p = crate::write::unsigned_pattern_bits(bits, &value);
        self.write_pattern(bits, p)
    }

    fn write_signed(&mut self, bits: u32, value: SignedValue) -> (r: Result<(), WriteError>) {
        if !check_signed(bits, &value) {
            proof {
                assert(Self::checks_fit());
            }
            return Err(WriteError::InvalidInput);
        }
        let v = value.to_i128();
        let p = twos_complement_128(v, bits);
        self.write_pattern(bits, p)
    }

    fn write_bytes(&mut self, buf: &[u8]) -> (r: Result<(), WriteError>) {
        let ghost g_e = old(self).endianness();
        if self.queue.len() == 0 {
            let ghost pre_bytes = self.sink.bytes();
            proof {
                lemma2_to64();
                self.queue.lemma_wf_bounds();
                lemma_push_val_empty(g_e, 8 * pre_bytes.len(), bytes_val(g_e, pre_bytes));
            }
            match self.sink.write_all(buf) {
                Ok(()) => {
                    proof {
                        lemma_bytes_val_concat(g_e, pre_bytes, buf@);
                        lemma_push_val_empty(
                            g_e,
                            8 * self.sink.bytes().len(),
                            bytes_val(g_e, self.sink.bytes()),
                        );
                    }
                    Ok(())
                },
                Err(_) => Err(WriteError::Sink),
            }
        } else {
            self.write_bytes_unaligned(buf)
        }
    }

    fn byte_aligned(&self) -> (r: bool) {
        proof {
            lemma_mod_multiples_vanish(
                self.sink.bytes().len() as int,
                self.queue.spec_len() as int,
                8,
            );
            lemma_small_mod(self.queue.spec_len(), 8);
        }
        self.queue.len() == 0
    }
}

impl<S: ByteSink> BitWriter<S> {
    /// Writes each byte of `buf` through the bit-level path, for a stream
    /// that is not byte-aligned.
    #[verifier::loop_isolation(false)]
    fn write_bytes_unaligned(&mut self, buf: &[u8]) -> (r: Result<(), WriteError>)
        requires
            old(self).inv(),
            old(self).stream_len() + 8 * buf@.len() <= u64::MAX,
        ensures
            final(self).inv(),
            final(self).endianness() == old(self).endianness(),
            final(self).stream_len() <= old(self).stream_len() + 8 * buf@.len(),
            r is Ok ==> final(self).stream_len() == old(self).stream_len() + 8 * buf@.len()
                && final(self).stream_val() == push_val(
                old(self).endianness(),
                old(self).stream_len(),
                old(self).stream_val(),
                8 * buf@.len(),
                bytes_val(old(self).endianness(), buf@),
            ),
            r is Err ==> r == Err::<(), WriteError>(WriteError::Sink) && !S::infallible(),
            old(self).stream_len() <= final(self).stream_len(),
    {
        let ghost g_e = old(self).endianness();
        let ghost g_len = old(self).stream_len();
        let ghost g_val = old(self).stream_val();
        let mut i: usize = 0;
        proof {
            assert(buf@.take(0) =~= Seq::<u8>::empty());
            lemma_push_val_empty(g_e, g_len, g_val);
        }
        while i < buf.len()
            invariant
                i <= buf@.len(),
                self.inv(),
                self.endianness() == g_e,
                self.stream_len() == g_len + 8 * i,
                self.stream_val() == push_val(
                    g_e,
                    g_len,
                    g_val,
                    (8 * i) as nat,
                    bytes_val(g_e, buf@.take(i as int)),
                ),
            decreases buf@.len() - i,
        {
            let b = buf[i];
            proof {
                lemma2_to64();
                lemma_pow2_pos(8);
            }
            match self.write_pattern(8, b as u128) {
                Ok(()) => {},
                Err(err) => {
                    return Err(err);
                },
            }
            proof {
                lemma_push_val_assoc(
                    g_e,
                    g_len,
                    g_val,
                    (8 * i) as nat,
                    bytes_val(g_e, buf@.take(i as int)),
                    8,
                    b as nat,
                );
                assert(buf@.take(i + 1) =~= buf@.take(i as int).push(b));
                lemma_bytes_val_snoc(g_e, buf@.take(i as int), b);
            }
            i = i + 1;
        }
        proof {
            assert(buf@.take(buf@.len() as int) =~= buf@);
        }
        Ok(())
    }
}

} // verus!
