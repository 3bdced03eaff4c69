//! The aligned byte writer: whole values straight to the sink.
//!
//! A `ByteWriter` writes whole numeric values and byte runs to a byte sink
//! in a chosen bit ordering, with no partial-byte state: MSB-first order
//! writes a value's bytes most significant first, LSB-first order least
//! significant first, exactly the bytes a byte-aligned `BitWriter` would
//! emit for the same value at its full width.

use vstd::prelude::*;

use crate::queue::BitQueue;
use crate::sink::ByteSink;
use crate::stream::{bytes_val, lemma_push_val_empty, push_val, Endianness};
use crate::values::UnsignedValue;
use crate::write::{BitWrite, WriteError};
use crate::writer::BitWriter;

verus! {

use vstd::arithmetic::power2::*;

/// Writes aligned whole values to a byte sink; keeps no internal state.
pub struct ByteWriter<S: ByteSink> {
    sink: S,
    endian: Endianness,
}

impl<S: ByteSink> ByteWriter<S> {
    /// The bytes already handed to the sink.
    pub closed spec fn emitted(self) -> Seq<u8> {
        self.sink.bytes()
    }

    /// The writer's bit ordering.
    pub closed spec fn endianness(self) -> Endianness {
        self.endian
    }

    /// Wraps a writer, most-significant-bit-first, around a byte sink.
    pub fn new(sink: S) -> (w: ByteWriter<S>)
        ensures
            w.endianness() == Endianness::Big,
            w.emitted() == sink.bytes(),
    {
        ByteWriter { sink, endian: Endianness::Big }
    }

    /// Wraps a writer with the given bit ordering around a byte sink.
    pub fn endian(sink: S, endianness: Endianness) -> (w: ByteWriter<S>)
        ensures
            w.endianness() == endianness,
            w.emitted() == sink.bytes(),
    {
        ByteWriter { sink, endian: endianness }
    }

    /// Unwraps the sink and disposes of the writer; nothing is pending, so
    /// nothing is lost.
    pub fn into_writer(self) -> (s: S)
        ensures
            s.bytes() == self.emitted(),
    {
        self.sink
    }

    /// Borrows the underlying sink.
    pub fn writer(&mut self) -> (r: &mut S)
        ensures
            (*r).bytes() == old(self).emitted(),
            final(self).emitted() == (*final(r)).bytes(),
            final(self).endianness() == old(self).endianness(),
    {
        &mut self.sink
    }

    /// Converts to a bit-level writer in the same bit ordering.
    pub fn into_bitwriter(self) -> (w: BitWriter<S>)
        ensures
            w.inv(),
            w.endianness() == self.endianness(),
            w.emitted() == self.emitted(),
            w.pending_len() == 0,
    {
        BitWriter::endian(self.sink, self.endian)
    }

    /// Writes a whole numeric value: its full width, as whole bytes in the
    /// writer's byte order.  The appended bytes pack the value's pattern
    /// exactly as a byte-aligned bit-level writer would.
    pub fn write(&mut self, value: UnsignedValue) -> (r: Result<(), WriteError>)
        ensures
            r is Ok ==> final(self).emitted().len() == old(self).emitted().len()
                + value.spec_width() / 8,
            r is Ok ==> final(self).emitted().take(old(self).emitted().len() as int) == old(
                self,
            ).emitted(),
            r is Ok ==> bytes_val(
                old(self).endianness(),
                final(self).emitted().skip(old(self).emitted().len() as int),
            ) == value.pattern(),
            r is Err ==> r == Err::<(), WriteError>(WriteError::Sink) && final(self).emitted()
                == old(self).emitted(),
            final(self).endianness() == old(self).endianness(),
            S::infallible() ==> r is Ok,
    {
        let width = value.width();
        let bits = value.to_bits();
        let mut acc = BitQueue::from_value(self.endian, width, bits);
        let out = acc.pop_bytes();
        proof {
            value.lemma_pattern_in_width();
            assert(8 * out@.len() + acc.spec_len() == width);
            assert(acc.spec_len() == 0);
            acc.lemma_wf_bounds();
            lemma2_to64();
            assert(acc.val() == 0);
            lemma_push_val_empty(self.endian, 8 * out@.len(), bytes_val(self.endian, out@));
            assert(bytes_val(self.endian, out@) == value.pattern());
        }
        let ghost pre = self.sink.bytes();
        match self.sink.write_all(out.as_slice()) {
            Ok(()) => {
                proof {
                    assert(self.sink.bytes().take(pre.len() as int) =~= pre);
                    assert(self.sink.bytes().skip(pre.len() as int) =~= out@);
                }
                Ok(())
            },
            Err(_) => Err(WriteError::Sink),
        }
    }

    /// Writes a run of whole bytes to the sink.
    pub fn write_bytes(&mut self, buf: &[u8]) -> (r: Result<(), WriteError>)
        ensures
            r is Ok ==> final(self).emitted() == old(self).emitted() + buf@,
            r is Err ==> r == Err::<(), WriteError>(WriteError::Sink) && final(self).emitted()
                == old(self).emitted(),
            final(self).endianness() == old(self).endianness(),
            S::infallible() ==> r is Ok,
    {
        match self.sink.write_all(buf) {
            Ok(()) => Ok(()),
            Err(_) => Err(WriteError::Sink),
        }
    }
}

} // verus!
