//! The recording backend: defers a write sequence for later playback.
//!
//! A `BitRecorder` implements the write contract by logging every call as a
//! tagged record and advancing a running total.  No fit validation happens
//! at record time; it is deferred to playback, where each record goes
//! through the target's own `write`, `write_signed` or `write_bytes`.
//! Playback does not consume the log, so one recording can be replayed any
//! number of times: once onto a counter to learn its cost, again onto a
//! real sink to commit it.

use vstd::prelude::*;

use crate::stream::{lemma_push_val_assoc, lemma_push_val_empty, push_val, Endianness};
use crate::values::{SignedValue, UnsignedValue};
use crate::write::{
    bool_bit, fits_signed, fits_unsigned, signed_pattern, unsigned_pattern, BitWrite, WriteError,
};

verus! {

/// One recorded write call, carrying exactly the arguments given.
#[allow(inconsistent_fields)]
pub enum WriteRecord {
    /// A `write_bit` call.
    Bit(bool),
    /// A `write` call with its width-tagged value.
    Unsigned {
        /// The requested bit count.
        bits: u32,
        /// The value to write.
        value: UnsignedValue,
    },
    /// A `write_signed` call with its width-tagged value.
    Signed {
        /// The requested bit count.
        bits: u32,
        /// The value to write.
        value: SignedValue,
    },
    /// A `write_bytes` call with its buffer.
    Bytes(Vec<u8>),
}

impl WriteRecord {
    /// How many bits replaying this record writes.
    pub open spec fn rec_len(self) -> nat {
        match self {
            WriteRecord::Bit(_) => 1,
            WriteRecord::Unsigned { bits, .. } => bits as nat,
            WriteRecord::Signed { bits, .. } => bits as nat,
            WriteRecord::Bytes(b) => 8 * b@.len(),
        }
    }

    /// The pattern replaying this record appends, under the target's bit
    /// ordering.
    pub open spec fn rec_pattern(self, e: Endianness) -> nat {
        match self {
            WriteRecord::Bit(b) => bool_bit(b),
            WriteRecord::Unsigned { bits, value } => unsigned_pattern(bits, value),
            WriteRecord::Signed { bits, value } => signed_pattern(bits, value),
            WriteRecord::Bytes(b) => crate::stream::bytes_val(e, b@),
        }
    }

    /// Whether this record passes the fit validation a checking target
    /// runs at playback.
    pub open spec fn rec_fits(self) -> bool {
        match self {
            WriteRecord::Bit(_) => true,
            WriteRecord::Unsigned { bits, value } => fits_unsigned(bits, value),
            WriteRecord::Signed { bits, value } => fits_signed(bits, value),
            WriteRecord::Bytes(_) => true,
        }
    }

    /// Replays this record through the target's own write operation, which
    /// performs the deferred validation.
    pub fn playback<W: BitWrite>(&self, writer: &mut W) -> (r: Result<(), WriteError>)
        requires
            old(writer).inv(),
            old(writer).stream_len() + self.rec_len() <= u64::MAX,
        ensures
            final(writer).inv(),
            final(writer).endianness() == old(writer).endianness(),
            final(writer).stream_len() <= old(writer).stream_len() + self.rec_len(),
            r is Ok ==> final(writer).stream_len() == old(writer).stream_len() + self.rec_len(),
            r is Ok && W::tracks_bits() ==> final(writer).stream_val() == push_val(
                old(writer).endianness(),
                old(writer).stream_len(),
                old(writer).stream_val(),
                self.rec_len(),
                self.rec_pattern(old(writer).endianness()),
            ),
            r == Err::<(), WriteError>(WriteError::InvalidInput) ==> W::checks_fit()
                && !self.rec_fits() && final(writer).stream_len() == old(writer).stream_len() && (
            W::tracks_bits() ==> final(writer).stream_val() == old(writer).stream_val()),
            W::checks_fit() && !self.rec_fits() ==> r == Err::<(), WriteError>(
                WriteError::InvalidInput,
            ),
            r == Err::<(), WriteError>(WriteError::Sink) ==> W::sink_can_fail(),
            old(writer).stream_len() <= final(writer).stream_len(),
            self.rec_fits() && !W::sink_can_fail() ==> r is Ok,
            !W::checks_fit() && !W::sink_can_fail() ==> r is Ok,
    {
        match self {
            WriteRecord::Bit(b) => writer.write_bit(*b),
            WriteRecord::Unsigned { bits, value } => writer.write(*bits, *value),
            WriteRecord::Signed { bits, value } => writer.write_signed(*bits, *value),
            WriteRecord::Bytes(bytes) => writer.write_bytes(bytes.as_slice()),
        }
    }
}

/// The bits a log of records writes in total.
pub open spec fn log_len(log: Seq<WriteRecord>) -> nat
    decreases log.len(),
{
    if log.len() == 0 {
        0
    } else {
        log_len(log.drop_last()) + log.last().rec_len()
    }
}

/// The pattern a log of records appends under the target's bit ordering.
pub open spec fn log_pattern(e: Endianness, log: Seq<WriteRecord>) -> nat
    decreases log.len(),
{
    if log.len() == 0 {
        0
    } else {
        push_val(
            e,
            log_len(log.drop_last()),
            log_pattern(e, log.drop_last()),
            log.last().rec_len(),
            log.last().rec_pattern(e),
        )
    }
}

/// Whether every record of the log passes fit validation.
pub open spec fn log_fits(log: Seq<WriteRecord>) -> bool {
    forall|i: int| 0 <= i < log.len() ==> (#[trigger] log[i]).rec_fits()
}

/// One more record extends the log's length and pattern by one push.
proof fn lemma_log_take_succ(e: Endianness, log: Seq<WriteRecord>, i: int)
    requires
        0 <= i < log.len(),
    ensures
        log_len(log.take(i + 1)) == log_len(log.take(i)) + log[i].rec_len(),
        log_pattern(e, log.take(i + 1)) == push_val(
            e,
            log_len(log.take(i)),
            log_pattern(e, log.take(i)),
            log[i].rec_len(),
            log[i].rec_pattern(e),
        ),
{
    assert(log.take(i + 1).drop_last() =~= log.take(i));
    assert(log.take(i + 1).last() == log[i]);
}

/// A prefix of the log never writes more than the whole log.
proof fn lemma_log_len_take_le(log: Seq<WriteRecord>, i: int)
    requires
        0 <= i <= log.len(),
    ensures
        log_len(log.take(i)) <= log_len(log),
    decreases log.len(),
{
    if i == log.len() {
        assert(log.take(i) =~= log);
    } else {
        assert(log.take(i) =~= log.drop_last().take(i));
        lemma_log_len_take_le(log.drop_last(), i);
    }
}

/// Records writes in order, to play them back on another writer.
pub struct BitRecorder {
    endian: Endianness,
    bits: u64,
    records: Vec<WriteRecord>,
}

impl BitRecorder {
    /// The recorded log.
    pub closed spec fn log(&self) -> Seq<WriteRecord> {
        self.records@
    }

    /// The running total; equal to `stream_len()` on any well-formed
    /// recorder.
    pub closed spec fn spec_total(&self) -> nat {
        self.bits as nat
    }

    /// A fresh recorder, most-significant-bit-first.
    pub fn new() -> (c: BitRecorder)
        ensures
            c.inv(),
            c.endianness() == Endianness::Big,
            c.stream_len() == 0,
            c.log() == Seq::<WriteRecord>::empty(),
    {
        let c = BitRecorder { endian: Endianness::Big, bits: 0, records: Vec::new() };
        proof {
            assert(c.records@ =~= Seq::<WriteRecord>::empty());
        }
        c
    }

    /// A fresh recorder with the given bit ordering.
    pub fn endian(endianness: Endianness) -> (c: BitRecorder)
        ensures
            c.inv(),
            c.endianness() == endianness,
            c.stream_len() == 0,
            c.log() == Seq::<WriteRecord>::empty(),
    {
        let c = BitRecorder { endian: endianness, bits: 0, records: Vec::new() };
        proof {
            assert(c.records@ =~= Seq::<WriteRecord>::empty());
        }
        c
    }

    /// The number of bits recorded so far: the sum over the log.
    pub fn written(&self) -> (n: u64)
        requires
            self.inv(),
        ensures
            n == self.stream_len(),
            n == log_len(self.log()),
    {
        self.bits
    }

    /// Replays the recorded writes, in order, onto the given writer,
    /// stopping at the first failure and propagating it.  The log is not
    /// consumed: playback can run again.
    #[verifier::loop_isolation(false)]
    pub fn playback<W: BitWrite>(&self, writer: &mut W) -> (r: Result<(), WriteError>)
        requires
            self.inv(),
            old(writer).inv(),
            old(writer).stream_len() + log_len(self.log()) <= u64::MAX,
        ensures
            final(writer).inv(),
            final(writer).endianness() == old(writer).endianness(),
            final(writer).stream_len() <= old(writer).stream_len() + log_len(self.log()),
            r is Ok ==> final(writer).stream_len() == old(writer).stream_len() + log_len(
                self.log(),
            ),
            r is Ok && W::tracks_bits() ==> final(writer).stream_val() == push_val(
                old(writer).endianness(),
                old(writer).stream_len(),
                old(writer).stream_val(),
                log_len(self.log()),
                log_pattern(old(writer).endianness(), self.log()),
            ),
            r is Ok && W::checks_fit() ==> log_fits(self.log()),
            W::checks_fit() && !W::sink_can_fail() ==> ((r is Ok) <==> log_fits(self.log())),
            !W::checks_fit() && !W::sink_can_fail() ==> r is Ok,
            r == Err::<(), WriteError>(WriteError::Sink) ==> W::sink_can_fail(),
            old(writer).stream_len() <= final(writer).stream_len(),
            r is Err ==> exists|k: int|
                0 <= k < self.log().len() && old(writer).stream_len() + log_len(
                    #[trigger] self.log().take(k),
                ) <= final(writer).stream_len() <= old(writer).stream_len() + log_len(
                    self.log().take(k + 1),
                ),
            r == Err::<(), WriteError>(WriteError::InvalidInput) ==> exists|k: int|
                0 <= k < self.log().len() && !(#[trigger] self.log()[k]).rec_fits()
                && final(writer).stream_len() == old(writer).stream_len() + log_len(
                    self.log().take(k),
                ) && (W::tracks_bits() ==> final(writer).stream_val() == push_val(
                    old(writer).endianness(),
                    old(writer).stream_len(),
                    old(writer).stream_val(),
                    log_len(self.log().take(k)),
                    log_pattern(old(writer).endianness(), self.log().take(k)),
                )),
    {
        let ghost we = old(writer).endianness();
        let ghost g_len = old(writer).stream_len();
        let ghost g_val = old(writer).stream_val();
        let ghost log = self.log();
        let n = self.records.len();
        let mut i: usize = 0;
        proof {
            assert(log.take(0) =~= Seq::<WriteRecord>::empty());
            lemma_push_val_empty(we, g_len, g_val);
        }
        while i < n
            invariant
                i <= n,
                writer.inv(),
                writer.endianness() == we,
                writer.stream_len() == g_len + log_len(log.take(i as int)),
                W::tracks_bits() ==> writer.stream_val() == push_val(
                    we,
                    g_len,
                    g_val,
                    log_len(log.take(i as int)),
                    log_pattern(we, log.take(i as int)),
                ),
                W::checks_fit() ==> forall|j: int|
                    0 <= j < i ==> (#[trigger] log[j]).rec_fits(),
            decreases n - i,
        {
            proof {
                lemma_log_take_succ(we, log, i as int);
                lemma_log_len_take_le(log, i as int + 1);
            }
            let rec = &self.records[i];
            let ghost pre_len = writer.stream_len();
            let ghost pre_val = writer.stream_val();
            match rec.playback(writer) {
                Ok(()) => {},
                Err(err) => {
                    proof {
                        let k = i as int;
                        assert(g_len + log_len(log.take(k)) <= writer.stream_len()
                            <= g_len + log_len(log.take(k + 1)));
                        if err == WriteError::InvalidInput {
                            assert(!log[k].rec_fits());
                            assert(!log_fits(log));
                            assert(writer.stream_len() == g_len + log_len(log.take(k)));
                        }
                    }
                    return Err(err);
                },
            }
            proof {
                if W::tracks_bits() {
                    lemma_push_val_assoc(
                        we,
                        g_len,
                        g_val,
                        log_len(log.take(i as int)),
                        log_pattern(we, log.take(i as int)),
                        log[i as int].rec_len(),
                        log[i as int].rec_pattern(we),
                    );
                }
            }
            i = i + 1;
        }
        proof {
            assert(log.take(n as int) =~= log);
        }
        Ok(())
    }
}

impl BitWrite for BitRecorder {
    closed spec fn endianness(&self) -> Endianness {
        self.endian
    }

    closed spec fn stream_len(&self) -> nat {
        log_len(self.records@)
    }

    closed spec fn stream_val(&self) -> nat {
        log_pattern(self.endian, self.records@)
    }

    closed spec fn inv(&self) -> bool {
        log_len(self.records@) == self.bits as nat
    }

    open spec fn tracks_bits() -> bool {
        true
    }

    open spec fn checks_fit() -> bool {
        false
    }

    open spec fn sink_can_fail() -> bool {
        false
    }

    fn write_bit(&mut self, bit: bool) -> (r: Result<(), WriteError>)
        ensures
            final(self).log() == old(self).log().push(WriteRecord::Bit(bit)),
    {
        proof {
            assert(!Self::checks_fit());
            assert(!Self::sink_can_fail());
        }
        let ghost pre = self.records@;
        self.records.push(WriteRecord::Bit(bit));
        self.bits = self.bits + 1;
        proof {
            assert(self.records@.drop_last() =~= pre);
        }
        Ok(())
    }

    fn write(&mut self, bits: u32, value: UnsignedValue) -> (r: Result<(), WriteError>)
        ensures
            final(self).log() == old(self).log().push(WriteRecord::Unsigned { bits, value }),
    {
        proof {
            assert(!Self::checks_fit());
            assert(!Self::sink_can_fail());
        }
        let ghost pre = self.records@;
        self.records.push(WriteRecord::Unsigned { bits, value });
        self.bits = self.bits + bits as u64;
        proof {
            assert(self.records@.drop_last() =~= pre);
        }
        Ok(())
    }

    fn write_signed(&mut self, bits: u32, value: SignedValue) -> (r: Result<(), WriteError>)
        ensures
            final(self).log() == old(self).log().push(WriteRecord::Signed { bits, value }),
    {
        proof {
            assert(!Self::checks_fit());
            assert(!Self::sink_can_fail());
        }
        let ghost pre = self.records@;
        self.records.push(WriteRecord::Signed { bits, value });
        self.bits = self.bits + bits as u64;
        proof {
            assert(self.records@.drop_last() =~= pre);
        }
        Ok(())
    }

    fn write_bytes(&mut self, buf: &[u8]) -> (r: Result<(), WriteError>)
        ensures
            final(self).log().len() == old(self).log().len() + 1,
            final(self).log().drop_last() == old(self).log(),
            final(self).log().last() matches WriteRecord::Bytes(b) && b@ == buf@,
    {
        proof {
            assert(!Self::checks_fit());
            assert(!Self::sink_can_fail());
        }
        let ghost pre = self.records@;
        let mut owned: Vec<u8> = Vec::new();
        owned.extend_from_slice(buf);
        proof {
            assert(owned@ =~= buf@);
        }
        self.records.push(WriteRecord::Bytes(owned));
        self.bits = self.bits + 8 * (buf.len() as u64);
        proof {
            assert(self.records@.drop_last() =~= pre);
        }
        Ok(())
    }

    fn byte_aligned(&self) -> (r: bool) {
        self.bits % 8 == 0
    }
}

impl PartialEq for BitRecorder {
    /// Two recorders are equal when their totals are.
    fn eq(&self, other: &BitRecorder) -> (r: bool) {
        self.bits == other.bits
    }
}

impl vstd::std_specs::cmp::PartialEqSpecImpl for BitRecorder {
    open spec fn obeys_eq_spec() -> bool {
        true
    }

    open spec fn eq_spec(&self, other: &BitRecorder) -> bool {
        self.spec_total() == other.spec_total()
    }
}

impl PartialOrd for BitRecorder {
    /// Recorders order by their totals: the smaller recorded fewer bits.
    fn partial_cmp(&self, other: &BitRecorder) -> (r: Option<core::cmp::Ordering>) {
        if self.bits < other.bits {
            Some(core::cmp::Ordering::Less)
        } else if self.bits == other.bits {
            Some(core::cmp::Ordering::Equal)
        } else {
            Some(core::cmp::Ordering::Greater)
        }
    }
}

impl vstd::std_specs::cmp::PartialOrdSpecImpl for BitRecorder {
    open spec fn obeys_partial_cmp_spec() -> bool {
        true
    }

    open spec fn partial_cmp_spec(&self, other: &BitRecorder) -> Option<core::cmp::Ordering> {
        if self.spec_total() < other.spec_total() {
            Some(core::cmp::Ordering::Less)
        } else if self.spec_total() == other.spec_total() {
            Some(core::cmp::Ordering::Equal)
        } else {
            Some(core::cmp::Ordering::Greater)
        }
    }
}

} // verus!
