use bitstream_io::BitCounter;
use bitstream_io::BitRecorder;
use bitstream_io::BitWrite;
use bitstream_io::BitWriter;
use bitstream_io::BoundedSink;
use bitstream_io::Endianness;
use bitstream_io::SignedValue;
use bitstream_io::UnsignedValue;
use bitstream_io::VecSink;
use bitstream_io::WriteError;

#[test]
fn counter_totals_fields() {
    let mut c = BitCounter::endian(Endianness::Big);
    c.write(1, UnsignedValue::U8(0b1)).unwrap();
    c.write(2, UnsignedValue::U8(0b01)).unwrap();
    c.write(5, UnsignedValue::U8(0b10111)).unwrap();
    assert_eq!(c.written(), 8);
}

#[test]
fn counter_counts_all_operations() {
    let mut c = BitCounter::new();
    c.write_bit(true).unwrap();
    c.write(7, UnsignedValue::U8(5)).unwrap();
    c.write_signed(4, SignedValue::I8(-3)).unwrap();
    c.write_bytes(&[1, 2, 3]).unwrap();
    c.write_unary0(5).unwrap();
    c.write_unary1(2).unwrap();
    c.byte_align().unwrap();
    assert_eq!(c.written(), 1 + 7 + 4 + 24 + 6 + 3 + 3);
    assert!(c.byte_aligned());
}

#[test]
fn counter_validates_like_direct_writer() {
    let mut c = BitCounter::new();
    assert_eq!(c.write(9, UnsignedValue::U8(0)), Err(WriteError::InvalidInput));
    assert_eq!(c.write(2, UnsignedValue::U8(4)), Err(WriteError::InvalidInput));
    assert_eq!(c.write_signed(4, SignedValue::I8(8)), Err(WriteError::InvalidInput));
    assert_eq!(c.written(), 0);
}

#[test]
fn counter_total_matches_writer_emission() {
    let mut c = BitCounter::endian(Endianness::Big);
    let mut w = BitWriter::endian(VecSink::new(), Endianness::Big);
    for b in [3u32, 8, 11, 1, 14] {
        let v = UnsignedValue::U32((1 << b) - 1);
        c.write(b, v).unwrap();
        w.write(b, v).unwrap();
    }
    let total = c.written();
    let (pending, _) = {
        let mut w2 = BitWriter::endian(VecSink::new(), Endianness::Big);
        for b in [3u32, 8, 11, 1, 14] {
            w2.write(b, UnsignedValue::U32((1 << b) - 1)).unwrap();
        }
        w2.into_unwritten()
    };
    let emitted = w.into_writer().into_vec();
    assert_eq!(total, 8 * emitted.len() as u64 + pending as u64);
    assert_eq!(pending as u64, total % 8);
}

#[test]
fn counter_comparison_picks_cheaper_encoding() {
    let mut c1 = BitCounter::new();
    let mut c2 = BitCounter::new();
    c1.write_unary0(3).unwrap();
    c2.write(8, UnsignedValue::U8(3)).unwrap();
    assert!(c1 < c2);
    assert!(c2 > c1);
    assert!(c1 != c2);
    let mut c3 = BitCounter::new();
    c3.write(4, UnsignedValue::U8(0b1110)).unwrap();
    assert!(c1 == c3);
}

#[test]
fn recorder_records_and_plays_back() {
    let mut r = BitRecorder::endian(Endianness::Big);
    r.write(1, UnsignedValue::U8(0b1)).unwrap();
    r.write(2, UnsignedValue::U8(0b01)).unwrap();
    r.write(5, UnsignedValue::U8(0b10111)).unwrap();
    assert_eq!(r.written(), 8);
    let mut w = BitWriter::endian(VecSink::new(), Endianness::Big);
    r.playback(&mut w).unwrap();
    assert_eq!(w.into_writer().into_vec(), vec![0b10110111]);
}

#[test]
fn playback_twice_gives_identical_output() {
    let mut r = BitRecorder::endian(Endianness::Little);
    r.write_bit(true).unwrap();
    r.write(7, UnsignedValue::U8(0x2A)).unwrap();
    r.write_signed(5, SignedValue::I16(-6)).unwrap();
    r.write_bytes(&[0xDE, 0xAD]).unwrap();
    r.write_unary0(9).unwrap();
    r.byte_align().unwrap();
    let mut w1 = BitWriter::endian(VecSink::new(), Endianness::Little);
    let mut w2 = BitWriter::endian(VecSink::new(), Endianness::Little);
    r.playback(&mut w1).unwrap();
    r.playback(&mut w2).unwrap();
    let out1 = w1.into_writer().into_vec();
    let out2 = w2.into_writer().into_vec();
    assert_eq!(out1, out2);
    // and both equal performing the same writes directly
    let mut d = BitWriter::endian(VecSink::new(), Endianness::Little);
    d.write_bit(true).unwrap();
    d.write(7, UnsignedValue::U8(0x2A)).unwrap();
    d.write_signed(5, SignedValue::I16(-6)).unwrap();
    d.write_bytes(&[0xDE, 0xAD]).unwrap();
    d.write_unary0(9).unwrap();
    d.byte_align().unwrap();
    assert_eq!(out1, d.into_writer().into_vec());
}

#[test]
fn recorder_defers_validation_to_playback() {
    let mut r = BitRecorder::endian(Endianness::Big);
    // an unfitting value records without complaint
    r.write(2, UnsignedValue::U8(4)).unwrap();
    assert_eq!(r.written(), 2);
    // a checking target rejects it at playback time
    let mut c = BitCounter::endian(Endianness::Big);
    assert_eq!(r.playback(&mut c), Err(WriteError::InvalidInput));
    let mut w = BitWriter::endian(VecSink::new(), Endianness::Big);
    assert_eq!(r.playback(&mut w), Err(WriteError::InvalidInput));
}

#[test]
fn playback_stops_at_first_failure() {
    let mut r = BitRecorder::endian(Endianness::Big);
    r.write(8, UnsignedValue::U8(0xAA)).unwrap();
    r.write(2, UnsignedValue::U8(4)).unwrap();
    r.write(8, UnsignedValue::U8(0xBB)).unwrap();
    let mut w = BitWriter::endian(VecSink::new(), Endianness::Big);
    assert_eq!(r.playback(&mut w), Err(WriteError::InvalidInput));
    // the record before the failing one was already applied
    assert_eq!(w.into_writer().into_vec(), vec![0xAA]);
}

#[test]
fn recorder_onto_counter_measures_cost() {
    let mut r = BitRecorder::endian(Endianness::Big);
    r.write(3, UnsignedValue::U8(0b101)).unwrap();
    r.write_unary1(4).unwrap();
    let mut c = BitCounter::endian(Endianness::Big);
    r.playback(&mut c).unwrap();
    assert_eq!(c.written(), r.written());
    assert_eq!(c.written(), 8);
}

#[test]
fn recorder_comparison_orders_by_total() {
    let mut r1 = BitRecorder::endian(Endianness::Big);
    let mut r2 = BitRecorder::endian(Endianness::Big);
    r1.write(3, UnsignedValue::U8(1)).unwrap();
    r2.write(5, UnsignedValue::U8(1)).unwrap();
    assert!(r1 < r2);
    assert!(r1 != r2);
    let mut r3 = BitRecorder::endian(Endianness::Big);
    r3.write_unary0(2).unwrap();
    assert!(r1 == r3);
}

#[test]
fn sink_failure_propagates() {
    // room for one byte only: the second full byte cannot be emitted
    let mut w = BitWriter::endian(BoundedSink::new(1), Endianness::Big);
    w.write(8, UnsignedValue::U8(0x11)).unwrap();
    assert_eq!(w.write(8, UnsignedValue::U8(0x22)), Err(WriteError::Sink));
    assert_eq!(w.into_writer().into_vec(), vec![0x11]);
}

#[test]
fn sink_failure_from_write_bit() {
    let mut w = BitWriter::endian(BoundedSink::new(0), Endianness::Big);
    for _ in 0..7 {
        w.write_bit(true).unwrap();
    }
    assert_eq!(w.write_bit(true), Err(WriteError::Sink));
}

#[test]
fn sink_failure_from_write_bytes() {
    let mut w = BitWriter::endian(BoundedSink::new(2), Endianness::Big);
    assert_eq!(w.write_bytes(&[1, 2, 3]), Err(WriteError::Sink));
    w.write_bytes(&[4, 5]).unwrap();
    assert_eq!(w.into_writer().into_vec(), vec![4, 5]);
}
