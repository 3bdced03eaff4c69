use bitstream_io::BitWrite;
use bitstream_io::BitWriter;
use bitstream_io::Endianness;
use bitstream_io::SignedValue;
use bitstream_io::UnsignedValue;
use bitstream_io::VecSink;
use bitstream_io::WriteError;

fn big_writer() -> BitWriter<VecSink> {
    BitWriter::endian(VecSink::new(), Endianness::Big)
}

fn little_writer() -> BitWriter<VecSink> {
    BitWriter::endian(VecSink::new(), Endianness::Little)
}

#[test]
fn write_bit_msb_first() {
    let mut w = big_writer();
    for bit in [true, false, true, true, false, true, true, true] {
        w.write_bit(bit).unwrap();
    }
    assert_eq!(w.into_writer().into_vec(), vec![0b10110111]);
}

#[test]
fn write_bit_lsb_first() {
    let mut w = little_writer();
    for bit in [true, true, true, false, true, true, false, true] {
        w.write_bit(bit).unwrap();
    }
    assert_eq!(w.into_writer().into_vec(), vec![0b10110111]);
}

#[test]
fn write_fields_msb_first() {
    let mut w = big_writer();
    w.write(1, UnsignedValue::U8(0b1)).unwrap();
    w.write(2, UnsignedValue::U8(0b01)).unwrap();
    w.write(5, UnsignedValue::U8(0b10111)).unwrap();
    assert_eq!(w.into_writer().into_vec(), vec![0b10110111]);
}

#[test]
fn write_fields_lsb_first() {
    let mut w = little_writer();
    w.write(1, UnsignedValue::U8(0b1)).unwrap();
    w.write(2, UnsignedValue::U8(0b11)).unwrap();
    w.write(5, UnsignedValue::U8(0b10110)).unwrap();
    assert_eq!(w.into_writer().into_vec(), vec![0b10110111]);
}

#[test]
fn write_rejects_excessive_bits_for_type() {
    let mut w = big_writer();
    assert_eq!(w.write(9, UnsignedValue::U8(0)), Err(WriteError::InvalidInput));
    assert_eq!(w.write(17, UnsignedValue::U16(0)), Err(WriteError::InvalidInput));
    assert_eq!(w.write(33, UnsignedValue::U32(0)), Err(WriteError::InvalidInput));
    assert_eq!(w.write(65, UnsignedValue::U64(0)), Err(WriteError::InvalidInput));
    assert_eq!(w.write(129, UnsignedValue::U128(0)), Err(WriteError::InvalidInput));
    // a failed validation writes nothing
    assert_eq!(w.into_writer().into_vec(), Vec::<u8>::new());
}

#[test]
fn write_rejects_excessive_value_for_bits() {
    let mut w = big_writer();
    assert_eq!(w.write(1, UnsignedValue::U32(2)), Err(WriteError::InvalidInput));
    assert_eq!(w.write(2, UnsignedValue::U32(4)), Err(WriteError::InvalidInput));
    assert_eq!(w.write(3, UnsignedValue::U32(8)), Err(WriteError::InvalidInput));
    assert_eq!(w.write(4, UnsignedValue::U32(16)), Err(WriteError::InvalidInput));
    // the boundary values themselves fit
    w.write(1, UnsignedValue::U32(1)).unwrap();
    w.write(2, UnsignedValue::U32(3)).unwrap();
    w.write(5, UnsignedValue::U32(23)).unwrap();
    assert_eq!(w.into_writer().into_vec(), vec![0b11110111]);
}

#[test]
fn write_full_width_accepts_any_value() {
    let mut w = big_writer();
    w.write(8, UnsignedValue::U8(0xFF)).unwrap();
    w.write(16, UnsignedValue::U16(0xFFFF)).unwrap();
    assert_eq!(w.into_writer().into_vec(), vec![0xFF, 0xFF, 0xFF]);
}

#[test]
fn write_negative_value_uses_twos_complement_pattern() {
    // the low three bits of -1's pattern are all ones
    let mut w = big_writer();
    w.write(3, UnsignedValue::I8(-1)).unwrap();
    w.write(5, UnsignedValue::U8(0)).unwrap();
    assert_eq!(w.into_writer().into_vec(), vec![0b11100000]);
}

#[test]
fn write_signed_msb_first() {
    let mut w = big_writer();
    w.write_signed(4, SignedValue::I8(-5)).unwrap();
    w.write_signed(4, SignedValue::I8(7)).unwrap();
    assert_eq!(w.into_writer().into_vec(), vec![0b10110111]);
}

#[test]
fn write_signed_lsb_first_reversed_gives_same_byte() {
    let mut w = little_writer();
    w.write_signed(4, SignedValue::I8(7)).unwrap();
    w.write_signed(4, SignedValue::I8(-5)).unwrap();
    assert_eq!(w.into_writer().into_vec(), vec![0b10110111]);
}

#[test]
fn write_signed_rejects_out_of_range() {
    let mut w = big_writer();
    assert_eq!(w.write_signed(4, SignedValue::I8(8)), Err(WriteError::InvalidInput));
    assert_eq!(w.write_signed(4, SignedValue::I8(-9)), Err(WriteError::InvalidInput));
    assert_eq!(w.write_signed(0, SignedValue::I8(0)), Err(WriteError::InvalidInput));
    assert_eq!(w.write_signed(9, SignedValue::I8(0)), Err(WriteError::InvalidInput));
    // the boundary values themselves fit
    w.write_signed(4, SignedValue::I8(-8)).unwrap();
    w.write_signed(4, SignedValue::I8(7)).unwrap();
    assert_eq!(w.into_writer().into_vec(), vec![0b10000111]);
}

#[test]
fn write_unary0_msb_first() {
    let mut w = big_writer();
    w.write_unary0(0).unwrap();
    w.write_unary0(3).unwrap();
    w.write_unary0(10).unwrap();
    assert_eq!(w.into_writer().into_vec(), vec![0b01110111, 0b11111110]);
}

#[test]
fn write_unary0_lsb_first() {
    let mut w = little_writer();
    w.write_unary0(0).unwrap();
    w.write_unary0(3).unwrap();
    w.write_unary0(10).unwrap();
    assert_eq!(w.into_writer().into_vec(), vec![0b11101110, 0b01111111]);
}

#[test]
fn write_unary1_msb_first() {
    let mut w = big_writer();
    w.write_unary1(0).unwrap();
    w.write_unary1(3).unwrap();
    w.write_unary1(10).unwrap();
    assert_eq!(w.into_writer().into_vec(), vec![0b10001000, 0b00000001]);
}

#[test]
fn write_unary1_lsb_first() {
    let mut w = little_writer();
    w.write_unary1(0).unwrap();
    w.write_unary1(3).unwrap();
    w.write_unary1(10).unwrap();
    assert_eq!(w.into_writer().into_vec(), vec![0b00010001, 0b10000000]);
}

#[test]
fn write_unary0_chunked_long_run() {
    // 150 one-bits and a zero: 151 bits, so the last byte holds 7 pending
    // bits and only 18 whole bytes come out
    let mut w = big_writer();
    w.write_unary0(150).unwrap();
    w.write_bit(true).unwrap();
    let bytes = w.into_writer().into_vec();
    assert_eq!(bytes.len(), 19);
    for b in bytes.iter().take(18) {
        assert_eq!(*b, 0xFF);
    }
    // bits 144..151 are six ones, the terminator, then the extra one
    assert_eq!(bytes[18], 0b11111101);
}

#[test]
fn byte_aligned_and_byte_align() {
    let mut w = big_writer();
    assert!(w.byte_aligned());
    w.write(1, UnsignedValue::U8(0)).unwrap();
    assert!(!w.byte_aligned());
    w.write(7, UnsignedValue::U8(0)).unwrap();
    assert!(w.byte_aligned());
    w.write(1, UnsignedValue::U8(0)).unwrap();
    w.byte_align().unwrap();
    assert!(w.byte_aligned());
    w.write(8, UnsignedValue::U8(0xFF)).unwrap();
    assert_eq!(w.into_writer().into_vec(), vec![0x00, 0x00, 0xFF]);
}

#[test]
fn byte_align_is_noop_when_aligned() {
    let mut w = big_writer();
    w.write(8, UnsignedValue::U8(0xAB)).unwrap();
    w.byte_align().unwrap();
    assert_eq!(w.into_writer().into_vec(), vec![0xAB]);
}

#[test]
fn write_bytes_aligned_and_unaligned_agree() {
    // misaligned: every byte of the buffer goes through the bit-level path
    let mut w1 = big_writer();
    w1.write(4, UnsignedValue::U8(0xB)).unwrap();
    w1.write_bytes(&[0xED, 0x3C]).unwrap();
    w1.write(4, UnsignedValue::U8(0x7)).unwrap();
    // aligned: the same stream as one whole-buffer write
    let mut w2 = big_writer();
    w2.write_bytes(&[0xBE, 0xD3, 0xC7]).unwrap();
    let out1 = w1.into_writer().into_vec();
    assert_eq!(out1, vec![0xBE, 0xD3, 0xC7]);
    assert_eq!(out1, w2.into_writer().into_vec());
}

#[test]
fn write_bytes_matches_per_byte_writes() {
    let mut w1 = big_writer();
    w1.write(8, UnsignedValue::U8(0x66)).unwrap();
    w1.write(8, UnsignedValue::U8(0x6F)).unwrap();
    w1.write(8, UnsignedValue::U8(0x6F)).unwrap();
    w1.write_bytes(b"bar").unwrap();
    assert_eq!(w1.into_writer().into_vec(), b"foobar".to_vec());
}

#[test]
fn into_unwritten_reports_pending_partial_byte() {
    let mut w = big_writer();
    w.write(15, UnsignedValue::U16(0b1010_0101_0101_101)).unwrap();
    let (bits, value) = w.into_unwritten();
    assert_eq!(bits, 7);
    assert_eq!(value, 0b0101_101);
    // the same writes, disposed of instead: the seven bits are lost
    let mut w2 = big_writer();
    w2.write(15, UnsignedValue::U16(0b1010_0101_0101_101)).unwrap();
    assert_eq!(w2.into_writer().into_vec(), vec![0b1010_0101]);
}

#[test]
fn into_unwritten_empty_when_aligned() {
    let mut w = big_writer();
    w.write(8, UnsignedValue::U8(0b1010_0101)).unwrap();
    let (bits, value) = w.into_unwritten();
    assert_eq!(bits, 0);
    assert_eq!(value, 0);
}

#[test]
fn wide_value_through_unaligned_stream() {
    let x: u128 = 0x0123_4567_89AB_CDEF_0123_4567_89AB_CDEF;
    let mut w = big_writer();
    w.write(4, UnsignedValue::U8(0xA)).unwrap();
    w.write(128, UnsignedValue::U128(x)).unwrap();
    w.write(4, UnsignedValue::U8(0x5)).unwrap();
    let expected = vec![
        0xA0, 0x12, 0x34, 0x56, 0x78, 0x9A, 0xBC, 0xDE, 0xF0, 0x12, 0x34, 0x56, 0x78, 0x9A,
        0xBC, 0xDE, 0xF5,
    ];
    assert_eq!(w.into_writer().into_vec(), expected);
}

#[test]
fn full_width_u128_matches_byte_order() {
    let x: u128 = 0x0011_2233_4455_6677_8899_AABB_CCDD_EEFF;
    let mut big = big_writer();
    big.write(128, UnsignedValue::U128(x)).unwrap();
    assert_eq!(big.into_writer().into_vec(), x.to_be_bytes().to_vec());
    let mut little = little_writer();
    little.write(128, UnsignedValue::U128(x)).unwrap();
    assert_eq!(little.into_writer().into_vec(), x.to_le_bytes().to_vec());
}

#[test]
fn flac_streaminfo_header() {
    let mut w = big_writer();
    w.write_bytes(b"fLaC").unwrap();
    w.write_bit(false).unwrap();
    w.write(7, UnsignedValue::U8(0)).unwrap();
    w.write(24, UnsignedValue::U32(34)).unwrap();
    w.write(16, UnsignedValue::U16(4096)).unwrap();
    w.write(16, UnsignedValue::U16(4096)).unwrap();
    w.write(24, UnsignedValue::U32(1542)).unwrap();
    w.write(24, UnsignedValue::U32(8546)).unwrap();
    w.write(20, UnsignedValue::U32(44100)).unwrap();
    w.write(3, UnsignedValue::U8(1)).unwrap();
    w.write(5, UnsignedValue::U8(15)).unwrap();
    w.write(36, UnsignedValue::U64(304844)).unwrap();
    w.write_bytes(b"\xFA\xF2\x69\x2F\xFD\xEC\x2D\x5B\x30\x01\x76\xB4\x62\x88\x7D\x92")
        .unwrap();
    assert_eq!(
        w.into_writer().into_vec(),
        vec![
            0x66, 0x4C, 0x61, 0x43, 0x00, 0x00, 0x00, 0x22, 0x10, 0x00, 0x10, 0x00, 0x00, 0x06,
            0x06, 0x00, 0x21, 0x62, 0x0A, 0xC4, 0x42, 0xF0, 0x00, 0x04, 0xA6, 0xCC, 0xFA, 0xF2,
            0x69, 0x2F, 0xFD, 0xEC, 0x2D, 0x5B, 0x30, 0x01, 0x76, 0xB4, 0x62, 0x88, 0x7D, 0x92
        ]
    );
}

#[test]
fn default_ordering_is_msb_first() {
    let mut w = BitWriter::new(VecSink::new());
    w.write(8, UnsignedValue::U8(0x80)).unwrap();
    assert_eq!(w.into_writer().into_vec(), vec![0x80]);
}
