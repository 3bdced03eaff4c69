use bitstream_io::BitCounter;
use bitstream_io::BitRecorder;
use bitstream_io::BitWrite;
use bitstream_io::BitWriter;
use bitstream_io::ByteSink;
use bitstream_io::ByteWriter;
use bitstream_io::Endianness;
use bitstream_io::HuffmanWrite;
use bitstream_io::UnsignedValue;
use bitstream_io::VecSink;
use bitstream_io::WriteError;
use bitstream_io::WriteHuffmanTree;

/// Codes for four symbols: 0, 10, 110, 111.
fn sample_tree() -> WriteHuffmanTree {
    WriteHuffmanTree::new(vec![
        vec![(1, 0)],
        vec![(2, 0b10)],
        vec![(3, 0b110)],
        vec![(3, 0b111)],
    ])
    .unwrap()
}

#[test]
fn huffman_writes_codes() {
    let tree = sample_tree();
    let mut w = BitWriter::endian(VecSink::new(), Endianness::Big);
    w.write_huffman(&tree, 1).unwrap();
    w.write_huffman(&tree, 2).unwrap();
    w.write_huffman(&tree, 3).unwrap();
    assert_eq!(w.into_writer().into_vec(), vec![0b10110111]);
}

#[test]
fn huffman_multi_step_code() {
    // a code longer than one carrier step, split over two steps
    let tree = WriteHuffmanTree::new(vec![vec![(4, 0b1010), (4, 0b0101)]]).unwrap();
    let mut w = BitWriter::endian(VecSink::new(), Endianness::Big);
    w.write_huffman(&tree, 0).unwrap();
    assert_eq!(w.into_writer().into_vec(), vec![0b10100101]);
}

#[test]
fn huffman_counter_counts_code_bits() {
    let tree = sample_tree();
    let mut c = BitCounter::endian(Endianness::Big);
    c.write_huffman(&tree, 0).unwrap();
    c.write_huffman(&tree, 3).unwrap();
    assert_eq!(c.written(), 4);
}

#[test]
fn huffman_recorder_replays_codes() {
    let tree = sample_tree();
    let mut r = BitRecorder::endian(Endianness::Big);
    r.write_huffman(&tree, 1).unwrap();
    r.write_huffman(&tree, 2).unwrap();
    r.write_huffman(&tree, 3).unwrap();
    let mut w = BitWriter::endian(VecSink::new(), Endianness::Big);
    r.playback(&mut w).unwrap();
    assert_eq!(w.into_writer().into_vec(), vec![0b10110111]);
}

#[test]
fn huffman_unknown_symbol_is_invalid_input() {
    let tree = sample_tree();
    let mut w = BitWriter::endian(VecSink::new(), Endianness::Big);
    assert_eq!(w.write_huffman(&tree, 4), Err(WriteError::InvalidInput));
    assert_eq!(w.into_writer().into_vec(), Vec::<u8>::new());
}

#[test]
fn huffman_tree_rejects_unfitting_step() {
    assert!(WriteHuffmanTree::new(vec![vec![(2, 7)]]).is_none());
    assert!(WriteHuffmanTree::new(vec![vec![(65, 0)]]).is_none());
    assert!(WriteHuffmanTree::new(vec![vec![(64, u64::MAX)]]).is_some());
}

#[test]
fn byte_writer_whole_values() {
    let mut big = ByteWriter::endian(VecSink::new(), Endianness::Big);
    big.write(UnsignedValue::U16(0b0000000011111111)).unwrap();
    assert_eq!(big.into_writer().into_vec(), vec![0b00000000, 0b11111111]);
    let mut little = ByteWriter::endian(VecSink::new(), Endianness::Little);
    little.write(UnsignedValue::U16(0b0000000011111111)).unwrap();
    assert_eq!(little.into_writer().into_vec(), vec![0b11111111, 0b00000000]);
}

#[test]
fn byte_writer_wide_values() {
    let x: u64 = 0x0102_0304_0506_0708;
    let mut big = ByteWriter::endian(VecSink::new(), Endianness::Big);
    big.write(UnsignedValue::U64(x)).unwrap();
    assert_eq!(big.into_writer().into_vec(), x.to_be_bytes().to_vec());
    let mut little = ByteWriter::endian(VecSink::new(), Endianness::Little);
    little.write(UnsignedValue::U64(x)).unwrap();
    assert_eq!(little.into_writer().into_vec(), x.to_le_bytes().to_vec());
}

#[test]
fn byte_writer_signed_value_pattern() {
    let mut big = ByteWriter::endian(VecSink::new(), Endianness::Big);
    big.write(UnsignedValue::I16(-2)).unwrap();
    assert_eq!(big.into_writer().into_vec(), vec![0xFF, 0xFE]);
}

#[test]
fn byte_writer_bytes_and_conversion() {
    let mut bw = ByteWriter::endian(VecSink::new(), Endianness::Big);
    bw.write_bytes(b"ab").unwrap();
    let mut w = bw.into_bitwriter();
    w.write(4, UnsignedValue::U8(0xC)).unwrap();
    w.write(4, UnsignedValue::U8(0xD)).unwrap();
    assert_eq!(w.into_writer().into_vec(), vec![0x61, 0x62, 0xCD]);
}

#[test]
fn byte_writer_exposes_sink() {
    let mut bw = ByteWriter::endian(VecSink::new(), Endianness::Big);
    bw.write_bytes(&[0x01]).unwrap();
    bw.writer().write_all(&[0x02, 0x03]).unwrap();
    assert_eq!(bw.into_writer().into_vec(), vec![0x01, 0x02, 0x03]);
}

#[test]
fn bit_writer_exposes_sink_only_when_aligned() {
    let mut w = BitWriter::endian(VecSink::new(), Endianness::Big);
    w.write(8, UnsignedValue::U8(0x10)).unwrap();
    let sink = w.writer().unwrap();
    sink.write_byte(0x20).unwrap();
    w.write(4, UnsignedValue::U8(0x3)).unwrap();
    assert!(w.writer().is_none());
    w.write(4, UnsignedValue::U8(0x4)).unwrap();
    assert_eq!(w.into_writer().into_vec(), vec![0x10, 0x20, 0x34]);
}

#[test]
fn bit_writer_to_byte_writer_drops_partial() {
    let mut w = BitWriter::endian(VecSink::new(), Endianness::Big);
    w.write(8, UnsignedValue::U8(0x7E)).unwrap();
    w.write(3, UnsignedValue::U8(0b101)).unwrap();
    let mut bw = w.into_bytewriter();
    bw.write_bytes(&[0x99]).unwrap();
    assert_eq!(bw.into_writer().into_vec(), vec![0x7E, 0x99]);
}
