//! Bit-granular serialization: packing values that do not align to byte
//! boundaries (single bits, N-bit fields, unary runs, Huffman codes) into a
//! byte-oriented sink, most-significant-bit-first or least-significant-bit-first.

pub mod bytewriter;
pub mod counter;
pub mod huffman;
pub mod laws;
pub mod queue;
pub mod recorder;
pub mod sink;
pub mod stream;
pub mod values;
pub mod write;
pub mod writer;

pub use laws::lemma_counter_measures_writer;
pub use laws::lemma_stream_determines_output;
pub use stream::Endianness;
pub use sink::ByteSink;
pub use sink::SinkError;
pub use sink::VecSink;
pub use sink::BoundedSink;
pub use values::SignedValue;
pub use values::UnsignedValue;
pub use write::BitWrite;
pub use huffman::HuffmanWrite;
pub use huffman::WriteHuffmanTree;
pub use write::WriteError;
pub use counter::BitCounter;
pub use recorder::BitRecorder;
pub use recorder::WriteRecord;
pub use writer::BitWriter;
pub use bytewriter::ByteWriter;
