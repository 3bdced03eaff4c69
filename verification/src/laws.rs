//! Laws relating the backends.
//!
//! The write contract makes every backend advance its stream identically;
//! these lemmas connect that shared stream to what each backend finally
//! holds: the counter's total measures the direct writer's bytes, and the
//! stream determines the direct writer's output bytes completely, so any
//! two ways of producing one stream (direct calls, or a recording played
//! back any number of times) yield byte-identical sinks.

use vstd::prelude::*;

use crate::counter::BitCounter;
use crate::sink::ByteSink;
use crate::stream::{bytes_val, lemma_bytes_val_bound, lemma_bytes_val_injective, Endianness};
use crate::write::BitWrite;
use crate::writer::BitWriter;

verus! {

use vstd::arithmetic::power2::*;
use vstd::arithmetic::div_mod::*;

/// A counter that accepted the same stream as a direct writer counts
/// exactly the writer's bits: every whole byte of the total has been
/// emitted to the sink and the remainder is the pending partial byte.
pub proof fn lemma_counter_measures_writer<S: ByteSink>(w: BitWriter<S>, c: BitCounter)
    requires
        w.inv(),
        w.stream_len() == c.stream_len(),
    ensures
        8 * w.emitted().len() + w.pending_len() == c.stream_len(),
        w.pending_len() == c.stream_len() % 8,
        w.emitted().len() == c.stream_len() / 8,
{
    w.lemma_stream_decomposition();
    lemma_fundamental_div_mod_converse(
        c.stream_len() as int,
        8,
        w.emitted().len() as int,
        w.pending_len() as int,
    );
}

/// Two direct writers of one bit ordering that accepted the same stream
/// hold identical sink bytes and identical pending partial bytes: the
/// stream determines the output completely.  In particular, one recording
/// played back onto two fresh writers, or played back and written
/// directly, produces byte-identical results.
pub proof fn lemma_stream_determines_output<S1: ByteSink, S2: ByteSink>(
    w1: BitWriter<S1>,
    w2: BitWriter<S2>,
)
    requires
        w1.inv(),
        w2.inv(),
        w1.endianness() == w2.endianness(),
        w1.stream_len() == w2.stream_len(),
        w1.stream_val() == w2.stream_val(),
    ensures
        w1.emitted() == w2.emitted(),
        w1.pending_len() == w2.pending_len(),
        w1.pending_val() == w2.pending_val(),
{
    w1.lemma_stream_decomposition();
    w2.lemma_stream_decomposition();
    let e = w1.endianness();
    let n1 = w1.emitted().len();
    let n2 = w2.emitted().len();
    let q = w1.pending_len();
    let b1 = bytes_val(e, w1.emitted());
    let b2 = bytes_val(e, w2.emitted());
    lemma_fundamental_div_mod_converse(
        w1.stream_len() as int,
        8,
        n1 as int,
        w1.pending_len() as int,
    );
    lemma_fundamental_div_mod_converse(
        w2.stream_len() as int,
        8,
        n2 as int,
        w2.pending_len() as int,
    );
    assert(n1 == n2 && w1.pending_len() == w2.pending_len());
    lemma_bytes_val_bound(e, w1.emitted());
    lemma_bytes_val_bound(e, w2.emitted());
    match e {
        Endianness::Big => {
            lemma_pow2_pos(q);
            lemma_fundamental_div_mod_converse(
                w1.stream_val() as int,
                pow2(q) as int,
                b1 as int,
                w1.pending_val() as int,
            );
            lemma_fundamental_div_mod_converse(
                w2.stream_val() as int,
                pow2(q) as int,
                b2 as int,
                w2.pending_val() as int,
            );
        },
        Endianness::Little => {
            lemma_pow2_pos(8 * n1);
            lemma_fundamental_div_mod_converse(
                w1.stream_val() as int,
                pow2(8 * n1) as int,
                w1.pending_val() as int,
                b1 as int,
            );
            lemma_fundamental_div_mod_converse(
                w2.stream_val() as int,
                pow2(8 * n1) as int,
                w2.pending_val() as int,
                b2 as int,
            );
        },
    }
    assert(b1 == b2);
    lemma_bytes_val_injective(e, w1.emitted(), w2.emitted());
}

} // verus!
