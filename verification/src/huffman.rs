//! Huffman writing: emitting a symbol's precompiled code.
//!
//! An encode table maps each symbol to an ordered list of
//! `(bit count, packed value)` steps, produced elsewhere by a Huffman
//! compiler.  Writing a symbol emits each step in turn through the shared
//! write contract, so the capability exists identically on every backend.

use vstd::prelude::*;

use crate::stream::{lemma_push_val_assoc, lemma_push_val_empty, pow2_u128, push_val, Endianness};
use crate::values::UnsignedValue;
use crate::write::{BitWrite, WriteError};

verus! {

use vstd::arithmetic::power2::*;
use vstd::arithmetic::div_mod::*;

/// One code step: a bit count up to 64 and a value that fits it.
pub open spec fn step_ok(step: (u32, u64)) -> bool {
    step.0 <= 64 && (step.1 as nat) < pow2(step.0 as nat)
}

/// The bits a list of code steps writes in total.
pub open spec fn steps_len(steps: Seq<(u32, u64)>) -> nat
    decreases steps.len(),
{
    if steps.len() == 0 {
        0
    } else {
        steps_len(steps.drop_last()) + steps.last().0 as nat
    }
}

/// The pattern a list of code steps appends.
pub open spec fn steps_pattern(e: Endianness, steps: Seq<(u32, u64)>) -> nat
    decreases steps.len(),
{
    if steps.len() == 0 {
        0
    } else {
        push_val(
            e,
            steps_len(steps.drop_last()),
            steps_pattern(e, steps.drop_last()),
            steps.last().0 as nat,
            steps.last().1 as nat,
        )
    }
}

/// One more step extends the code's length and pattern by one push.
proof fn lemma_steps_take_succ(e: Endianness, steps: Seq<(u32, u64)>, i: int)
    requires
        0 <= i < steps.len(),
    ensures
        steps_len(steps.take(i + 1)) == steps_len(steps.take(i)) + steps[i].0 as nat,
        steps_pattern(e, steps.take(i + 1)) == push_val(
            e,
            steps_len(steps.take(i)),
            steps_pattern(e, steps.take(i)),
            steps[i].0 as nat,
            steps[i].1 as nat,
        ),
{
    assert(steps.take(i + 1).drop_last() =~= steps.take(i));
    assert(steps.take(i + 1).last() == steps[i]);
}

/// A prefix of the code never writes more than the whole code.
proof fn lemma_steps_len_take_le(steps: Seq<(u32, u64)>, i: int)
    requires
        0 <= i <= steps.len(),
    ensures
        steps_len(steps.take(i)) <= steps_len(steps),
    decreases steps.len(),
{
    if i == steps.len() {
        assert(steps.take(i) =~= steps);
    } else {
        assert(steps.take(i) =~= steps.drop_last().take(i));
        lemma_steps_len_take_le(steps.drop_last(), i);
    }
}

/// A precompiled encode table: each symbol's ordered code steps.
/// Immutable once built; shared read-only by any number of writers.
pub struct WriteHuffmanTree {
    codes: Vec<Vec<(u32, u64)>>,
}

impl WriteHuffmanTree {
    /// How many symbols the table covers.
    pub closed spec fn num_symbols(&self) -> nat {
        self.codes@.len()
    }

    /// The code steps of one symbol.
    pub closed spec fn spec_steps(&self, symbol: int) -> Seq<(u32, u64)> {
        self.codes@[symbol]@
    }

    /// The bits writing `symbol` emits.
    pub open spec fn spec_code_len(&self, symbol: int) -> nat {
        steps_len(self.spec_steps(symbol))
    }

    /// The pattern writing `symbol` appends.
    pub open spec fn spec_code_pattern(&self, e: Endianness, symbol: int) -> nat {
        steps_pattern(e, self.spec_steps(symbol))
    }

    /// Every step of every symbol is within its bit count.
    pub closed spec fn wf(&self) -> bool {
        forall|s: int, i: int|
            0 <= s < self.codes@.len() && 0 <= i < self.codes@[s]@.len() ==> step_ok(
                #[trigger] self.codes@[s]@[i],
            )
    }

    /// Builds a table from each symbol's code steps.  Returns `None` iff
    /// some step's bit count exceeds 64 or its value does not fit.
    pub fn new(codes: Vec<Vec<(u32, u64)>>) -> (r: Option<WriteHuffmanTree>)
        ensures
            r is Some ==> r.unwrap().wf() && r.unwrap().num_symbols() == codes@.len() && forall|
                s: int,
            |
                0 <= s < codes@.len() ==> r.unwrap().spec_steps(s) == (#[trigger] codes@[s])@,
            r is Some <==> forall|s: int, i: int|
                0 <= s < codes@.len() && 0 <= i < codes@[s]@.len() ==> step_ok(
                    #[trigger] codes@[s]@[i],
                ),
    {
        let n = codes.len();
        let mut s: usize = 0;
        while s < n
            invariant
                s <= n,
                n == codes@.len(),
                forall|s2: int, i: int|
                    0 <= s2 < s && 0 <= i < codes@[s2]@.len() ==> step_ok(
                        #[trigger] codes@[s2]@[i],
                    ),
            decreases n - s,
        {
            let steps = &codes[s];
            let m = steps.len();
            let mut i: usize = 0;
            while i < m
                invariant
                    i <= m,
                    0 <= s < codes@.len(),
                    m == codes@[s as int]@.len(),
                    steps@ == codes@[s as int]@,
                    forall|j: int| 0 <= j < i ==> step_ok(#[trigger] steps@[j]),
                decreases m - i,
            {
                let (b, v) = steps[i];
                let ok = if b > 64 {
                    false
                } else if b == 64 {
                    proof {
                        lemma2_to64();
                    }
                    true
                } else {
                    proof {
                        lemma2_to64();
                        lemma2_to64_rest();
                        lemma_pow2_strictly_increases(b as nat, 64);
                    }
                    (v as u128) < pow2_u128(b)
                };
                if !ok {
                    proof {
                        assert(!step_ok(codes@[s as int]@[i as int]));
                    }
                    return None;
                }
                i = i + 1;
            }
            s = s + 1;
        }
        Some(WriteHuffmanTree { codes })
    }

    /// How many symbols the table covers.
    pub fn len(&self) -> (n: usize)
        ensures
            n == self.num_symbols(),
    {
        self.codes.len()
    }

    /// The code steps of one symbol.
    pub fn get(&self, symbol: usize) -> (steps: &Vec<(u32, u64)>)
        requires
            symbol < self.num_symbols(),
        ensures
            steps@ == self.spec_steps(symbol as int),
    {
        &self.codes[symbol]
    }
}

/// Writing Huffman codes through the shared write contract.
pub trait HuffmanWrite: BitWrite {
    /// Writes the code for `symbol` from the table, step by step.
    ///
    /// Fails with `InvalidInput` exactly when the table has no such
    /// symbol; the steps themselves always fit, by the table's
    /// construction.  On a sink failure the stream reflects only what
    /// reached the sink.
    #[verifier::loop_isolation(false)]
    #[verifier::rlimit(60)]
    fn write_huffman(&mut self, tree: &WriteHuffmanTree, symbol: usize) -> (r: Result<
        (),
        WriteError,
    >)
        requires
            old(self).inv(),
            tree.wf(),
            old(self).stream_len() + tree.spec_code_len(symbol as int) <= u64::MAX,
        ensures
            final(self).inv(),
            final(self).endianness() == old(self).endianness(),
            final(self).stream_len() <= old(self).stream_len() + tree.spec_code_len(
                symbol as int,
            ),
            r is Ok ==> final(self).stream_len() == old(self).stream_len() + tree.spec_code_len(
                symbol as int,
            ),
            r is Ok && Self::tracks_bits() ==> final(self).stream_val() == push_val(
                old(self).endianness(),
                old(self).stream_len(),
                old(self).stream_val(),
                tree.spec_code_len(symbol as int),
                tree.spec_code_pattern(old(self).endianness(), symbol as int),
            ),
            (r == Err::<(), WriteError>(WriteError::InvalidInput)) <==> symbol
                >= tree.num_symbols(),
            r == Err::<(), WriteError>(WriteError::InvalidInput) ==> final(self).stream_len()
                == old(self).stream_len() && (Self::tracks_bits() ==> final(self).stream_val()
                == old(self).stream_val()),
            r == Err::<(), WriteError>(WriteError::Sink) ==> Self::sink_can_fail(),
            old(self).stream_len() <= final(self).stream_len(),
            symbol < tree.num_symbols() && !Self::sink_can_fail() ==> r is Ok,
    {
        let ghost g_e = old(self).endianness();
        let ghost g_len = old(self).stream_len();
        let ghost g_val = old(self).stream_val();
        if symbol >= tree.len() {
            return Err(WriteError::InvalidInput);
        }
        let steps = tree.get(symbol);
        let ghost g_steps = steps@;
        let m = steps.len();
        let mut i: usize = 0;
        proof {
            assert(g_steps.take(0) =~= Seq::<(u32, u64)>::empty());
            lemma_push_val_empty(g_e, g_len, g_val);
        }
        while i < m
            invariant
                i <= m,
                self.inv(),
                self.endianness() == g_e,
                self.stream_len() == g_len + steps_len(g_steps.take(i as int)),
                Self::tracks_bits() ==> self.stream_val() == push_val(
                    g_e,
                    g_len,
                    g_val,
                    steps_len(g_steps.take(i as int)),
                    steps_pattern(g_e, g_steps.take(i as int)),
                ),
            decreases m - i,
        {
            proof {
                lemma_steps_take_succ(g_e, g_steps, i as int);
                lemma_steps_len_take_le(g_steps, i as int + 1);
            }
            let (b, v) = steps[i];
            proof {
                lemma_pow2_pos(b as nat);
                lemma_small_mod(v as nat, pow2(b as nat));
                lemma2_to64();
                lemma2_to64_rest();
            }
            match self.write(b, UnsignedValue::U64(v)) {
                Ok(()) => {},
                Err(err) => {
                    return Err(err);
                },
            }
            proof {
                if Self::tracks_bits() {
                    lemma_push_val_assoc(
                        g_e,
                        g_len,
                        g_val,
                        steps_len(g_steps.take(i as int)),
                        steps_pattern(g_e, g_steps.take(i as int)),
                        b as nat,
                        v as nat,
                    );
                }
            }
            i = i + 1;
        }
        proof {
            assert(g_steps.take(m as int) =~= g_steps);
        }
        Ok(())
    }
}

impl<S: crate::sink::ByteSink> HuffmanWrite for crate::writer::BitWriter<S> {

}

impl HuffmanWrite for crate::counter::BitCounter {

}

impl HuffmanWrite for crate::recorder::BitRecorder {

}

} // verus!
