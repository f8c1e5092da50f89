//! A recurrent, bit-packed binary neural engine with a genetic trainer.
//!
//! Connections and neuron states are stored as packed 64-bit words; one
//! inference cycle evaluates every neuron with population-count arithmetic
//! over XNOR-combined weight and state words.

use vstd::arithmetic::div_mod::{
    lemma_div_by_multiple, lemma_div_is_ordered, lemma_fundamental_div_mod,
};
use vstd::prelude::*;

pub mod bits;
pub mod randsrc;
pub mod train;
pub mod util;

use crate::bits::{bit64, word_contrib};

verus! {

/// Largest supported neuron count: keeps every per-neuron sum, input
/// included, inside `i32`.
pub const MAX_NEURON_COUNT: usize = 0x7fff_ff00;

/// One packed word of 64 connection or state bits.
#[derive(Debug, Copy, Clone)]
pub struct NeuronChunk(pub u64);

/// A signed per-neuron firing threshold, and likewise one external input
/// value fed to an input neuron.
#[derive(Debug, Copy, Clone)]
pub struct Activation(pub i8);

/// Errors raised by engine construction, inference, trainer construction
/// and loading.
#[derive(Debug)]
pub enum BinaryBrainError {
    TotalNotDivisbleByChunkSize,
    InputOutputAboveTotal,
    WrongInputShape,
    InvalidPopSize,
    ZeroTournamentSize,
    InvalidWeightActivationCombo,
    Truncated,
}

pub type Result<T> = core::result::Result<T, BinaryBrainError>;

/// The packed words of a chunk vector.
pub open spec fn chunk_words(s: Seq<NeuronChunk>) -> Seq<u64> {
    s.map(|i: int, c: NeuronChunk| c.0)
}

/// The signed values of an activation vector.
pub open spec fn act_values(s: Seq<Activation>) -> Seq<i8> {
    s.map(|i: int, a: Activation| a.0)
}

/// A fully-connected recurrent network over `neuron_count` neurons whose
/// weight matrix, state vector and arithmetic are all packed bits.
#[derive(Debug)]
pub struct BinaryBrain {
    weight_matrix: Vec<NeuronChunk>,
    values: Vec<NeuronChunk>,
    act: Vec<Activation>,
    input_count: usize,
    output_count: usize,
    neuron_count: usize,
}

/// Agreement score of row `row` of the weight matrix against the first `n`
/// state words: the per-word contributions summed.
pub open spec fn row_contrib(weights: Seq<u64>, state: Seq<u64>, row: int, n: int) -> int
    decreases n,
{
    if n <= 0 {
        0
    } else {
        row_contrib(weights, state, row, n - 1) + word_contrib(
            weights[row * state.len() + (n - 1)],
            state[n - 1],
        )
    }
}

/// The recurrent part of neuron `row`'s stimulus: its weight row scored
/// against the whole previous state.
pub open spec fn neuron_sum(weights: Seq<u64>, state: Seq<u64>, row: int) -> int {
    row_contrib(weights, state, row, state.len() as int)
}

impl BinaryBrain {
    /// The packed weight matrix, row-major, as words.
    pub closed spec fn weights_view(self) -> Seq<u64> {
        chunk_words(self.weight_matrix@)
    }

    /// The packed recurrent state as words.
    pub closed spec fn state_view(self) -> Seq<u64> {
        chunk_words(self.values@)
    }

    /// The per-neuron firing thresholds.
    pub closed spec fn thresholds_view(self) -> Seq<i8> {
        act_values(self.act@)
    }

    pub closed spec fn spec_input_count(self) -> int {
        self.input_count as int
    }

    pub closed spec fn spec_output_count(self) -> int {
        self.output_count as int
    }

    pub closed spec fn spec_neuron_count(self) -> int {
        self.neuron_count as int
    }

    /// Structural invariant: the neuron count fills whole words, inputs and
    /// outputs fit, and every array has the size the count implies.
    pub closed spec fn wf(self) -> bool {
        &&& self.neuron_count % 64 == 0
        &&& self.input_count + self.output_count <= self.neuron_count
        &&& self.neuron_count <= MAX_NEURON_COUNT
        &&& self.act@.len() == self.neuron_count
        &&& self.values@.len() == self.neuron_count / 64
        &&& self.weight_matrix@.len() == self.neuron_count * self.neuron_count / 64
    }

    /// The well-formedness clauses restated over the public views, so that
    /// callers can relate them to sizes they observe.
    pub proof fn lemma_wf_sizes(self)
        requires
            self.wf(),
        ensures
            self.spec_neuron_count() % 64 == 0,
            self.spec_input_count() + self.spec_output_count() <= self.spec_neuron_count(),
            self.spec_neuron_count() <= MAX_NEURON_COUNT,
            self.thresholds_view().len() == self.spec_neuron_count(),
            self.state_view().len() == self.spec_neuron_count() / 64,
            self.weights_view().len() == self.spec_neuron_count() * self.spec_neuron_count() / 64,
            0 <= self.spec_input_count(),
            0 <= self.spec_output_count(),
    {
    }
}

/// An element-by-element copy of a chunk vector.
fn clone_chunks(v: &Vec<NeuronChunk>) -> (r: Vec<NeuronChunk>)
    ensures
        r@ == v@,
{
    let mut r: Vec<NeuronChunk> = Vec::new();
    let mut i: usize = 0;
    while i < v.len()
        invariant
            i <= v@.len(),
            r@ == v@.subrange(0, i as int),
        decreases v@.len() - i,
    {
        r.push(v[i]);
        proof {
            assert(r@ =~= v@.subrange(0, i + 1));
        }
        i = i + 1;
    }
    proof {
        assert(r@ =~= v@);
    }
    r
}

/// An element-by-element copy of an activation vector.
fn clone_acts(v: &Vec<Activation>) -> (r: Vec<Activation>)
    ensures
        r@ == v@,
{
    let mut r: Vec<Activation> = Vec::new();
    let mut i: usize = 0;
    while i < v.len()
        invariant
            i <= v@.len(),
            r@ == v@.subrange(0, i as int),
        decreases v@.len() - i,
    {
        r.push(v[i]);
        proof {
            assert(r@ =~= v@.subrange(0, i + 1));
        }
        i = i + 1;
    }
    proof {
        assert(r@ =~= v@);
    }
    r
}

/// The first `n` words of `ws` laid out as little-endian bytes.
pub open spec fn words_bytes(ws: Seq<u64>, n: int) -> Seq<u8>
    decreases n,
{
    if n <= 0 {
        Seq::<u8>::empty()
    } else {
        words_bytes(ws, n - 1) + bits::u64_le_bytes(ws[n - 1])
    }
}

/// Thresholds laid out as one byte each.
pub open spec fn thresholds_bytes(ts: Seq<i8>) -> Seq<u8> {
    ts.map(|i: int, t: i8| t as u8)
}

/// The persisted form of an engine: the three counts as little-endian
/// 64-bit words, the weight words in row-major order, then the threshold
/// bytes. The transient state is not persisted.
pub open spec fn spec_serialize(b: BinaryBrain) -> Seq<u8> {
    bits::u64_le_bytes(b.spec_input_count() as u64) + bits::u64_le_bytes(
        b.spec_output_count() as u64,
    ) + bits::u64_le_bytes(b.spec_neuron_count() as u64) + words_bytes(
        b.weights_view(),
        b.weights_view().len() as int,
    ) + thresholds_bytes(b.thresholds_view())
}

/// The `n` words stored little-endian at `bytes[off ..]`.
pub open spec fn parse_words(bytes: Seq<u8>, off: int, n: int) -> Seq<u64>
    decreases n,
{
    if n <= 0 {
        Seq::<u64>::empty()
    } else {
        parse_words(bytes, off, n - 1).push(bits::u64_from_le(bytes, off + 8 * (n - 1)))
    }
}

/// Whether a byte stream carries a complete, loadable engine: a full
/// header whose counts satisfy the structural invariants and fit this
/// engine's size cap, followed by enough bytes for the weight matrix and
/// the thresholds the counts declare.
pub open spec fn spec_can_load(bytes: Seq<u8>) -> bool {
    &&& bytes.len() >= 24
    &&& ({
        let ic = bits::u64_from_le(bytes, 0) as int;
        let oc = bits::u64_from_le(bytes, 8) as int;
        let tc = bits::u64_from_le(bytes, 16) as int;
        &&& tc % 64 == 0
        &&& ic + oc <= tc
        &&& tc <= MAX_NEURON_COUNT
        &&& bytes.len() >= 24 + tc * tc / 8 + tc
    })
}

pub proof fn lemma_words_bytes_len(ws: Seq<u64>, n: int)
    requires
        0 <= n,
    ensures
        words_bytes(ws, n).len() == 8 * n,
    decreases n,
{
    if n > 0 {
        lemma_words_bytes_len(ws, n - 1);
    }
}

pub proof fn lemma_words_bytes_index(ws: Seq<u64>, n: int, j: int, t: int)
    requires
        0 <= j < n,
        0 <= t < 8,
    ensures
        words_bytes(ws, n)[8 * j + t] == bits::le_byte(ws[j], t),
    decreases n,
{
    lemma_words_bytes_len(ws, n - 1);
    if j < n - 1 {
        lemma_words_bytes_index(ws, n - 1, j, t);
    }
}

proof fn lemma_parse_prefix(s: Seq<u8>, ws: Seq<u64>, off: int, n: int)
    requires
        0 <= n <= ws.len(),
        forall|j: int, t: int|
            0 <= j < n && 0 <= t < 8 ==> s[off + 8 * j + t] == bits::le_byte(ws[j], t),
    ensures
        parse_words(s, off, n) == ws.subrange(0, n),
    decreases n,
{
    if n > 0 {
        lemma_parse_prefix(s, ws, off, n - 1);
        let w = ws[n - 1];
        assert(bits::u64_from_le(s, off + 8 * (n - 1)) == w) by {
            assert forall|t: int| 0 <= t < 8 implies s[off + 8 * (n - 1) + t] == bits::u64_le_bytes(
                w,
            )[t] by {
                assert(s[off + 8 * (n - 1) + t] == bits::le_byte(w, t));
            }
            bits::lemma_u64_le_round_trip(w);
        }
        assert(parse_words(s, off, n) =~= ws.subrange(0, n));
    } else {
        assert(parse_words(s, off, n) =~= ws.subrange(0, n));
    }
}

/// Serializing and loading again reproduces an engine's counts, weight
/// matrix and thresholds exactly; the recurrent state starts over at zero
/// and is not carried across persistence.
pub proof fn lemma_round_trip(b: BinaryBrain)
    requires
        b.wf(),
    ensures
        spec_can_load(spec_serialize(b)),
        bits::u64_from_le(spec_serialize(b), 0) == b.spec_input_count(),
        bits::u64_from_le(spec_serialize(b), 8) == b.spec_output_count(),
        bits::u64_from_le(spec_serialize(b), 16) == b.spec_neuron_count(),
        parse_words(spec_serialize(b), 24, b.spec_neuron_count() * b.spec_neuron_count() / 64)
            == b.weights_view(),
        Seq::new(
            b.spec_neuron_count() as nat,
            |i: int|
                spec_serialize(b)[24 + 8 * (b.spec_neuron_count() * b.spec_neuron_count() / 64)
                    + i] as i8,
        ) == b.thresholds_view(),
{
    let s = spec_serialize(b);
    let tc = b.spec_neuron_count();
    let wcount = tc * tc / 64;
    let ws = b.weights_view();
    b.lemma_wf_sizes();
    lemma_matrix_size(tc);
    lemma_words_bytes_len(ws, wcount);
    assert(s.len() == 24 + 8 * wcount + tc);
    assert(bits::u64_from_le(s, 0) == b.spec_input_count() as u64) by {
        let x = b.spec_input_count() as u64;
        assert forall|t: int| 0 <= t < 8 implies s[t] == bits::u64_le_bytes(x)[t] by {}
        bits::lemma_u64_le_round_trip(x);
    }
    assert(bits::u64_from_le(s, 8) == b.spec_output_count() as u64) by {
        let x = b.spec_output_count() as u64;
        assert forall|t: int| 0 <= t < 8 implies s[8 + t] == bits::u64_le_bytes(x)[t] by {}
        bits::lemma_u64_le_round_trip(x);
    }
    assert(bits::u64_from_le(s, 16) == b.spec_neuron_count() as u64) by {
        let x = b.spec_neuron_count() as u64;
        assert forall|t: int| 0 <= t < 8 implies s[16 + t] == bits::u64_le_bytes(x)[t] by {}
        bits::lemma_u64_le_round_trip(x);
    }
    assert forall|j: int, t: int| 0 <= j < wcount && 0 <= t < 8 implies s[24 + 8 * j + t]
        == bits::le_byte(ws[j], t) by {
        lemma_words_bytes_index(ws, wcount, j, t);
        assert(s[24 + 8 * j + t] == words_bytes(ws, wcount)[8 * j + t]);
    }
    lemma_parse_prefix(s, ws, 24, wcount);
    assert(parse_words(s, 24, wcount) =~= ws);
    assert(8 * wcount == tc * tc / 8) by {
        assert(tc * tc == 64 * wcount) by (nonlinear_arith)
            requires
                wcount == tc * tc / 64,
                tc % 64 == 0,
                tc == 64 * (tc / 64),
                tc * (tc / 64) == tc * tc / 64,
        ;
        assert(64 * wcount == 8 * (8 * wcount));
        lemma_div_by_multiple(8 * wcount, 8);
        assert((8 * wcount * 8) / 8 == 8 * wcount);
        assert(tc * tc / 8 == (8 * wcount * 8) / 8) by (nonlinear_arith)
            requires
                tc * tc == 64 * wcount,
        ;
    }
    assert(Seq::new(
        tc as nat,
        |i: int| s[24 + 8 * wcount + i] as i8,
    ) =~= b.thresholds_view()) by {
        assert forall|i: int| 0 <= i < tc implies s[24 + 8 * wcount + i] as i8
            == b.thresholds_view()[i] by {
            let tb = thresholds_bytes(b.thresholds_view());
            assert(s[24 + 8 * wcount + i] == tb[i]);
            assert(tb[i] == b.thresholds_view()[i] as u8);
            let v = b.thresholds_view()[i];
            assert(v as u8 as i8 == v) by (bit_vector);
        }
    }
}

/// Determinism: two engines with the same weights, thresholds, counts and
/// state produce, for the same input, the same stimulus and the same
/// firing decision at every neuron, and the same output sequence.
pub proof fn lemma_cycle_deterministic(a: BinaryBrain, b: BinaryBrain, input: Seq<i8>)
    requires
        same_params(a, b),
        a.state_view() == b.state_view(),
    ensures
        forall|i: int| #[trigger] a.total_stimulus(input, i) == b.total_stimulus(input, i),
        forall|i: int| #[trigger] a.spec_fires(input, i) == b.spec_fires(input, i),
        a.spec_output_seq(input) == b.spec_output_seq(input),
{
    assert(a.spec_output_seq(input) =~= b.spec_output_seq(input));
}

/// Two engines accept and produce value vectors of the same sizes.
pub open spec fn same_shape(a: BinaryBrain, b: BinaryBrain) -> bool {
    &&& a.spec_input_count() == b.spec_input_count()
    &&& a.spec_output_count() == b.spec_output_count()
    &&& a.spec_neuron_count() == b.spec_neuron_count()
}

/// Two engines hold the same evolved parameters: shape, weight matrix and
/// thresholds (the transient state is not compared).
pub open spec fn same_params(a: BinaryBrain, b: BinaryBrain) -> bool {
    &&& same_shape(a, b)
    &&& a.weights_view() == b.weights_view()
    &&& a.thresholds_view() == b.thresholds_view()
}

/// For a neuron count that fills whole words, the weight matrix size
/// `total * total / 64` is exactly `total` rows of `total / 64` words.
pub proof fn lemma_matrix_size(total: int)
    requires
        0 <= total,
        total % 64 == 0,
    ensures
        64 * (total / 64) == total,
        total * (total / 64) == total * total / 64,
{
    lemma_fundamental_div_mod(total, 64);
    assert(total == 64 * (total / 64));
    let m = total / 64;
    assert(total * m == (64 * m) * m) by (nonlinear_arith)
        requires
            total == 64 * m,
    ;
    assert((64 * m) * m == 64 * (m * m)) by (nonlinear_arith);
    assert(total * total == 64 * (m * total)) by (nonlinear_arith)
        requires
            total == 64 * m,
    ;
    lemma_div_by_multiple(m * total, 64);
    assert(total * total / 64 == m * total);
    assert(total * m == m * total) by (nonlinear_arith);
}

impl BinaryBrain {
    /// Builds an engine from explicit parameter arrays: the weight matrix
    /// must hold exactly one row of `activations.len() / 64` words per
    /// neuron, the counts must fit, and the neuron count must fill whole
    /// words. The recurrent state starts zeroed.
    pub fn with_parameters(
        weight_matrix: Vec<NeuronChunk>,
        activations: Vec<Activation>,
        input_count: usize,
        output_count: usize,
    ) -> (r: Result<BinaryBrain>)
        requires
            activations@.len() <= MAX_NEURON_COUNT,
        ensures
            ({
                let total = activations@.len() as int;
                &&& (r is Ok <==> input_count + output_count <= total && total % 64 == 0
                    && weight_matrix@.len() == total * total / 64)
                &&& (input_count + output_count > total ==> (r matches Err(e)
                    && e is InputOutputAboveTotal))
                &&& (input_count + output_count <= total && total % 64 != 0 ==> (r matches Err(e)
                    && e is TotalNotDivisbleByChunkSize))
                &&& (input_count + output_count <= total && total % 64 == 0
                    && weight_matrix@.len() != total * total / 64 ==> (r matches Err(e)
                    && e is InvalidWeightActivationCombo))
                &&& (r matches Ok(b) ==> {
                    &&& b.wf()
                    &&& b.spec_input_count() == input_count
                    &&& b.spec_output_count() == output_count
                    &&& b.spec_neuron_count() == total
                    &&& b.weights_view() == chunk_words(weight_matrix@)
                    &&& b.thresholds_view() == act_values(activations@)
                    &&& b.state_view() == Seq::new((total / 64) as nat, |i: int| 0u64)
                })
            }),
    {
        let total = activations.len();
        if input_count > total || output_count > total - input_count {
            return Err(BinaryBrainError::InputOutputAboveTotal);
        }
        if total % 64 != 0 {
            return Err(BinaryBrainError::TotalNotDivisbleByChunkSize);
        }
        proof {
            lemma_matrix_size(total as int);
        }
        let rows = total / 64;
        let wl = weight_matrix.len();
        let size_ok = if rows == 0 {
            wl == 0
        } else {
            wl / rows == total && wl % rows == 0
        };
        proof {
            if rows != 0 {
                lemma_fundamental_div_mod(wl as int, rows as int);
                if wl as int == total * total / 64 {
                    assert(wl == (rows as int) * (total as int)) by (nonlinear_arith)
                        requires
                            wl == total * (total / 64),
                            rows == total / 64,
                    ;
                    vstd::arithmetic::div_mod::lemma_div_multiples_vanish_fancy(
                        total as int,
                        0,
                        rows as int,
                    );
                }
                if wl / rows == total && wl % rows == 0 {
                    assert(wl as int == total * (total / 64)) by (nonlinear_arith)
                        requires
                            wl == (rows as int) * (total as int),
                            rows == total / 64,
                    ;
                }
            }
        }
        if !size_ok {
            return Err(BinaryBrainError::InvalidWeightActivationCombo);
        }
        let mut values: Vec<NeuronChunk> = Vec::new();
        let mut i: usize = 0;
        while i < rows
            invariant
                i <= rows,
                values@.len() == i,
                forall|j: int| 0 <= j < i ==> values@[j].0 == 0u64,
            decreases rows - i,
        {
            values.push(NeuronChunk(0));
            i = i + 1;
        }
        let b = BinaryBrain {
            weight_matrix,
            values,
            act: activations,
            input_count,
            output_count,
            neuron_count: total,
        };
        proof {
            assert(b.state_view() =~= Seq::new((total as int / 64) as nat, |i: int| 0u64));
        }
        Ok(b)
    }

    /// Builds an engine of the given shape with every weight bit and every
    /// threshold drawn independently from the generator, and a zeroed
    /// state. Fails exactly when `total_count` does not fill whole words or
    /// the input and output ranges do not fit.
    pub fn new(
        input_count: usize,
        output_count: usize,
        total_count: usize,
        rng: &mut rand_xoshiro::Xoshiro256StarStar,
    ) -> (r: Result<BinaryBrain>)
        requires
            total_count <= MAX_NEURON_COUNT,
            total_count * total_count / 64 <= usize::MAX,
        ensures
            r is Ok <==> (total_count % 64 == 0 && input_count + output_count <= total_count),
            total_count % 64 != 0 ==> (r matches Err(e) && e is TotalNotDivisbleByChunkSize),
            total_count % 64 == 0 && input_count + output_count > total_count ==> (r matches Err(e)
                && e is InputOutputAboveTotal),
            r matches Ok(b) ==> {
                &&& b.wf()
                &&& b.spec_input_count() == input_count
                &&& b.spec_output_count() == output_count
                &&& b.spec_neuron_count() == total_count
                &&& b.state_view() == Seq::new((total_count / 64) as nat, |i: int| 0u64)
            },
    {
        if total_count % 64 != 0 {
            return Err(BinaryBrainError::TotalNotDivisbleByChunkSize);
        }
        if input_count > total_count || output_count > total_count - input_count {
            return Err(BinaryBrainError::InputOutputAboveTotal);
        }
        proof {
            lemma_matrix_size(total_count as int);
        }
        let rows = total_count / 64;
        let chunk_count = total_count * rows;
        let mut weight_matrix: Vec<NeuronChunk> = Vec::new();
        let mut i: usize = 0;
        while i < chunk_count
            invariant
                i <= chunk_count,
                weight_matrix@.len() == i,
            decreases chunk_count - i,
        {
            weight_matrix.push(NeuronChunk(randsrc::next_word(rng)));
            i = i + 1;
        }
        let mut act: Vec<Activation> = Vec::new();
        let mut j: usize = 0;
        while j < total_count
            invariant
                j <= total_count,
                act@.len() == j,
            decreases total_count - j,
        {
            let w = randsrc::next_word(rng);
            act.push(Activation(#[verifier::truncate] (w as i8)));
            j = j + 1;
        }
        let r = Self::with_parameters(weight_matrix, act, input_count, output_count);
        proof {
            assert(r is Ok);
        }
        r
    }

    /// Builds a fresh engine with the same shape as `template` but
    /// independently drawn weights and thresholds, and a zeroed state.
    pub fn from_template(
        template: &BinaryBrain,
        rng: &mut rand_xoshiro::Xoshiro256StarStar,
    ) -> (r: BinaryBrain)
        requires
            template.wf(),
        ensures
            r.wf(),
            same_shape(r, *template),
            r.state_view() == Seq::new((template.spec_neuron_count() / 64) as nat, |i: int| 0u64),
    {
        let wl = template.weight_matrix.len();
        proof {
            assert(template.spec_neuron_count() * template.spec_neuron_count() / 64 == wl as int);
        }
        let r = Self::new(template.input_count, template.output_count, template.neuron_count, rng);
        match r {
            Ok(b) => b,
            Err(_) => vstd::pervasive::unreached(),
        }
    }

    /// A copy that shares nothing with the original: same shape, weight
    /// matrix, thresholds and recurrent state.
    pub fn duplicate(&self) -> (r: BinaryBrain)
        ensures
            same_params(r, *self),
            r.state_view() == self.state_view(),
            r.wf() == self.wf(),
    {
        BinaryBrain {
            weight_matrix: clone_chunks(&self.weight_matrix),
            values: clone_chunks(&self.values),
            act: clone_acts(&self.act),
            input_count: self.input_count,
            output_count: self.output_count,
            neuron_count: self.neuron_count,
        }
    }

    /// Neuron `i`'s stimulus for one cycle: its weight row scored against
    /// the previous state, plus the external input for input neurons.
    pub open spec fn total_stimulus(self, input: Seq<i8>, i: int) -> int {
        neuron_sum(self.weights_view(), self.state_view(), i) + if i < self.spec_input_count() {
            input[i] as int
        } else {
            0
        }
    }

    /// Whether neuron `i` fires this cycle: its stimulus reaches its
    /// threshold.
    pub open spec fn spec_fires(self, input: Seq<i8>, i: int) -> bool {
        self.total_stimulus(input, i) >= self.thresholds_view()[i]
    }

    /// What one cycle reports: for each output neuron, in neuron order,
    /// whether it fired and its stimulus.
    pub open spec fn spec_output_seq(self, input: Seq<i8>) -> Seq<(bool, i32)> {
        Seq::new(
            self.spec_output_count() as nat,
            |k: int|
                {
                    let i = self.spec_neuron_count() - self.spec_output_count() + k;
                    (self.spec_fires(input, i), self.total_stimulus(input, i) as i32)
                },
        )
    }

    /// The recurrent stimulus of neuron `neuron` from the current state.
    fn calc_sum(&self, neuron: usize) -> (r: i32)
        requires
            self.wf(),
            (neuron as int) < self.spec_neuron_count(),
        ensures
            r == neuron_sum(self.weights_view(), self.state_view(), neuron as int),
            -self.spec_neuron_count() <= r <= self.spec_neuron_count(),
    {
        let row_size = self.values.len();
        let wl = self.weight_matrix.len();
        proof {
            lemma_matrix_size(self.neuron_count as int);
            assert((neuron as int) * (row_size as int) + row_size as int <= (
            self.neuron_count as int) * (row_size as int)) by (nonlinear_arith)
                requires
                    (neuron as int) < self.neuron_count as int,
                    0 <= row_size as int,
            ;
        }
        let base = neuron * row_size;
        let mut sum: i32 = 0;
        let mut j: usize = 0;
        while j < row_size
            invariant
                self.wf(),
                (neuron as int) < self.spec_neuron_count(),
                j <= row_size,
                row_size == self.values@.len(),
                wl == self.weight_matrix@.len(),
                base == neuron * row_size,
                base + row_size <= wl,
                64 * (row_size as int) == self.spec_neuron_count(),
                sum == row_contrib(self.weights_view(), self.state_view(), neuron as int, j as int),
                -64 * (j as int) <= sum as int <= 64 * (j as int),
            decreases row_size - j,
        {
            let c = bits::word_contrib_exec(self.weight_matrix[base + j].0, self.values[j].0);
            sum = sum + c;
            j = j + 1;
        }
        sum
    }

    /// Runs one synchronous cycle: every neuron's stimulus is scored
    /// against the state left by the previous cycle, every firing decision
    /// is packed into fresh state words written once per 64 neurons, and
    /// the firing decisions and stimuli of the output neurons are collected
    /// in neuron order. Fails, touching nothing, exactly when the input
    /// length is not the input count.
    pub fn cycle(&mut self, input: &[Activation], output: &mut Vec<(bool, i32)>) -> (r: Result<()>)
        requires
            old(self).wf(),
        ensures
            final(self).wf(),
            same_params(*final(self), *old(self)),
            r is Ok <==> input@.len() == old(self).spec_input_count(),
            r is Err ==> *final(self) == *old(self) && *final(output) == *old(output) && (
            r matches Err(e) && e is WrongInputShape),
            r is Ok ==> final(self).state_view().len() == old(self).spec_neuron_count() / 64,
            r is Ok ==> forall|w: int, j: u64|
                0 <= w < old(self).spec_neuron_count() / 64 && j < 64 ==> #[trigger] bit64(
                    final(self).state_view()[w],
                    j,
                ) == old(self).spec_fires(act_values(input@), 64 * w + j),
            r is Ok ==> final(output)@ == old(self).spec_output_seq(act_values(input@)),
    {
        if input.len() != self.input_count {
            return Err(BinaryBrainError::WrongInputShape);
        }
        let ghost inp = act_values(input@);
        let total = self.neuron_count;
        let rows = self.values.len();
        proof {
            lemma_matrix_size(total as int);
        }
        output.clear();
        let output_start = total - self.output_count;
        let mut new_values: Vec<NeuronChunk> = Vec::new();
        let mut c: usize = 0;
        while c < rows
            invariant
                self.wf(),
                *self == *old(self),
                input@.len() == self.spec_input_count(),
                inp == act_values(input@),
                total == self.spec_neuron_count(),
                rows == self.values@.len(),
                64 * (rows as int) == total as int,
                output_start == total - self.output_count,
                (output_start as int) == self.spec_neuron_count() - self.spec_output_count(),
                c <= rows,
                new_values@.len() == c,
                forall|w: int, j: u64|
                    0 <= w < c && j < 64 ==> #[trigger] bit64(new_values@[w].0, j)
                        == self.spec_fires(inp, 64 * w + j),
                output@.len() == if c * 64 <= output_start as int {
                    0int
                } else {
                    c * 64 - output_start
                },
                forall|k: int|
                    0 <= k < output@.len() ==> #[trigger] output@[k] == (self.spec_fires(
                        inp,
                        output_start + k,
                    ), self.total_stimulus(inp, output_start + k) as i32),
            decreases rows - c,
        {
            let mut word: u64 = 0;
            let mut b: usize = 0;
            proof {
                bits::lemma_bit_zero();
            }
            while b < 64
                invariant
                    self.wf(),
                    *self == *old(self),
                    input@.len() == self.spec_input_count(),
                    inp == act_values(input@),
                    total == self.spec_neuron_count(),
                    rows == self.values@.len(),
                    64 * (rows as int) == total as int,
                    output_start == total - self.output_count,
                    (output_start as int) == self.spec_neuron_count() - self.spec_output_count(),
                    c < rows,
                    new_values@.len() == c,
                    forall|w: int, j: u64|
                        0 <= w < c && j < 64 ==> #[trigger] bit64(new_values@[w].0, j)
                            == self.spec_fires(inp, 64 * w + j),
                    b <= 64,
                    forall|j: u64|
                        j < b ==> #[trigger] bit64(word, j) == self.spec_fires(
                            inp,
                            64 * (c as int) + j,
                        ),
                    forall|j: u64| b <= j < 64 ==> !(#[trigger] bit64(word, j)),
                    output@.len() == if c * 64 + b <= output_start as int {
                        0int
                    } else {
                        c * 64 + b - output_start
                    },
                    forall|k: int|
                        0 <= k < output@.len() ==> #[trigger] output@[k] == (self.spec_fires(
                            inp,
                            output_start + k,
                        ), self.total_stimulus(inp, output_start + k) as i32),
                decreases 64 - b,
            {
                let i = c * 64 + b;
                let mut sum = self.calc_sum(i);
                if i < self.input_count {
                    sum = sum + input[i].0 as i32;
                }
                proof {
                    assert(sum == self.total_stimulus(inp, i as int));
                }
                let fire = sum >= self.act[i].0 as i32;
                if fire {
                    proof {
                        bits::lemma_bit_set(word, b as u64);
                    }
                    word = word | (1u64 << (b as u64));
                }
                if i >= output_start {
                    output.push((fire, sum));
                }
                b = b + 1;
            }
            new_values.push(NeuronChunk(word));
            c = c + 1;
        }
        self.values = new_values;
        proof {
            assert(output@ =~= old(self).spec_output_seq(inp));
        }
        Ok(())
    }

    /// Writes the engine out in its fixed little-endian layout: the three
    /// counts, the weight words in row-major order, then the threshold
    /// bytes. The recurrent state is left out.
    pub fn serialize(&self) -> (r: Vec<u8>)
        requires
            self.wf(),
        ensures
            r@ == spec_serialize(*self),
    {
        let mut out: Vec<u8> = Vec::new();
        bits::push_u64_le(&mut out, self.input_count as u64);
        bits::push_u64_le(&mut out, self.output_count as u64);
        bits::push_u64_le(&mut out, self.neuron_count as u64);
        let ghost header = out@;
        let wl = self.weight_matrix.len();
        let mut j: usize = 0;
        while j < wl
            invariant
                self.wf(),
                j <= wl,
                wl == self.weight_matrix@.len(),
                out@ == header + words_bytes(self.weights_view(), j as int),
            decreases wl - j,
        {
            bits::push_u64_le(&mut out, self.weight_matrix[j].0);
            proof {
                assert(out@ =~= header + words_bytes(self.weights_view(), j + 1));
            }
            j = j + 1;
        }
        let ghost mid = out@;
        let total = self.act.len();
        let mut t: usize = 0;
        while t < total
            invariant
                self.wf(),
                t <= total,
                total == self.act@.len(),
                out@ == mid + thresholds_bytes(self.thresholds_view()).subrange(0, t as int),
            decreases total - t,
        {
            out.push(#[verifier::truncate] (self.act[t].0 as u8));
            proof {
                assert(out@ =~= mid + thresholds_bytes(self.thresholds_view()).subrange(
                    0,
                    t + 1,
                ));
            }
            t = t + 1;
        }
        proof {
            assert(thresholds_bytes(self.thresholds_view()).subrange(0, total as int)
                =~= thresholds_bytes(self.thresholds_view()));
            assert(out@ =~= spec_serialize(*self));
        }
        out
    }

    /// Rebuilds an engine from its persisted bytes, with a freshly zeroed
    /// state. Fails on a truncated stream, on counts that violate the
    /// structural invariants, and on a declared size beyond this engine's
    /// cap; on failure no engine is produced.
    pub fn deserialize(bytes: &[u8]) -> (r: Result<BinaryBrain>)
        ensures
            r is Ok <==> spec_can_load(bytes@),
            r matches Ok(b) ==> {
                let wcount = b.spec_neuron_count() * b.spec_neuron_count() / 64;
                &&& b.wf()
                &&& b.spec_input_count() == bits::u64_from_le(bytes@, 0)
                &&& b.spec_output_count() == bits::u64_from_le(bytes@, 8)
                &&& b.spec_neuron_count() == bits::u64_from_le(bytes@, 16)
                &&& b.weights_view() == parse_words(bytes@, 24, wcount)
                &&& b.thresholds_view() == Seq::new(
                    b.spec_neuron_count() as nat,
                    |i: int| #[verifier::truncate] (bytes@[24 + 8 * wcount + i] as i8),
                )
                &&& b.state_view() == Seq::new((b.spec_neuron_count() / 64) as nat, |i: int| 0u64)
            },
            bytes@.len() < 24 ==> (r matches Err(e) && e is Truncated),
            bytes@.len() >= 24 && bits::u64_from_le(bytes@, 16) as int % 64 != 0 ==> (r matches Err(
                e,
            ) && e is TotalNotDivisbleByChunkSize),
            bytes@.len() >= 24 && bits::u64_from_le(bytes@, 16) as int % 64 == 0 && bits::u64_from_le(
                bytes@,
                0,
            ) + bits::u64_from_le(bytes@, 8) > bits::u64_from_le(bytes@, 16) ==> (r matches Err(e)
                && e is InputOutputAboveTotal),
            ({
                let ic = bits::u64_from_le(bytes@, 0) as int;
                let oc = bits::u64_from_le(bytes@, 8) as int;
                let tc = bits::u64_from_le(bytes@, 16) as int;
                bytes@.len() >= 24 && tc % 64 == 0 && ic + oc <= tc && (tc > MAX_NEURON_COUNT
                    || bytes@.len() < 24 + tc * tc / 8 + tc)
            }) ==> (r matches Err(e) && e is Truncated),
    {
        if bytes.len() < 24 {
            return Err(BinaryBrainError::Truncated);
        }
        let ic64 = bits::read_u64_le(bytes, 0);
        let oc64 = bits::read_u64_le(bytes, 8);
        let tc64 = bits::read_u64_le(bytes, 16);
        if tc64 % 64 != 0 {
            return Err(BinaryBrainError::TotalNotDivisbleByChunkSize);
        }
        if ic64 > tc64 || oc64 > tc64 - ic64 {
            return Err(BinaryBrainError::InputOutputAboveTotal);
        }
        if tc64 > MAX_NEURON_COUNT as u64 {
            return Err(BinaryBrainError::Truncated);
        }
        proof {
            lemma_matrix_size(tc64 as int);
        }
        let rows64 = tc64 / 64;
        proof {
            lemma_div_is_ordered(tc64 as int, 0x7fff_ff00, 64);
            assert(rows64 * tc64 <= 0x0200_0000 * 0x7fff_ff00) by (nonlinear_arith)
                requires
                    0 <= rows64 <= 0x0200_0000,
                    0 <= tc64 <= 0x7fff_ff00,
            ;
        }
        let wc64 = rows64 * tc64;
        let ghost tci = tc64 as int;
        let ghost wcount = tci * tci / 64;
        proof {
            assert((tci / 64) * tci == tci * (tci / 64)) by (nonlinear_arith);
            assert(wc64 as int == wcount);
            assert(8 * wcount == tci * tci / 8) by {
                assert(tci * tci == 64 * wcount) by (nonlinear_arith)
                    requires
                        wcount == tci * tci / 64,
                        tci == 64 * (tci / 64),
                        tci * (tci / 64) == tci * tci / 64,
                ;
                assert(64 * wcount == 8 * (8 * wcount));
                lemma_div_by_multiple(8 * wcount, 8);
                assert((8 * wcount * 8) / 8 == 8 * wcount);
                assert(tci * tci / 8 == (8 * wcount * 8) / 8) by (nonlinear_arith)
                    requires
                        tci * tci == 64 * wcount,
                ;
            }
        }
        let need: u128 = 24u128 + 8u128 * (wc64 as u128) + (tc64 as u128);
        if (bytes.len() as u128) < need {
            return Err(BinaryBrainError::Truncated);
        }
        let tc = tc64 as usize;
        let ic = ic64 as usize;
        let oc = oc64 as usize;
        let wc = wc64 as usize;
        let mut weights: Vec<NeuronChunk> = Vec::new();
        let mut j: usize = 0;
        while j < wc
            invariant
                j <= wc,
                weights@.len() == j,
                wc == wcount,
                0 <= tci,
                24 + 8 * wcount + tci <= bytes@.len(),
                bytes@.len() <= usize::MAX,
                chunk_words(weights@) == parse_words(bytes@, 24, j as int),
            decreases wc - j,
        {
            weights.push(NeuronChunk(bits::read_u64_le(bytes, 24 + 8 * j)));
            proof {
                assert(chunk_words(weights@) =~= parse_words(bytes@, 24, j + 1));
            }
            j = j + 1;
        }
        let base = 24 + 8 * wc;
        let mut acts: Vec<Activation> = Vec::new();
        let mut t: usize = 0;
        while t < tc
            invariant
                t <= tc,
                acts@.len() == t,
                tc == tci,
                wc == wcount,
                base == 24 + 8 * wcount,
                0 <= wcount,
                24 + 8 * wcount + tci <= bytes@.len(),
                bytes@.len() <= usize::MAX,
                forall|i: int| 0 <= i < t ==> acts@[i].0 == (#[verifier::truncate] (bytes@[base + i] as i8)),
            decreases tc - t,
        {
            acts.push(Activation(#[verifier::truncate] (bytes[base + t] as i8)));
            t = t + 1;
        }
        let r = Self::with_parameters(weights, acts, ic, oc);
        match r {
            Ok(b) => {
                proof {
                    assert(b.thresholds_view() =~= Seq::new(
                        b.spec_neuron_count() as nat,
                        |i: int| #[verifier::truncate] (bytes@[24 + 8 * wcount + i] as i8),
                    ));
                }
                Ok(b)
            },
            Err(_) => vstd::pervasive::unreached(),
        }
    }

    /// The packed weight matrix, row-major.
    pub fn weights(&self) -> (r: &[NeuronChunk])
        ensures
            chunk_words(r@) == self.weights_view(),
    {
        self.weight_matrix.as_slice()
    }

    /// The per-neuron thresholds.
    pub fn activations(&self) -> (r: &[Activation])
        ensures
            act_values(r@) == self.thresholds_view(),
    {
        self.act.as_slice()
    }

    /// How many neurons receive external input.
    pub fn input_count(&self) -> (r: usize)
        ensures
            r == self.spec_input_count(),
    {
        self.input_count
    }

    /// How many neurons are read as output.
    pub fn output_count(&self) -> (r: usize)
        ensures
            r == self.spec_output_count(),
    {
        self.output_count
    }

    /// The total neuron count.
    pub fn neuron_count(&self) -> (r: usize)
        ensures
            r == self.spec_neuron_count(),
    {
        self.neuron_count
    }
}

} // verus!
