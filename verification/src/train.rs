//! The genetic trainer: a fixed-size population of engines scored by a
//! caller-supplied fitness function and rebred by tournament selection,
//! sub-word crossover and biased bit-mask mutation, all performed directly
//! on the packed representation.

use vstd::prelude::*;

use crate::bits;
use crate::randsrc;
use crate::util::Xoshiro128PlusPlusAvx2;
use crate::{same_params, same_shape, BinaryBrain, BinaryBrainError, Result};

verus! {

/// The sentinel fitness of an individual that has not been evaluated.
pub const UNEVALUATED: i64 = i64::MIN;

/// The lowest fitness among the first `n` population entries.
pub open spec fn min_fitness(pop: Seq<(BinaryBrain, i64)>, n: int) -> int
    decreases n,
{
    if n <= 1 {
        pop[0].1 as int
    } else {
        let m = min_fitness(pop, n - 1);
        if pop[n - 1].1 < m {
            pop[n - 1].1 as int
        } else {
            m
        }
    }
}

/// No entry's fitness lies below the population minimum.
pub proof fn lemma_min_fitness_le(pop: Seq<(BinaryBrain, i64)>, n: int, j: int)
    requires
        0 <= j < n,
    ensures
        min_fitness(pop, n) <= pop[j].1,
    decreases n,
{
    if n > 1 && j < n - 1 {
        lemma_min_fitness_le(pop, n - 1, j);
    }
}

/// Ordering of crossover points by word, then bit.
pub open spec fn pt_le(a: (usize, usize), b: (usize, usize)) -> bool {
    a.0 < b.0 || (a.0 == b.0 && a.1 <= b.1)
}

/// `count` crossover positions, each a word index below `word_count` and
/// a bit offset within the word, drawn uniformly and independently.
fn sample_points(
    rng: &mut rand_xoshiro::Xoshiro256StarStar,
    count: usize,
    word_count: usize,
) -> (r: Vec<(usize, usize)>)
    requires
        word_count >= 1,
    ensures
        r@.len() == count,
        forall|i: int| 0 <= i < count ==> (#[trigger] r@[i]).0 < word_count && r@[i].1 < 64,
{
    let mut r: Vec<(usize, usize)> = Vec::new();
    let mut t: usize = 0;
    while t < count
        invariant
            word_count >= 1,
            t <= count,
            r@.len() == t,
            forall|i: int| 0 <= i < t ==> (#[trigger] r@[i]).0 < word_count && r@[i].1 < 64,
        decreases count - t,
    {
        let w = randsrc::sample_index(rng, word_count);
        let b = randsrc::sample_index(rng, 64);
        r.push((w, b));
        t = t + 1;
    }
    r
}

/// The crossover positions in increasing word-then-bit order.
fn sort_points(src: Vec<(usize, usize)>) -> (r: Vec<(usize, usize)>)
    ensures
        r@.len() == src@.len(),
        forall|i: int, j: int| 0 <= i < j < r@.len() ==> pt_le(#[trigger] r@[i], #[trigger] r@[j]),
{
    let ghost n = src@.len();
    let mut rest = src;
    let mut out: Vec<(usize, usize)> = Vec::new();
    while rest.len() > 0
        invariant
            out@.len() + rest@.len() == n,
            forall|i: int, j: int|
                0 <= i < j < out@.len() ==> pt_le(#[trigger] out@[i], #[trigger] out@[j]),
            forall|i: int, j: int|
                0 <= i < out@.len() && 0 <= j < rest@.len() ==> pt_le(
                    #[trigger] out@[i],
                    #[trigger] rest@[j],
                ),
        decreases rest@.len(),
    {
        let mut m: usize = 0;
        let mut t: usize = 1;
        while t < rest.len()
            invariant
                rest@.len() > 0,
                (m as int) < rest@.len(),
                t <= rest@.len(),
                forall|u: int| 0 <= u < t ==> pt_le(rest@[m as int], #[trigger] rest@[u]),
            decreases rest@.len() - t,
        {
            if rest[t].0 < rest[m].0 || (rest[t].0 == rest[m].0 && rest[t].1 < rest[m].1) {
                m = t;
            }
            t = t + 1;
        }
        let ghost before = rest@;
        let p = rest.remove(m);
        proof {
            assert forall|j: int| 0 <= j < rest@.len() implies pt_le(p, #[trigger] rest@[j]) by {
                if j < m {
                    assert(rest@[j] == before[j]);
                } else {
                    assert(rest@[j] == before[j + 1]);
                }
            }
        }
        out.push(p);
        t = 0;
    }
    out
}

/// `count` threshold indices below `total`, drawn uniformly and
/// independently.
fn sample_indices(rng: &mut rand_xoshiro::Xoshiro256StarStar, count: usize, total: usize) -> (r:
    Vec<usize>)
    requires
        total >= 1,
    ensures
        r@.len() == count,
        forall|i: int| 0 <= i < count ==> #[trigger] r@[i] < total,
{
    let mut r: Vec<usize> = Vec::new();
    let mut t: usize = 0;
    while t < count
        invariant
            total >= 1,
            t <= count,
            r@.len() == t,
            forall|i: int| 0 <= i < t ==> #[trigger] r@[i] < total,
        decreases count - t,
    {
        r.push(randsrc::sample_index(rng, total));
        t = t + 1;
    }
    r
}

/// The threshold indices in increasing order.
fn sort_indices(src: Vec<usize>) -> (r: Vec<usize>)
    ensures
        r@.len() == src@.len(),
        forall|i: int, j: int| 0 <= i < j < r@.len() ==> #[trigger] r@[i] <= #[trigger] r@[j],
{
    let ghost n = src@.len();
    let mut rest = src;
    let mut out: Vec<usize> = Vec::new();
    while rest.len() > 0
        invariant
            out@.len() + rest@.len() == n,
            forall|i: int, j: int| 0 <= i < j < out@.len() ==> #[trigger] out@[i] <= #[trigger] out@[j],
            forall|i: int, j: int|
                0 <= i < out@.len() && 0 <= j < rest@.len() ==> #[trigger] out@[i]
                    <= #[trigger] rest@[j],
        decreases rest@.len(),
    {
        let mut m: usize = 0;
        let mut t: usize = 1;
        while t < rest.len()
            invariant
                rest@.len() > 0,
                (m as int) < rest@.len(),
                t <= rest@.len(),
                forall|u: int| 0 <= u < t ==> rest@[m as int] <= #[trigger] rest@[u],
            decreases rest@.len() - t,
        {
            if rest[t] < rest[m] {
                m = t;
            }
            t = t + 1;
        }
        let ghost before = rest@;
        let p = rest.remove(m);
        proof {
            assert forall|j: int| 0 <= j < rest@.len() implies p <= #[trigger] rest@[j] by {
                if j < m {
                    assert(rest@[j] == before[j]);
                } else {
                    assert(rest@[j] == before[j + 1]);
                }
            }
        }
        out.push(p);
        t = 0;
    }
    out
}

/// The split mask of a crossover offset: the bits below `idx` set.
pub open spec fn spec_low_mask(idx: int) -> u64 {
    if idx <= 0 {
        0u64
    } else if idx >= 64 {
        u64::MAX
    } else {
        (u64::MAX >> ((64 - idx) as u64)) as u64
    }
}

/// The split mask, computed.
fn low_mask(idx: usize) -> (r: u64)
    ensures
        r == spec_low_mask(idx as int),
{
    if idx == 0 {
        0
    } else if idx >= 64 {
        u64::MAX
    } else {
        u64::MAX >> ((64 - idx) as u64)
    }
}

/// At bit position `j`, the two children hold the two parents' bits, one
/// child each way around.
pub open spec fn bit_pair_at(xa: u64, xb: u64, a: u64, b: u64, j: u64) -> bool {
    (bits::bit64(xa, j) == bits::bit64(a, j) && bits::bit64(xb, j) == bits::bit64(b, j)) || (
    bits::bit64(xa, j) == bits::bit64(b, j) && bits::bit64(xb, j) == bits::bit64(a, j))
}

/// Each bit position of the two children holds the two parents' bits at
/// that position, one child each way around.
pub open spec fn bit_paired(xa: u64, xb: u64, a: u64, b: u64) -> bool {
    forall|j: u64| j < 64 ==> #[trigger] bit_pair_at(xa, xb, a, b, j)
}

/// Splicing under a mask picks each bit from the kept word where the mask
/// is set and from the incoming word where it is clear.
proof fn lemma_mask_select()
    ensures
        forall|x: u64, na: u64, mask: u64, j: u64|
            j < 64 ==> #[trigger] bits::bit64((x & mask) | (na & !mask), j) == (if bits::bit64(
                mask,
                j,
            ) {
                bits::bit64(x, j)
            } else {
                bits::bit64(na, j)
            }),
{
    assert(forall|x: u64, na: u64, mask: u64, j: u64|
        j < 64 ==> ((((x & mask) | (na & !mask)) >> j) & 1) == (if ((mask >> j) & 1) == 1 {
            (x >> j) & 1
        } else {
            (na >> j) & 1
        })) by (bit_vector);
}

/// One crossover split keeps the children a complementary recombination
/// of the two parents at every bit position.
proof fn lemma_cross_step(x: u64, y: u64, a: u64, b: u64, mask: u64, na: u64, nb: u64)
    requires
        bit_paired(x, y, a, b),
        (na == a && nb == b) || (na == b && nb == a),
    ensures
        bit_paired((x & mask) | (na & !mask), (y & mask) | (nb & !mask), a, b),
{
    lemma_mask_select();
    let xa = (x & mask) | (na & !mask);
    let xb = (y & mask) | (nb & !mask);
    assert forall|j: u64| j < 64 implies #[trigger] bit_pair_at(xa, xb, a, b, j) by {
        assert(bits::bit64(xa, j) == (if bits::bit64(mask, j) {
            bits::bit64(x, j)
        } else {
            bits::bit64(na, j)
        }));
        assert(bits::bit64(xb, j) == (if bits::bit64(mask, j) {
            bits::bit64(y, j)
        } else {
            bits::bit64(nb, j)
        }));
        assert(bit_pair_at(x, y, a, b, j));
    }
}

/// Four weight-mutation masks: each the AND of `k` fresh uniform words
/// per lane, so every bit is set with probability two to the minus `k`;
/// strength zero disables mutation and yields zero masks.
fn mutation_masks(bulk: &mut Xoshiro128PlusPlusAvx2, k: u8) -> (r: [u64; 4])
    ensures
        k == 0 ==> r@ == seq![0u64, 0u64, 0u64, 0u64],
{
    if k == 0 {
        let z: [u64; 4] = [0, 0, 0, 0];
        proof {
            assert(z@ =~= seq![0u64, 0u64, 0u64, 0u64]);
        }
        return z;
    }
    let mut m = bulk.next();
    let mut t: u8 = 1;
    while t < k
        invariant
            1 <= t <= k,
        decreases k - t,
    {
        let w = bulk.next();
        m = [m[0] & w[0], m[1] & w[1], m[2] & w[2], m[3] & w[3]];
        t = t + 1;
    }
    m
}

/// Recombines two parents' weight matrices into a complementary pair of
/// children, then flips each child bit with probability two to the minus
/// `k`. Walking the words in order, the active parent alternates at each
/// crossover point, splitting the point's word with a bit mask; the
/// sibling swaps copy sources at every point. With strength zero each
/// child bit still comes from one of the two parents at that position,
/// and with no points the children are the parents verbatim.
#[verifier::loop_isolation(false)]
fn crossover_weights(
    a: &[crate::NeuronChunk],
    b: &[crate::NeuronChunk],
    pts: &Vec<(usize, usize)>,
    bulk: &mut Xoshiro128PlusPlusAvx2,
    k: u8,
) -> (r: (Vec<crate::NeuronChunk>, Vec<crate::NeuronChunk>))
    requires
        a@.len() == b@.len(),
    ensures
        r.0@.len() == a@.len(),
        r.1@.len() == a@.len(),
        k == 0 ==> forall|t: int|
            0 <= t < a@.len() ==> bit_paired(
                (#[trigger] r.0@[t]).0,
                r.1@[t].0,
                a@[t].0,
                b@[t].0,
            ),
        k == 0 && pts@.len() == 0 ==> crate::chunk_words(r.0@) == crate::chunk_words(a@)
            && crate::chunk_words(r.1@) == crate::chunk_words(b@),
{
    proof {
        bits::lemma_xor_zero();
    }
    let n = a.len();
    let mut out_a: Vec<crate::NeuronChunk> = Vec::new();
    let mut out_b: Vec<crate::NeuronChunk> = Vec::new();
    let mut buf: [u64; 4] = [0, 0, 0, 0];
    let mut buf_i: usize = 4;
    proof {
        assert(buf@ =~= seq![0u64, 0u64, 0u64, 0u64]);
    }
    let mut p: usize = 0;
    let mut flip = false;
    let mut w: usize = 0;
    while w < n
        invariant
            n == a@.len(),
            n == b@.len(),
            w <= n,
            out_a@.len() == w,
            out_b@.len() == w,
            p <= pts@.len(),
            buf_i <= 4,
            k == 0 ==> buf@ == seq![0u64, 0u64, 0u64, 0u64],
            k == 0 ==> forall|t: int|
                0 <= t < w ==> bit_paired(
                    (#[trigger] out_a@[t]).0,
                    out_b@[t].0,
                    a@[t].0,
                    b@[t].0,
                ),
            pts@.len() == 0 ==> !flip && p == 0,
            k == 0 && pts@.len() == 0 ==> forall|t: int|
                0 <= t < w ==> (#[trigger] out_a@[t]).0 == a@[t].0 && out_b@[t].0 == b@[t].0,
        decreases n - w,
    {
        let aw = a[w].0;
        let bw = b[w].0;
        let mut x = if flip {
            bw
        } else {
            aw
        };
        let mut y = if flip {
            aw
        } else {
            bw
        };
        proof {
            assert forall|j: u64| j < 64 implies #[trigger] bit_pair_at(x, y, aw, bw, j) by {}
        }
        while p < pts.len() && pts[p].0 == w
            invariant
                n == a@.len(),
                n == b@.len(),
                w < n,
                aw == a@[w as int].0,
                bw == b@[w as int].0,
                p <= pts@.len(),
                bit_paired(x, y, aw, bw),
                pts@.len() == 0 ==> !flip && p == 0 && x == aw && y == bw,
            decreases pts@.len() - p,
        {
            let idx = pts[p].1;
            let mask = low_mask(idx);
            flip = !flip;
            let na = if flip {
                bw
            } else {
                aw
            };
            let nb = if flip {
                aw
            } else {
                bw
            };
            proof {
                lemma_cross_step(x, y, aw, bw, mask, na, nb);
            }
            x = (x & mask) | (na & !mask);
            y = (y & mask) | (nb & !mask);
            p = p + 1;
        }
        if buf_i == 4 {
            buf = mutation_masks(bulk, k);
            buf_i = 0;
        }
        let m = buf[buf_i];
        buf_i = buf_i + 1;
        proof {
            if k == 0 {
                assert(m == 0u64);
            }
        }
        out_a.push(crate::NeuronChunk(x ^ m));
        out_b.push(crate::NeuronChunk(y ^ m));
        proof {
            if k == 0 && pts@.len() == 0 {
                assert forall|t: int|
                    0 <= t < w + 1 implies (#[trigger] out_a@[t]).0 == a@[t].0 && out_b@[t].0
                    == b@[t].0 by {
                    if t == w {
                        assert(m == 0u64);
                        assert(x ^ m == x && y ^ m == y);
                        assert(x == aw && y == bw);
                    }
                }
            }
        }
        w = w + 1;
    }
    proof {
        if k == 0 && pts@.len() == 0 {
            assert(w == n);
            assert(forall|t: int|
                0 <= t < w ==> (#[trigger] out_a@[t]).0 == a@[t].0 && out_b@[t].0 == b@[t].0);
            assert forall|t: int| 0 <= t < n implies crate::chunk_words(out_a@)[t]
                == crate::chunk_words(a@)[t] && crate::chunk_words(out_b@)[t] == crate::chunk_words(
                b@,
            )[t] by {
                assert((#[trigger] out_a@[t]).0 == a@[t].0);
                assert((#[trigger] out_b@[t]).0 == b@[t].0);
            }
            assert(crate::chunk_words(out_a@) =~= crate::chunk_words(a@));
            assert(crate::chunk_words(out_b@) =~= crate::chunk_words(b@));
        }
    }
    (out_a, out_b)
}

/// The per-round byte bias that gives a threshold a roughly
/// two-to-the-minus-`k` chance of replacement; strength zero, and any
/// strength past the byte's resolution, disables replacement.
fn act_bias(k: u8) -> (r: u8)
    ensures
        k == 0 ==> r == 0,
{
    match k {
        0 => 0,
        1 => 128,
        2 => 64,
        3 => 32,
        4 => 16,
        5 => 8,
        6 => 4,
        7 => 2,
        8 => 1,
        _ => 0,
    }
}

/// Recombines two parents' thresholds into a complementary pair of
/// children at whole-threshold granularity: the active parent alternates
/// at each crossover index; independently each child threshold is
/// replaced by a fresh uniform byte with a small probability set by the
/// mutation strength. With strength zero every child threshold comes
/// from one of the two parents at its position, and with no indices the
/// children are the parents verbatim.
#[verifier::loop_isolation(false)]
fn crossover_acts(
    a: &[crate::Activation],
    b: &[crate::Activation],
    idxs: &Vec<usize>,
    bulk: &mut Xoshiro128PlusPlusAvx2,
    k: u8,
) -> (r: (Vec<crate::Activation>, Vec<crate::Activation>))
    requires
        a@.len() == b@.len(),
    ensures
        r.0@.len() == a@.len(),
        r.1@.len() == a@.len(),
        k == 0 ==> forall|t: int|
            0 <= t < a@.len() ==> ((#[trigger] r.0@[t]).0 == a@[t].0 && r.1@[t].0 == b@[t].0) || (
            r.0@[t].0 == b@[t].0 && r.1@[t].0 == a@[t].0),
        k == 0 && idxs@.len() == 0 ==> crate::act_values(r.0@) == crate::act_values(a@)
            && crate::act_values(r.1@) == crate::act_values(b@),
{
    proof {
        bits::lemma_bit_zero();
    }
    let n = a.len();
    let bias = act_bias(k);
    let mut out_a: Vec<crate::Activation> = Vec::new();
    let mut out_b: Vec<crate::Activation> = Vec::new();
    let mut trig: [u64; 4] = [0, 0, 0, 0];
    let mut p: usize = 0;
    let mut flip = false;
    let mut i: usize = 0;
    while i < n
        invariant
            n == a@.len(),
            n == b@.len(),
            i <= n,
            out_a@.len() == i,
            out_b@.len() == i,
            p <= idxs@.len(),
            k == 0 ==> trig@[0] == 0u64 && trig@[1] == 0u64,
            k == 0 ==> forall|t: int|
                0 <= t < i ==> ((#[trigger] out_a@[t]).0 == a@[t].0 && out_b@[t].0 == b@[t].0) || (
                out_a@[t].0 == b@[t].0 && out_b@[t].0 == a@[t].0),
            idxs@.len() == 0 ==> !flip && p == 0,
            k == 0 && idxs@.len() == 0 ==> forall|t: int|
                0 <= t < i ==> (#[trigger] out_a@[t]).0 == a@[t].0 && out_b@[t].0 == b@[t].0,
        decreases n - i,
    {
        if i % 64 == 0 {
            let ghost pre0 = bulk.state0();
            let ghost pre1 = bulk.state1();
            trig = bulk.next_with_bias(bias);
            proof {
                if k == 0 {
                    crate::util::lemma_bias_zero(pre0, pre1, 8);
                }
            }
        }
        while p < idxs.len() && idxs[p] == i
            invariant
                p <= idxs@.len(),
                idxs@.len() == 0 ==> !flip && p == 0,
            decreases idxs@.len() - p,
        {
            flip = !flip;
            p = p + 1;
        }
        let va = if flip {
            b[i]
        } else {
            a[i]
        };
        let vb = if flip {
            a[i]
        } else {
            b[i]
        };
        let sh = (i % 64) as u64;
        let ta = (trig[0] >> sh) & 1 == 1;
        let tb = (trig[1] >> sh) & 1 == 1;
        let fa = if k > 0 && ta {
            let vw = bulk.next();
            crate::Activation(#[verifier::truncate] (vw[0] as i8))
        } else {
            va
        };
        let fb = if k > 0 && tb {
            let vw = bulk.next();
            crate::Activation(#[verifier::truncate] (vw[1] as i8))
        } else {
            vb
        };
        out_a.push(fa);
        out_b.push(fb);
        proof {
            if k == 0 {
                assert forall|t: int|
                    0 <= t < i + 1 implies (((#[trigger] out_a@[t]).0 == a@[t].0 && out_b@[t].0
                    == b@[t].0) || (out_a@[t].0 == b@[t].0 && out_b@[t].0 == a@[t].0)) by {
                    if t == i {
                        assert(out_a@[t] == fa && out_b@[t] == fb);
                        assert(fa == va && fb == vb);
                    }
                }
            }
            if k == 0 && idxs@.len() == 0 {
                assert forall|t: int|
                    0 <= t < i + 1 implies (#[trigger] out_a@[t]).0 == a@[t].0 && out_b@[t].0
                    == b@[t].0 by {
                    if t == i {
                        assert(out_a@[t] == fa && out_b@[t] == fb);
                        assert(!flip);
                        assert(fa == va && fb == vb);
                    }
                }
            }
        }
        i = i + 1;
    }
    proof {
        if k == 0 && idxs@.len() == 0 {
            assert(i == n);
            assert(forall|t: int|
                0 <= t < i ==> (#[trigger] out_a@[t]).0 == a@[t].0 && out_b@[t].0 == b@[t].0);
            assert forall|t: int| 0 <= t < n implies crate::act_values(out_a@)[t]
                == crate::act_values(a@)[t] && crate::act_values(out_b@)[t] == crate::act_values(
                b@,
            )[t] by {
                assert((#[trigger] out_a@[t]).0 == a@[t].0);
                assert((#[trigger] out_b@[t]).0 == b@[t].0);
            }
            assert(crate::act_values(out_a@) =~= crate::act_values(a@));
            assert(crate::act_values(out_b@) =~= crate::act_values(b@));
        }
    }
    (out_a, out_b)
}

/// Whether `child` carries exactly the evolved parameters of some member
/// of `pop`.
pub open spec fn copied_from(child: BinaryBrain, pop: Seq<(BinaryBrain, i64)>) -> bool {
    exists|j: int| 0 <= j < pop.len() && same_params(child, (#[trigger] pop[j]).0)
}

/// A fixed-size population of same-shaped engines with their scores, the
/// breeding parameters, and the trainer's own explicitly seeded
/// generators.
pub struct Genetic {
    population: Vec<(BinaryBrain, i64)>,
    mutation: u8,
    weight_points: usize,
    act_points: usize,
    tournament_size: usize,
    rng: rand_xoshiro::Xoshiro256StarStar,
    bulk: Xoshiro128PlusPlusAvx2,
}

impl Genetic {
    /// The population with its fitness scores, in order.
    pub closed spec fn spec_population(self) -> Seq<(BinaryBrain, i64)> {
        self.population@
    }

    /// The mutation strength: each weight bit flips with probability
    /// two to the minus this; zero disables mutation.
    pub closed spec fn spec_mutation(self) -> u8 {
        self.mutation
    }

    /// How many crossover bit offsets each child pair draws over the
    /// flattened weight bit-string.
    pub closed spec fn spec_weight_points(self) -> usize {
        self.weight_points
    }

    /// How many crossover indices each child pair draws over the
    /// thresholds.
    pub closed spec fn spec_act_points(self) -> usize {
        self.act_points
    }

    /// How many individuals each tournament samples.
    pub closed spec fn spec_tournament_size(self) -> usize {
        self.tournament_size
    }

    /// Trainer invariant: at least two individuals, tournaments of at
    /// least one, and every engine well-formed with the shape of the
    /// first.
    pub open spec fn wf(self) -> bool {
        &&& self.spec_population().len() >= 2
        &&& self.spec_tournament_size() >= 1
        &&& forall|i: int|
            0 <= i < self.spec_population().len() ==> (#[trigger] self.spec_population()[i].0).wf()
                && same_shape(self.spec_population()[i].0, self.spec_population()[0].0)
    }

    /// Builds a trainer around one seed engine: the rest of the
    /// population is filled with fresh same-shape engines, every score
    /// starts at the unevaluated sentinel, and both generators are seeded
    /// from `seed` alone, so a run is reproducible. Fails exactly when
    /// the population would be smaller than two or tournaments empty.
    pub fn new(
        initial: BinaryBrain,
        pop_size: usize,
        tournament_size: usize,
        mutation: u8,
        weight_points: usize,
        act_points: usize,
        seed: u64,
    ) -> (r: Result<Genetic>)
        requires
            initial.wf(),
        ensures
            r is Ok <==> pop_size >= 2 && tournament_size >= 1,
            pop_size < 2 ==> (r matches Err(e) && e is InvalidPopSize),
            pop_size >= 2 && tournament_size == 0 ==> (r matches Err(e)
                && e is ZeroTournamentSize),
            r matches Ok(g) ==> {
                &&& g.wf()
                &&& g.spec_population().len() == pop_size
                &&& g.spec_population()[0].0 == initial
                &&& forall|i: int|
                    0 <= i < pop_size ==> (#[trigger] g.spec_population()[i]).1 == UNEVALUATED
                        && same_shape(g.spec_population()[i].0, initial)
                &&& g.spec_mutation() == mutation
                &&& g.spec_weight_points() == weight_points
                &&& g.spec_act_points() == act_points
                &&& g.spec_tournament_size() == tournament_size
            },
    {
        if pop_size < 2 {
            return Err(BinaryBrainError::InvalidPopSize);
        }
        if tournament_size == 0 {
            return Err(BinaryBrainError::ZeroTournamentSize);
        }
        let mut rng = randsrc::rng_from_seed(seed);
        let bulk = Xoshiro128PlusPlusAvx2::from_words(
            [
                randsrc::next_word(&mut rng),
                randsrc::next_word(&mut rng),
                randsrc::next_word(&mut rng),
                randsrc::next_word(&mut rng),
                randsrc::next_word(&mut rng),
                randsrc::next_word(&mut rng),
                randsrc::next_word(&mut rng),
                randsrc::next_word(&mut rng),
            ],
        );
        let mut population: Vec<(BinaryBrain, i64)> = Vec::new();
        population.push((initial, UNEVALUATED));
        while population.len() < pop_size
            invariant
                1 <= population@.len() <= pop_size,
                population@[0].0 == initial,
                initial.wf(),
                forall|i: int|
                    0 <= i < population@.len() ==> (#[trigger] population@[i]).1 == UNEVALUATED
                        && population@[i].0.wf() && same_shape(population@[i].0, initial),
            decreases pop_size - population@.len(),
        {
            let fresh = BinaryBrain::from_template(&population[0].0, &mut rng);
            population.push((fresh, UNEVALUATED));
        }
        Ok(
            Genetic {
                population,
                mutation,
                weight_points,
                act_points,
                tournament_size,
                rng,
                bulk,
            },
        )
    }

    /// One tournament: samples `tournament_size` indices uniformly with
    /// replacement and returns the index of the best-scoring sample seen
    /// first. The winner's fitness is never below the population minimum.
    pub fn tournament_select(&mut self) -> (idx: usize)
        requires
            old(self).wf(),
        ensures
            final(self).wf(),
            final(self).spec_population() == old(self).spec_population(),
            final(self).spec_mutation() == old(self).spec_mutation(),
            final(self).spec_weight_points() == old(self).spec_weight_points(),
            final(self).spec_act_points() == old(self).spec_act_points(),
            final(self).spec_tournament_size() == old(self).spec_tournament_size(),
            (idx as int) < old(self).spec_population().len(),
            old(self).spec_population()[idx as int].1 >= min_fitness(
                old(self).spec_population(),
                old(self).spec_population().len() as int,
            ),
            exists|s: Seq<int>|
                {
                    let pop = old(self).spec_population();
                    &&& #[trigger] s.len() == old(self).spec_tournament_size()
                    &&& (forall|k: int| 0 <= k < s.len() ==> 0 <= #[trigger] s[k] < pop.len())
                    &&& (exists|k: int| 0 <= k < s.len() && #[trigger] s[k] == idx)
                    &&& (forall|k: int| 0 <= k < s.len() ==> pop[#[trigger] s[k]].1 <= pop[
                        idx as int].1)
                },
    {
        let n = self.population.len();
        let mut best = randsrc::sample_index(&mut self.rng, n);
        let ghost mut samples: Seq<int> = seq![best as int];
        proof {
            assert(samples[0] == best as int);
        }
        let mut t: usize = 1;
        while t < self.tournament_size
            invariant
                self.wf(),
                self.spec_population() == old(self).spec_population(),
                self.spec_mutation() == old(self).spec_mutation(),
                self.spec_weight_points() == old(self).spec_weight_points(),
                self.spec_act_points() == old(self).spec_act_points(),
                self.spec_tournament_size() == old(self).spec_tournament_size(),
                n == self.spec_population().len(),
                (best as int) < n as int,
                1 <= t <= self.spec_tournament_size(),
                samples.len() == t,
                forall|k: int| 0 <= k < samples.len() ==> 0 <= #[trigger] samples[k] < n as int,
                exists|k: int| 0 <= k < samples.len() && #[trigger] samples[k] == best as int,
                forall|k: int|
                    0 <= k < samples.len() ==> self.spec_population()[#[trigger] samples[k]].1
                        <= self.spec_population()[best as int].1,
            decreases self.tournament_size - t,
        {
            let cand = randsrc::sample_index(&mut self.rng, n);
            let ghost prev = samples;
            proof {
                samples = samples.push(cand as int);
                assert(samples[samples.len() - 1] == cand as int);
            }
            if self.population[cand].1 > self.population[best].1 {
                best = cand;
            } else {
                proof {
                    let k = choose|k: int| 0 <= k < prev.len() && prev[k] == best as int;
                    assert(samples[k] == best as int);
                }
            }
            t = t + 1;
        }
        proof {
            lemma_min_fitness_le(self.spec_population(), n as int, best as int);
        }
        best
    }

    /// Replaces the whole population with a new generation of equal
    /// size, built in complementary pairs. Each pair's parents are two
    /// independent tournament winners; their weight matrices are
    /// recombined at randomly drawn sub-word bit offsets and mutated per
    /// bit with probability two to the minus the mutation strength;
    /// their thresholds are recombined at whole-threshold granularity
    /// with sparse outright replacement. Every child keeps the parents'
    /// shape and starts unevaluated; with mutation strength zero and no
    /// crossover points every child is a verbatim parameter copy of a
    /// selected parent.
    #[verifier::loop_isolation(false)]
    pub fn breed(&mut self)
        requires
            old(self).wf(),
        ensures
            final(self).wf(),
            final(self).spec_population().len() == old(self).spec_population().len(),
            final(self).spec_mutation() == old(self).spec_mutation(),
            final(self).spec_weight_points() == old(self).spec_weight_points(),
            final(self).spec_act_points() == old(self).spec_act_points(),
            final(self).spec_tournament_size() == old(self).spec_tournament_size(),
            forall|i: int|
                0 <= i < final(self).spec_population().len() ==> (#[trigger] final(self).spec_population()[i]).1 == UNEVALUATED && final(self).spec_population()[i].0.wf()
                    && same_shape(
                    final(self).spec_population()[i].0,
                    old(self).spec_population()[0].0,
                ),
            old(self).spec_mutation() == 0 && old(self).spec_weight_points() == 0 && old(self).spec_act_points() == 0 ==> forall|i: int|
                0 <= i < final(self).spec_population().len() ==> copied_from(
                    (#[trigger] final(self).spec_population()[i]).0,
                    old(self).spec_population(),
                ),
    {
        let len = self.population.len();
        let mut new_pop: Vec<(BinaryBrain, i64)> = Vec::new();
        while new_pop.len() < len
            invariant
                self.wf(),
                self.spec_population() == old(self).spec_population(),
                self.spec_mutation() == old(self).spec_mutation(),
                self.spec_weight_points() == old(self).spec_weight_points(),
                self.spec_act_points() == old(self).spec_act_points(),
                self.spec_tournament_size() == old(self).spec_tournament_size(),
                new_pop@.len() <= len,
                forall|t: int|
                    0 <= t < new_pop@.len() ==> (#[trigger] new_pop@[t]).1 == UNEVALUATED
                        && new_pop@[t].0.wf() && same_shape(
                        new_pop@[t].0,
                        old(self).spec_population()[0].0,
                    ),
                old(self).spec_mutation() == 0 && old(self).spec_weight_points() == 0 && old(self).spec_act_points() == 0 ==> forall|t: int|
                    0 <= t < new_pop@.len() ==> copied_from(
                        (#[trigger] new_pop@[t]).0,
                        old(self).spec_population(),
                    ),
            decreases len - new_pop@.len(),
        {
            let ia = self.tournament_select();
            let ib = self.tournament_select();
            let pa = self.population[ia].0.duplicate();
            let pb = self.population[ib].0.duplicate();
            proof {
                pa.lemma_wf_sizes();
                pb.lemma_wf_sizes();
            }
            let wcount = pa.weights().len();
            let total = pa.activations().len();
            let wpts_raw: Vec<(usize, usize)> = if self.weight_points > 0 && wcount > 0 {
                sample_points(&mut self.rng, self.weight_points, wcount)
            } else {
                Vec::new()
            };
            let wpts = sort_points(wpts_raw);
            let apts_raw: Vec<usize> = if self.act_points > 0 && total > 0 {
                sample_indices(&mut self.rng, self.act_points, total)
            } else {
                Vec::new()
            };
            let apts = sort_indices(apts_raw);
            let k = self.mutation;
            let (wa, wb) = crossover_weights(
                pa.weights(),
                pb.weights(),
                &wpts,
                &mut self.bulk,
                k,
            );
            let (aa, ab) = crossover_acts(
                pa.activations(),
                pb.activations(),
                &apts,
                &mut self.bulk,
                k,
            );
            let ca = match BinaryBrain::with_parameters(
                wa,
                aa,
                pa.input_count(),
                pa.output_count(),
            ) {
                Ok(c) => c,
                Err(_) => vstd::pervasive::unreached(),
            };
            let cb = match BinaryBrain::with_parameters(
                wb,
                ab,
                pb.input_count(),
                pb.output_count(),
            ) {
                Ok(c) => c,
                Err(_) => vstd::pervasive::unreached(),
            };
            let ghost zero_cfg = old(self).spec_mutation() == 0 && old(self).spec_weight_points() == 0 && old(self).spec_act_points() == 0;
            proof {
                if zero_cfg {
                    assert(same_params(ca, (old(self).spec_population()[ia as int]).0));
                    assert(copied_from(ca, old(self).spec_population()));
                    assert(same_params(cb, (old(self).spec_population()[ib as int]).0));
                    assert(copied_from(cb, old(self).spec_population()));
                }
            }
            new_pop.push((ca, UNEVALUATED));
            if new_pop.len() < len {
                new_pop.push((cb, UNEVALUATED));
            }
        }
        self.population = new_pop;
        proof {
            assert forall|i: int|
                0 <= i < self.spec_population().len() implies (#[trigger] self.spec_population()[i]).0.wf()
                && same_shape(
                self.spec_population()[i].0,
                self.spec_population()[0].0,
            ) by {
                assert(same_shape(self.spec_population()[i].0, old(self).spec_population()[0].0));
                assert(same_shape(self.spec_population()[0].0, old(self).spec_population()[0].0));
            }
        }
    }

    /// A copy of the highest-fitness individual with its score, ties
    /// broken by the earliest position in the population.
    pub fn clone_fittest(&self) -> (r: (BinaryBrain, i64))
        requires
            self.wf(),
        ensures
            r.0.wf(),
            exists|i: int|
                {
                    &&& 0 <= i < self.spec_population().len()
                    &&& same_params(r.0, #[trigger] self.spec_population()[i].0)
                    &&& r.0.state_view() == self.spec_population()[i].0.state_view()
                    &&& r.1 == self.spec_population()[i].1
                    &&& forall|j: int|
                        0 <= j < self.spec_population().len()
                            ==> (#[trigger] self.spec_population()[j]).1 <= r.1
                    &&& forall|j: int| 0 <= j < i ==> (#[trigger] self.spec_population()[j]).1 < r.1
                },
    {
        let n = self.population.len();
        let mut best: usize = 0;
        let mut t: usize = 1;
        while t < n
            invariant
                self.wf(),
                n == self.spec_population().len(),
                1 <= t <= n,
                (best as int) < t as int,
                forall|j: int|
                    0 <= j < t ==> (#[trigger] self.spec_population()[j]).1
                        <= self.spec_population()[best as int].1,
                forall|j: int|
                    0 <= j < best ==> (#[trigger] self.spec_population()[j]).1
                        < self.spec_population()[best as int].1,
            decreases n - t,
        {
            if self.population[t].1 > self.population[best].1 {
                best = t;
            }
            t = t + 1;
        }
        let winner = self.population[best].0.duplicate();
        let score = self.population[best].1;
        proof {
            assert((best as int) < self.spec_population().len() && same_params(
                winner,
                self.spec_population()[best as int].0,
            ) && winner.state_view() == self.spec_population()[best as int].0.state_view() && score
                == self.spec_population()[best as int].1);
        }
        (winner, score)
    }

    /// Scores every individual in order: each engine is handed to the
    /// fitness function, which may run it for any number of cycles and
    /// returns it with its score; the highest score observed is returned.
    pub fn evaluate<F: Fn(BinaryBrain) -> (BinaryBrain, i64)>(&mut self, fitness: F) -> (best: i64)
        requires
            old(self).wf(),
            forall|e: BinaryBrain|
                e.wf() && same_shape(e, old(self).spec_population()[0].0) ==> #[trigger] call_requires(
                    fitness,
                    (e,),
                ),
            forall|e: BinaryBrain, res: (BinaryBrain, i64)|
                #[trigger] call_ensures(fitness, (e,), res) ==> res.0.wf() && same_shape(res.0, e),
        ensures
            final(self).wf(),
            final(self).spec_population().len() == old(self).spec_population().len(),
            final(self).spec_mutation() == old(self).spec_mutation(),
            final(self).spec_weight_points() == old(self).spec_weight_points(),
            final(self).spec_act_points() == old(self).spec_act_points(),
            final(self).spec_tournament_size() == old(self).spec_tournament_size(),
            forall|i: int|
                0 <= i < old(self).spec_population().len() ==> call_ensures(
                    fitness,
                    (old(self).spec_population()[i].0,),
                    #[trigger] final(self).spec_population()[i],
                ),
            exists|i: int|
                0 <= i < final(self).spec_population().len()
                    && (#[trigger] final(self).spec_population()[i]).1 == best,
            forall|i: int|
                0 <= i < final(self).spec_population().len()
                    ==> (#[trigger] final(self).spec_population()[i]).1 <= best,
    {
        let n = self.population.len();
        let mut i: usize = 0;
        while i < n
            invariant
                i <= n,
                n == self.spec_population().len(),
                self.spec_mutation() == old(self).spec_mutation(),
                self.spec_weight_points() == old(self).spec_weight_points(),
                self.spec_act_points() == old(self).spec_act_points(),
                self.spec_tournament_size() == old(self).spec_tournament_size(),
                old(self).wf(),
                forall|e: BinaryBrain|
                    e.wf() && same_shape(e, old(self).spec_population()[0].0) ==> #[trigger] call_requires(
                        fitness,
                        (e,),
                    ),
                forall|e: BinaryBrain, res: (BinaryBrain, i64)|
                    #[trigger] call_ensures(fitness, (e,), res) ==> res.0.wf() && same_shape(res.0, e),
                forall|j: int|
                    i <= j < n ==> #[trigger] self.spec_population()[j] == old(self).spec_population()[j],
                forall|j: int|
                    0 <= j < i ==> call_ensures(
                        fitness,
                        (old(self).spec_population()[j].0,),
                        #[trigger] self.spec_population()[j],
                    ),
                forall|j: int|
                    0 <= j < n ==> (#[trigger] self.spec_population()[j].0).wf() && same_shape(
                        self.spec_population()[j].0,
                        old(self).spec_population()[0].0,
                    ),
            decreases n - i,
        {
            let ghost prev = self.population@;
            let pair = self.population.remove(i);
            let ghost e0 = pair.0;
            let (engine, score) = fitness(pair.0);
            let ghost res = (engine, score);
            self.population.insert(i, (engine, score));
            proof {
                assert(self.population@ =~= prev.update(i as int, res));
                assert(call_ensures(fitness, (e0,), res));
                assert(e0 == old(self).spec_population()[i as int].0);
                assert forall|j: int|
                    0 <= j < n implies (#[trigger] self.spec_population()[j].0).wf() && same_shape(
                    self.spec_population()[j].0,
                    old(self).spec_population()[0].0,
                ) by {
                    if j == i {
                        assert(res.0.wf() && same_shape(res.0, e0));
                    } else {
                        assert(self.spec_population()[j] == prev[j]);
                    }
                }
            }
            i = i + 1;
        }
        let mut best = self.population[0].1;
        let mut t: usize = 1;
        while t < n
            invariant
                1 <= t <= n,
                n == self.spec_population().len(),
                exists|j: int|
                    0 <= j < t && (#[trigger] self.spec_population()[j]).1 == best,
                forall|j: int| 0 <= j < t ==> (#[trigger] self.spec_population()[j]).1 <= best,
            decreases n - t,
        {
            if self.population[t].1 > best {
                best = self.population[t].1;
            }
            t = t + 1;
        }
        best
    }
}

} // verus!
