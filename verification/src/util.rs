//! The biased random word source: four independent xoshiro128++ lanes
//! stepped together, producing four 64-bit words per call, plain-uniform
//! or with each bit biased toward zero for sparse mutation masks.

use vstd::prelude::*;

use crate::bits::{bit64, le_byte, read_u64_le, u64_from_le};

verus! {

/// First fixed jump polynomial word of the lane generator.
pub const JUMP_LO: u64 = 0x2bd7a6a6e99c2ddc;

/// Second fixed jump polynomial word of the lane generator.
pub const JUMP_HI: u64 = 0x0992ccaf6a6fca05;

/// One lane's 128-bit state.
#[derive(Debug, Clone, Copy)]
struct Lane {
    s0: u64,
    s1: u64,
}

/// `x` rotated left by `n` bits, for `1 <= n < 64`.
pub open spec fn rotl64(x: u64, n: u64) -> u64 {
    ((x << n) | (x >> ((64 - n) as u64))) as u64
}

/// The word one lane outputs before stepping: rotate the lane sum, then
/// scramble additively.
pub open spec fn lane_output(s0: u64, s1: u64) -> u64 {
    rotl64(s0.wrapping_add(s1), 17).wrapping_add(s0)
}

/// The first state word after one lane step.
pub open spec fn lane_next_s0(s0: u64, s1: u64) -> u64 {
    (rotl64(s0, 49) ^ (s0 ^ s1) ^ (((s0 ^ s1) << 21u64) as u64)) as u64
}

/// The second state word after one lane step.
pub open spec fn lane_next_s1(s0: u64, s1: u64) -> u64 {
    rotl64(s0 ^ s1, 28)
}

/// One lane step on a state pair.
pub open spec fn lane_step_pair(l: (u64, u64)) -> (u64, u64) {
    (lane_next_s0(l.0, l.1), lane_next_s1(l.0, l.1))
}

/// `n` lane steps on a state pair.
pub open spec fn lane_step_n(l: (u64, u64), n: nat) -> (u64, u64)
    decreases n,
{
    if n == 0 {
        l
    } else {
        lane_step_pair(lane_step_n(l, (n - 1) as nat))
    }
}

/// XOR of the lane states reached after each set bit among the low `n`
/// bits of the jump word `jw`, starting from lane state `l`.
pub open spec fn jump_accum(l: (u64, u64), jw: u64, n: nat) -> (u64, u64)
    decreases n,
{
    if n == 0 {
        (0u64, 0u64)
    } else {
        let prev = jump_accum(l, jw, (n - 1) as nat);
        if bit64(jw, (n - 1) as u64) {
            let at = lane_step_n(l, (n - 1) as nat);
            ((prev.0 ^ at.0) as u64, (prev.1 ^ at.1) as u64)
        } else {
            prev
        }
    }
}

/// Where one lane lands after a jump: the XOR-accumulation over both
/// fixed jump words, the second applied after 64 further steps, so the
/// lane advances as if stepped an astronomically large fixed number of
/// times and yields a statistically independent stream.
pub open spec fn spec_lane_jump(l: (u64, u64)) -> (u64, u64) {
    let a = jump_accum(l, JUMP_LO, 64);
    let b = jump_accum(lane_step_n(l, 64), JUMP_HI, 64);
    ((a.0 ^ b.0) as u64, (a.1 ^ b.1) as u64)
}

/// All four lanes' first state words after one step.
pub open spec fn step0(s0: Seq<u64>, s1: Seq<u64>) -> Seq<u64> {
    Seq::new(s0.len(), |i: int| lane_next_s0(s0[i], s1[i]))
}

/// All four lanes' second state words after one step.
pub open spec fn step1(s0: Seq<u64>, s1: Seq<u64>) -> Seq<u64> {
    Seq::new(s0.len(), |i: int| lane_next_s1(s0[i], s1[i]))
}

/// All lanes' state words after `n` steps.
pub open spec fn step_n(s0: Seq<u64>, s1: Seq<u64>, n: nat) -> (Seq<u64>, Seq<u64>)
    decreases n,
{
    if n == 0 {
        (s0, s1)
    } else {
        let p = step_n(s0, s1, (n - 1) as nat);
        (step0(p.0, p.1), step1(p.0, p.1))
    }
}

/// The words all lanes output from the given state words.
pub open spec fn outputs_of(s0: Seq<u64>, s1: Seq<u64>) -> Seq<u64> {
    Seq::new(s0.len(), |i: int| lane_output(s0[i], s1[i]))
}

/// The mask bit a random byte yields under bias `p`: set exactly when the
/// byte exceeds `255 - p`, which a uniform byte does with probability
/// `p / 256`.
pub open spec fn bias_bit(b: u8, p: u8) -> u64 {
    if b > (255 - p) as u8 {
        1u64
    } else {
        0u64
    }
}

/// The eight mask bits one random word contributes in one round, one per
/// byte, each at its byte's lowest position.
pub open spec fn bias_bits(w: u64, p: u8) -> u64 {
    (bias_bit(le_byte(w, 0), p) | bias_bit(le_byte(w, 1), p) << 8u64 | bias_bit(le_byte(w, 2), p)
        << 16u64 | bias_bit(le_byte(w, 3), p) << 24u64 | bias_bit(le_byte(w, 4), p) << 32u64
        | bias_bit(le_byte(w, 5), p) << 40u64 | bias_bit(le_byte(w, 6), p) << 48u64 | bias_bit(
        le_byte(w, 7),
        p,
    ) << 56u64) as u64
}

/// One accumulation round: every byte of the accumulator shifts left one
/// bit and takes a fresh biased bit at the bottom.
pub open spec fn bias_round_word(acc: u64, w: u64, p: u8) -> u64 {
    ((((acc << 1u64) as u64) & 0xfefe_fefe_fefe_fefeu64) | bias_bits(w, p)) as u64
}

/// The four biased words after `rounds` accumulation rounds from the
/// generator state `(s0, s1)`: round `k` consumes the words the generator
/// outputs at step `k`.
pub open spec fn bias_accum(s0: Seq<u64>, s1: Seq<u64>, p: u8, rounds: nat) -> Seq<u64>
    decreases rounds,
{
    if rounds == 0 {
        Seq::new(4, |i: int| 0u64)
    } else {
        let prev = bias_accum(s0, s1, p, (rounds - 1) as nat);
        let st = step_n(s0, s1, (rounds - 1) as nat);
        let outs = outputs_of(st.0, st.1);
        Seq::new(4, |i: int| bias_round_word(prev[i], outs[i], p))
    }
}

/// Under bias zero no byte ever exceeds the threshold, so the
/// accumulated mask words stay all-zero however many rounds run.
pub proof fn lemma_bias_zero(s0: Seq<u64>, s1: Seq<u64>, rounds: nat)
    ensures
        forall|i: int| 0 <= i < 4 ==> #[trigger] bias_accum(s0, s1, 0u8, rounds)[i] == 0u64,
    decreases rounds,
{
    if rounds > 0 {
        lemma_bias_zero(s0, s1, (rounds - 1) as nat);
        assert forall|i: int| 0 <= i < 4 implies #[trigger] bias_accum(s0, s1, 0u8, rounds)[i]
            == 0u64 by {
            let prev = bias_accum(s0, s1, 0u8, (rounds - 1) as nat);
            assert(prev[i] == 0u64);
            let st = step_n(s0, s1, (rounds - 1) as nat);
            let outs = outputs_of(st.0, st.1);
            assert(bias_accum(s0, s1, 0u8, rounds)[i] == bias_round_word(prev[i], outs[i], 0u8));
            let w = outs[i];
            assert(bias_round_word(0u64, w, 0u8) == 0u64) by (bit_vector);
        }
    }
}

/// XOR facts the jump accumulation leans on.
proof fn lemma_xor_basics()
    ensures
        forall|x: u64| #[trigger] (x ^ 0u64) == x,
        forall|a: u64, b: u64, c: u64| #[trigger] ((a ^ b) ^ c) == a ^ (b ^ c),
{
    assert(forall|x: u64| x ^ 0u64 == x) by (bit_vector);
    assert(forall|a: u64, b: u64, c: u64| (a ^ b) ^ c == a ^ (b ^ c)) by (bit_vector);
}

/// Four independent xoshiro128++ lanes: a vectorizable source of 64-bit
/// words, plain-uniform from `next`, or with every bit independently set
/// with probability `p / 256` from `next_with_bias`.
pub struct Xoshiro128PlusPlusAvx2 {
    lanes: [Lane; 4],
}

impl Xoshiro128PlusPlusAvx2 {
    /// The four lanes' first state words.
    pub closed spec fn state0(self) -> Seq<u64> {
        Seq::new(4, |i: int| self.lanes@[i].s0)
    }

    /// The four lanes' second state words.
    pub closed spec fn state1(self) -> Seq<u64> {
        Seq::new(4, |i: int| self.lanes@[i].s1)
    }

    /// Seeds the four lanes from 64 bytes: the first 32 hold the lanes'
    /// first state words little-endian, the last 32 the second.
    pub fn new(state: [u8; 64]) -> (r: Xoshiro128PlusPlusAvx2)
        ensures
            r.state0() == Seq::new(4, |i: int| u64_from_le(state@, 8 * i)),
            r.state1() == Seq::new(4, |i: int| u64_from_le(state@, 32 + 8 * i)),
    {
        let s = state.as_slice();
        let lanes = [
            Lane { s0: read_u64_le(s, 0), s1: read_u64_le(s, 32) },
            Lane { s0: read_u64_le(s, 8), s1: read_u64_le(s, 40) },
            Lane { s0: read_u64_le(s, 16), s1: read_u64_le(s, 48) },
            Lane { s0: read_u64_le(s, 24), s1: read_u64_le(s, 56) },
        ];
        let r = Xoshiro128PlusPlusAvx2 { lanes };
        proof {
            assert(r.state0() =~= Seq::new(4, |i: int| u64_from_le(state@, 8 * i)));
            assert(r.state1() =~= Seq::new(4, |i: int| u64_from_le(state@, 32 + 8 * i)));
        }
        r
    }

    /// Seeds the four lanes from eight words: the first four are the
    /// lanes' first state words, the last four the second.
    pub fn from_words(ws: [u64; 8]) -> (r: Xoshiro128PlusPlusAvx2)
        ensures
            r.state0() == Seq::new(4, |i: int| ws@[i]),
            r.state1() == Seq::new(4, |i: int| ws@[4 + i]),
    {
        let lanes = [
            Lane { s0: ws[0], s1: ws[4] },
            Lane { s0: ws[1], s1: ws[5] },
            Lane { s0: ws[2], s1: ws[6] },
            Lane { s0: ws[3], s1: ws[7] },
        ];
        let r = Xoshiro128PlusPlusAvx2 { lanes };
        proof {
            assert(r.state0() =~= Seq::new(4, |i: int| ws@[i]));
            assert(r.state1() =~= Seq::new(4, |i: int| ws@[4 + i]));
        }
        r
    }

    /// `x` rotated left by `n` bits.
    fn rotl(x: u64, n: u64) -> (r: u64)
        requires
            1 <= n < 64,
        ensures
            r == rotl64(x, n),
    {
        (x << n) | (x >> (64 - n))
    }

    /// One lane's output word.
    fn lane_out(l: Lane) -> (r: u64)
        ensures
            r == lane_output(l.s0, l.s1),
    {
        Self::rotl(l.s0.wrapping_add(l.s1), 17).wrapping_add(l.s0)
    }

    /// One lane stepped once.
    fn lane_step(l: Lane) -> (r: Lane)
        ensures
            r.s0 == lane_next_s0(l.s0, l.s1),
            r.s1 == lane_next_s1(l.s0, l.s1),
    {
        let t = l.s0 ^ l.s1;
        Lane { s0: Self::rotl(l.s0, 49) ^ t ^ (t << 21u64), s1: Self::rotl(t, 28) }
    }

    /// Steps all four lanes once and returns their four output words.
    pub fn next(&mut self) -> (r: [u64; 4])
        ensures
            r@ == outputs_of(old(self).state0(), old(self).state1()),
            final(self).state0() == step0(old(self).state0(), old(self).state1()),
            final(self).state1() == step1(old(self).state0(), old(self).state1()),
    {
        let l0 = self.lanes[0];
        let l1 = self.lanes[1];
        let l2 = self.lanes[2];
        let l3 = self.lanes[3];
        let r = [Self::lane_out(l0), Self::lane_out(l1), Self::lane_out(l2), Self::lane_out(l3)];
        self.lanes = [
            Self::lane_step(l0),
            Self::lane_step(l1),
            Self::lane_step(l2),
            Self::lane_step(l3),
        ];
        proof {
            assert(r@ =~= outputs_of(old(self).state0(), old(self).state1()));
            assert(self.state0() =~= step0(old(self).state0(), old(self).state1()));
            assert(self.state1() =~= step1(old(self).state0(), old(self).state1()));
        }
        r
    }

    /// One round of the bias accumulation on one word.
    fn bias_word(acc: u64, w: u64, p: u8) -> (r: u64)
        ensures
            r == bias_round_word(acc, w, p),
    {
        let th = 255 - p;
        let b0: u64 = if (#[verifier::truncate] (w as u8)) > th {
            1
        } else {
            0
        };
        let b1: u64 = if (#[verifier::truncate] ((w >> 8u64) as u8)) > th {
            1
        } else {
            0
        };
        let b2: u64 = if (#[verifier::truncate] ((w >> 16u64) as u8)) > th {
            1
        } else {
            0
        };
        let b3: u64 = if (#[verifier::truncate] ((w >> 24u64) as u8)) > th {
            1
        } else {
            0
        };
        let b4: u64 = if (#[verifier::truncate] ((w >> 32u64) as u8)) > th {
            1
        } else {
            0
        };
        let b5: u64 = if (#[verifier::truncate] ((w >> 40u64) as u8)) > th {
            1
        } else {
            0
        };
        let b6: u64 = if (#[verifier::truncate] ((w >> 48u64) as u8)) > th {
            1
        } else {
            0
        };
        let b7: u64 = if (#[verifier::truncate] ((w >> 56u64) as u8)) > th {
            1
        } else {
            0
        };
        proof {
            assert(w as u8 == (w >> 0u64) as u8) by (bit_vector);
        }
        ((acc << 1u64) & 0xfefe_fefe_fefe_fefe) | (b0 | (b1 << 8u64) | (b2 << 16u64) | (b3
            << 24u64) | (b4 << 32u64) | (b5 << 40u64) | (b6 << 48u64) | (b7 << 56u64))
    }

    /// Eight accumulation rounds over fresh uniform words: returns four
    /// words in which every bit was set, independently, exactly when its
    /// round byte exceeded `255 - p`, so with probability `p / 256`.
    pub fn next_with_bias(&mut self, p: u8) -> (r: [u64; 4])
        ensures
            final(self).state0() == step_n(old(self).state0(), old(self).state1(), 8).0,
            final(self).state1() == step_n(old(self).state0(), old(self).state1(), 8).1,
            r@ == bias_accum(old(self).state0(), old(self).state1(), p, 8),
    {
        let mut acc: [u64; 4] = [0, 0, 0, 0];
        proof {
            assert(acc@ =~= bias_accum(old(self).state0(), old(self).state1(), p, 0));
        }
        let mut round: usize = 0;
        while round < 8
            invariant
                round <= 8,
                self.state0() == step_n(old(self).state0(), old(self).state1(), round as nat).0,
                self.state1() == step_n(old(self).state0(), old(self).state1(), round as nat).1,
                acc@ == bias_accum(old(self).state0(), old(self).state1(), p, round as nat),
            decreases 8 - round,
        {
            let words = self.next();
            acc = [
                Self::bias_word(acc[0], words[0], p),
                Self::bias_word(acc[1], words[1], p),
                Self::bias_word(acc[2], words[2], p),
                Self::bias_word(acc[3], words[3], p),
            ];
            proof {
                assert(acc@ =~= bias_accum(
                    old(self).state0(),
                    old(self).state1(),
                    p,
                    (round + 1) as nat,
                ));
            }
            round = round + 1;
        }
        acc
    }

    /// One lane advanced by the full jump accumulation.
    fn jump_lane(l: Lane) -> (r: Lane)
        ensures
            (r.s0, r.s1) == spec_lane_jump((l.s0, l.s1)),
    {
        proof {
            lemma_xor_basics();
        }
        let ghost start = (l.s0, l.s1);
        let mut cur = l;
        let mut acc0: u64 = 0;
        let mut acc1: u64 = 0;
        let mut b: usize = 0;
        while b < 64
            invariant
                b <= 64,
                (cur.s0, cur.s1) == lane_step_n(start, b as nat),
                (acc0, acc1) == jump_accum(start, JUMP_LO, b as nat),
            decreases 64 - b,
        {
            if (JUMP_LO >> (b as u64)) & 1 == 1 {
                acc0 = acc0 ^ cur.s0;
                acc1 = acc1 ^ cur.s1;
            }
            cur = Self::lane_step(cur);
            b = b + 1;
        }
        let ghost acc_lo = jump_accum(start, JUMP_LO, 64);
        let ghost mid = lane_step_n(start, 64);
        proof {
            lemma_xor_basics();
        }
        b = 0;
        while b < 64
            invariant
                b <= 64,
                acc_lo == jump_accum(start, JUMP_LO, 64),
                mid == lane_step_n(start, 64),
                (cur.s0, cur.s1) == lane_step_n(mid, b as nat),
                acc0 == acc_lo.0 ^ jump_accum(mid, JUMP_HI, b as nat).0,
                acc1 == acc_lo.1 ^ jump_accum(mid, JUMP_HI, b as nat).1,
            decreases 64 - b,
        {
            proof {
                lemma_xor_basics();
            }
            if (JUMP_HI >> (b as u64)) & 1 == 1 {
                acc0 = acc0 ^ cur.s0;
                acc1 = acc1 ^ cur.s1;
            }
            cur = Self::lane_step(cur);
            b = b + 1;
        }
        Lane { s0: acc0, s1: acc1 }
    }

    /// Advances every lane as if `next` had been called an astronomically
    /// large, fixed number of times, each lane independently, yielding a
    /// statistically independent stream for a concurrent consumer.
    pub fn jump(&mut self)
        ensures
            final(self).state0() == Seq::new(
                4,
                |i: int| spec_lane_jump((old(self).state0()[i], old(self).state1()[i])).0,
            ),
            final(self).state1() == Seq::new(
                4,
                |i: int| spec_lane_jump((old(self).state0()[i], old(self).state1()[i])).1,
            ),
    {
        let j0 = Self::jump_lane(self.lanes[0]);
        let j1 = Self::jump_lane(self.lanes[1]);
        let j2 = Self::jump_lane(self.lanes[2]);
        let j3 = Self::jump_lane(self.lanes[3]);
        self.lanes = [j0, j1, j2, j3];
        proof {
            assert(self.state0() =~= Seq::new(
                4,
                |i: int| spec_lane_jump((old(self).state0()[i], old(self).state1()[i])).0,
            ));
            assert(self.state1() =~= Seq::new(
                4,
                |i: int| spec_lane_jump((old(self).state0()[i], old(self).state1()[i])).1,
            ));
        }
    }
}

} // verus!
