//! Bit-level model of the packed words: single bits, population count,
//! the agreement score of a weight word against a state word, and
//! little-endian byte packing for persistence.

use vstd::prelude::*;

verus! {

/// Whether bit `i` of `w` is set, for `i < 64`.
pub open spec fn bit64(w: u64, i: u64) -> bool {
    (w >> i) & 1 == 1
}

/// Number of set bits among the low `n` bits of `w`.
pub open spec fn popcount_to(w: u64, n: int) -> int
    decreases n,
{
    if n <= 0 {
        0
    } else {
        popcount_to(w, n - 1) + if bit64(w, (n - 1) as u64) {
            1int
        } else {
            0int
        }
    }
}

/// Number of set bits of `w`.
pub open spec fn popcount64(w: u64) -> int {
    popcount_to(w, 64)
}

pub proof fn lemma_popcount_to_bounds(w: u64, n: int)
    requires
        0 <= n,
    ensures
        0 <= popcount_to(w, n) <= n,
    decreases n,
{
    if n > 0 {
        lemma_popcount_to_bounds(w, n - 1);
    }
}

/// Counts the set bits of `w` one position at a time.
pub fn popcount(w: u64) -> (r: u32)
    ensures
        r == popcount64(w),
        r <= 64,
{
    let mut count: u32 = 0;
    let mut i: u64 = 0;
    while i < 64
        invariant
            i <= 64,
            count == popcount_to(w, i as int),
            count <= i,
        decreases 64 - i,
    {
        if (w >> i) & 1 == 1 {
            count = count + 1;
        }
        i = i + 1;
    }
    count
}

/// Agreement score of the low `n` bit positions of a weight word `w`
/// against a state word `v`: +1 where the bits agree, -1 where they differ.
pub open spec fn contrib_to(w: u64, v: u64, n: int) -> int
    decreases n,
{
    if n <= 0 {
        0
    } else {
        contrib_to(w, v, n - 1) + if bit64(w, (n - 1) as u64) == bit64(v, (n - 1) as u64) {
            1int
        } else {
            -1int
        }
    }
}

/// Agreement score of a full weight word against a state word.
pub open spec fn word_contrib(w: u64, v: u64) -> int {
    contrib_to(w, v, 64)
}

proof fn lemma_contrib_to_popcount(w: u64, v: u64, n: int)
    requires
        0 <= n <= 64,
    ensures
        contrib_to(w, v, n) == 2 * popcount_to(!(w ^ v), n) - n,
    decreases n,
{
    if n > 0 {
        lemma_contrib_to_popcount(w, v, n - 1);
        let i = (n - 1) as u64;
        assert(((!(w ^ v) >> i) & 1 == 1) == (((w >> i) & 1 == 1) == ((v >> i) & 1
            == 1))) by (bit_vector)
            requires
                i < 64,
        ;
    }
}

/// The sum a weight/state word pair contributes to a neuron equals
/// `2 * popcount(!(w ^ v)) - 64`: counting agreeing bit positions once with
/// XNOR and population count matches the per-bit +1/-1 reference.
pub proof fn lemma_word_contrib_popcount(w: u64, v: u64)
    ensures
        word_contrib(w, v) == 2 * popcount64(!(w ^ v)) - 64,
{
    lemma_contrib_to_popcount(w, v, 64);
}

pub proof fn lemma_contrib_to_bounds(w: u64, v: u64, n: int)
    requires
        0 <= n,
    ensures
        -n <= contrib_to(w, v, n) <= n,
    decreases n,
{
    if n > 0 {
        lemma_contrib_to_bounds(w, v, n - 1);
    }
}

/// Computes the agreement score of one weight word against one state word.
pub fn word_contrib_exec(w: u64, v: u64) -> (r: i32)
    ensures
        r == word_contrib(w, v),
        -64 <= r <= 64,
{
    let p = popcount(!(w ^ v));
    proof {
        lemma_word_contrib_popcount(w, v);
        lemma_popcount_to_bounds(!(w ^ v), 64);
        lemma_contrib_to_bounds(w, v, 64);
    }
    2 * (p as i32) - 64
}

/// Setting bit `b` of a word leaves every other bit as it was.
pub proof fn lemma_bit_set(w: u64, b: u64)
    requires
        b < 64,
    ensures
        forall|j: u64| j < 64 && j != b ==> #[trigger] bit64(w | (1u64 << b), j) == bit64(w, j),
        bit64(w | (1u64 << b), b),
{
    assert(forall|j: u64|
        j < 64 && j != b ==> ((w | (1u64 << b)) >> j) & 1 == (w >> j) & 1) by (bit_vector)
        requires
            b < 64,
    ;
    assert(((w | (1u64 << b)) >> b) & 1 == 1) by (bit_vector)
        requires
            b < 64,
    ;
}

/// XOR with the zero word changes nothing.
pub proof fn lemma_xor_zero()
    ensures
        forall|x: u64| #[trigger] (x ^ 0u64) == x,
{
    assert(forall|x: u64| x ^ 0u64 == x) by (bit_vector);
}

/// The all-zero word has no set bit.
pub proof fn lemma_bit_zero()
    ensures
        forall|j: u64| !(#[trigger] bit64(0u64, j)),
{
    assert(forall|j: u64| (0u64 >> j) & 1 == 0) by (bit_vector);
}

/// Byte `k` of `x` in little-endian order, for `k < 8`.
pub open spec fn le_byte(x: u64, k: int) -> u8 {
    (x >> ((8 * k) as u64)) as u8
}

/// The eight bytes of `x` in little-endian order.
pub open spec fn u64_le_bytes(x: u64) -> Seq<u8> {
    Seq::new(8, |k: int| le_byte(x, k))
}

/// The word stored at `s[off .. off + 8]` in little-endian order.
pub open spec fn u64_from_le(s: Seq<u8>, off: int) -> u64 {
    (s[off] as u64) | (s[off + 1] as u64) << 8u64 | (s[off + 2] as u64) << 16u64 | (s[off + 3]
        as u64) << 24u64 | (s[off + 4] as u64) << 32u64 | (s[off + 5] as u64) << 40u64 | (s[off + 6]
        as u64) << 48u64 | (s[off + 7] as u64) << 56u64
}

/// Reassembling the little-endian bytes of a word gives the word back.
pub proof fn lemma_u64_le_round_trip(x: u64)
    ensures
        u64_from_le(u64_le_bytes(x), 0) == x,
{
    let b0 = le_byte(x, 0);
    let b1 = le_byte(x, 1);
    let b2 = le_byte(x, 2);
    let b3 = le_byte(x, 3);
    let b4 = le_byte(x, 4);
    let b5 = le_byte(x, 5);
    let b6 = le_byte(x, 6);
    let b7 = le_byte(x, 7);
    assert((((x >> 0u64) as u8) as u64) | (((x >> 8u64) as u8) as u64) << 8u64 | (((x >> 16u64)
        as u8) as u64) << 16u64 | (((x >> 24u64) as u8) as u64) << 24u64 | (((x >> 32u64)
        as u8) as u64) << 32u64 | (((x >> 40u64) as u8) as u64) << 40u64 | (((x >> 48u64)
        as u8) as u64) << 48u64 | (((x >> 56u64) as u8) as u64) << 56u64 == x) by (bit_vector);
}

/// Appends the little-endian bytes of `x`.
pub fn push_u64_le(out: &mut Vec<u8>, x: u64)
    ensures
        final(out)@ == old(out)@ + u64_le_bytes(x),
{
    out.push(x as u8);
    out.push((x >> 8u64) as u8);
    out.push((x >> 16u64) as u8);
    out.push((x >> 24u64) as u8);
    out.push((x >> 32u64) as u8);
    out.push((x >> 40u64) as u8);
    out.push((x >> 48u64) as u8);
    out.push((x >> 56u64) as u8);
    proof {
        assert(x as u8 == (x >> 0u64) as u8) by (bit_vector);
        assert(out@ =~= old(out)@ + u64_le_bytes(x));
    }
}

/// Reads the word stored at `bytes[off .. off + 8]` in little-endian order.
pub fn read_u64_le(bytes: &[u8], off: usize) -> (r: u64)
    requires
        off + 8 <= bytes@.len(),
    ensures
        r == u64_from_le(bytes@, off as int),
{
    (bytes[off] as u64) | (bytes[off + 1] as u64) << 8u64 | (bytes[off + 2] as u64) << 16u64 | (
    bytes[off + 3] as u64) << 24u64 | (bytes[off + 4] as u64) << 32u64 | (bytes[off + 5]
        as u64) << 40u64 | (bytes[off + 6] as u64) << 48u64 | (bytes[off + 7] as u64) << 56u64
}

} // verus!
