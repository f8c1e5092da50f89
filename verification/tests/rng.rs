use binary_brain::bits::{popcount, word_contrib_exec};
use binary_brain::util::Xoshiro128PlusPlusAvx2;

fn seeded(tag: u8) -> Xoshiro128PlusPlusAvx2 {
    let mut bytes = [0u8; 64];
    for (i, b) in bytes.iter_mut().enumerate() {
        *b = (i as u8).wrapping_mul(37).wrapping_add(tag) | 1;
    }
    Xoshiro128PlusPlusAvx2::new(bytes)
}

#[test]
fn popcount_matches_per_bit_count() {
    let mut src = seeded(1);
    for _ in 0..16 {
        for w in src.next() {
            let mut expected = 0u32;
            for j in 0..64 {
                expected += ((w >> j) & 1) as u32;
            }
            assert_eq!(popcount(w), expected);
        }
    }
    assert_eq!(popcount(0), 0);
    assert_eq!(popcount(u64::MAX), 64);
    assert_eq!(popcount(0b1011), 3);
}

#[test]
fn word_contrib_matches_per_bit_reference() {
    // For random word pairs the packed score must equal both the closed
    // form 2 * popcount(!(w ^ v)) - 64 and the per-bit +1/-1 reference.
    let mut src = seeded(2);
    for _ in 0..16 {
        let ws = src.next();
        let vs = src.next();
        for i in 0..4 {
            let (w, v) = (ws[i], vs[i]);
            let got = word_contrib_exec(w, v);
            assert_eq!(got, 2 * (popcount(!(w ^ v)) as i32) - 64);
            let mut reference = 0i32;
            for j in 0..64 {
                if (w >> j) & 1 == (v >> j) & 1 {
                    reference += 1;
                } else {
                    reference -= 1;
                }
            }
            assert_eq!(got, reference);
        }
    }
    assert_eq!(word_contrib_exec(7, 7), 64);
    assert_eq!(word_contrib_exec(7, !7), -64);
}

#[test]
fn same_seed_gives_same_stream() {
    let mut a = seeded(3);
    let mut b = seeded(3);
    for _ in 0..8 {
        assert_eq!(a.next(), b.next());
    }
    assert_eq!(a.next_with_bias(17), b.next_with_bias(17));
    a.jump();
    b.jump();
    for _ in 0..8 {
        assert_eq!(a.next(), b.next());
    }
}

#[test]
fn new_from_bytes_matches_from_words() {
    // The byte constructor reads each lane's state words little-endian:
    // building from the corresponding words must give the same stream.
    let mut bytes = [0u8; 64];
    for (i, b) in bytes.iter_mut().enumerate() {
        *b = (i as u8).wrapping_mul(101).wrapping_add(13);
    }
    let mut words = [0u64; 8];
    for i in 0..8 {
        let mut w = 0u64;
        for k in 0..8 {
            w |= (bytes[8 * i + k] as u64) << (8 * k);
        }
        words[i] = w;
    }
    let mut a = Xoshiro128PlusPlusAvx2::new(bytes);
    let mut b = Xoshiro128PlusPlusAvx2::from_words(words);
    for _ in 0..4 {
        assert_eq!(a.next(), b.next());
    }
}

#[test]
fn bias_zero_gives_empty_masks() {
    let mut src = seeded(4);
    for _ in 0..4 {
        assert_eq!(src.next_with_bias(0), [0u64; 4]);
    }
}

#[test]
fn bias_density_tracks_probability() {
    // Each bit is set with probability p / 256: check the observed density
    // over many words stays near the mean for a few representative biases.
    for &(p, expect) in &[(32u8, 0.125f64), (128, 0.5), (255, 255.0 / 256.0)] {
        let mut src = seeded(5);
        let mut ones = 0u64;
        let mut total = 0u64;
        for _ in 0..256 {
            for w in src.next_with_bias(p) {
                ones += popcount(w) as u64;
                total += 64;
            }
        }
        let density = ones as f64 / total as f64;
        assert!(
            (density - expect).abs() < 0.02,
            "bias {}: density {} expected {}",
            p,
            density,
            expect
        );
    }
}

#[test]
fn jump_produces_distinct_stream() {
    let mut a = seeded(6);
    let mut b = seeded(6);
    b.jump();
    let first_a = a.next();
    let first_b = b.next();
    assert_ne!(first_a, first_b);
    // Jumping is deterministic.
    let mut c = seeded(6);
    c.jump();
    assert_eq!(c.next(), first_b);
}
