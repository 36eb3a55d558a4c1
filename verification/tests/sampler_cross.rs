//! Cross-validation of the library's seeded sampler against the generator
//! stack it reproduces: xoshiro256++ seeded through SplitMix64, and uniform
//! single-precision draws over unit intervals.

use rand_core::{RngCore, SeedableRng};
use rand_distr::Distribution;
use rand_xoshiro::Xoshiro256PlusPlus;

use rural::matrix::Matrix;
use rural::sampler;

#[test]
fn stream_matches_xoshiro256plusplus() {
    for seed in [0u64, 1, 7, 42, 0xDEAD_BEEF, u64::MAX] {
        let mut ours = sampler::Xoshiro256::from_seed(seed);
        let mut theirs = Xoshiro256PlusPlus::seed_from_u64(seed);
        for _ in 0..64 {
            assert_eq!(ours.next_u64(), theirs.next_u64());
        }
    }
}

#[test]
fn upper_half_matches_next_u32() {
    let mut ours = sampler::Xoshiro256::from_seed(9);
    let mut theirs = Xoshiro256PlusPlus::seed_from_u64(9);
    for _ in 0..32 {
        assert_eq!((ours.next_u64() >> 32) as u32, theirs.next_u32());
    }
}

#[test]
fn golden_first_word() {
    let mut rng = sampler::Xoshiro256::from_seed(0);
    assert_eq!(rng.next_u64(), 0x53175d61490b23df);
}

#[test]
fn random_cells_match_uniform_samples() {
    // `Matrix::random` must reproduce, bit for bit, uniform draws over
    // [-1, 1) taken from the same generator stack.
    let mut rng = Xoshiro256PlusPlus::seed_from_u64(77);
    let dist = rand_distr::Uniform::new(-1.0f32, 1.0);
    let m = Matrix::random(4, 5, 77);
    for i in 0..4 {
        for j in 0..5 {
            let want: f32 = dist.sample(&mut rng);
            assert_eq!(m.get(i, j).unwrap(), want.to_bits());
        }
    }
}

#[test]
fn mask_matches_float_jitter() {
    // The perforation mask must agree with the reference pattern computed in
    // floating point: successive positions ceil(1.5 * (i + u_i)) with u_i
    // drawn uniformly from [0, 1) at seed zero.
    let length = 200usize;
    let mut rng = Xoshiro256PlusPlus::seed_from_u64(0);
    let dist = rand_distr::Uniform::new(0.0f32, 1.0);
    let mut want = vec![false; length];
    let mut i = 0u32;
    loop {
        let u: f32 = dist.sample(&mut rng);
        let a = (1.5 * (i as f32 + u)).ceil() as usize;
        if a >= length {
            break;
        }
        want[a] = true;
        i += 1;
    }
    let (mask, _) = rural::conv::perforation::pseudo_mask(length).unwrap();
    assert_eq!(mask, want);
}

#[test]
fn unit_draw_numerator_matches_sample() {
    // A uniform draw over [0, 1) is exactly k / 2^23 for the 23-bit
    // numerator the sampler keeps.
    let mut theirs = Xoshiro256PlusPlus::seed_from_u64(5);
    let dist = rand_distr::Uniform::new(0.0f32, 1.0);
    let mut ours = sampler::Xoshiro256::from_seed(5);
    for _ in 0..32 {
        let want: f32 = dist.sample(&mut theirs);
        let k = ours.next_unit_bits();
        assert_eq!(k as f32 / 8388608.0, want);
    }
}

#[test]
fn symmetric_bits_is_exact_affine_image() {
    for k in [0u32, 1, 2, 3, 0x3F_FFFF, 0x40_0000, 0x40_0001, 0x55_5555, 0x7F_FFFF] {
        let want = ((k as f32) / 8388608.0 * 2.0 - 1.0).to_bits();
        assert_eq!(sampler::symmetric_bits(k), want, "k = {k}");
    }
}

#[test]
fn count_bits_matches_float_conversion() {
    for v in [
        0u64,
        1,
        2,
        3,
        7,
        100,
        16777215,
        16777216,
        16777217,
        16777219,
        u32::MAX as u64,
        123456789012,
        u64::MAX,
    ] {
        assert_eq!(sampler::count_bits(v), (v as f32).to_bits(), "v = {v}");
    }
}
