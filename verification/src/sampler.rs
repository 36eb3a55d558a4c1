//! The deterministic seeded sampler behind `Matrix::random` and the
//! perforation mask.
//!
//! The generator is xoshiro256++ seeded through four steps of the SplitMix64
//! finalizer, the exact stream that `rand_xoshiro::Xoshiro256PlusPlus`
//! produces for `seed_from_u64`; the integration tests hold the two streams
//! against each other word for word.  A uniform draw over a unit interval
//! keeps the top 23 bits of a 32-bit word, so every sample is the dyadic
//! rational `k / 2^23`, and the affine maps to `[0, 1)` and `[-1, 1)` are
//! exact in single precision.  That lets this module stay in plain integer
//! arithmetic: it encodes the sampled value's IEEE-754 bit pattern directly.

use vstd::prelude::*;

verus! {

/// The SplitMix64 increment (the golden-ratio constant).
pub const GOLDEN_GAMMA: u64 = 0x9e37_79b9_7f4a_7c15;

/// State of the xoshiro256++ generator.
#[derive(Clone, Copy, Debug, PartialEq, Eq, Structural)]
pub struct Xoshiro256 {
    pub s0: u64,
    pub s1: u64,
    pub s2: u64,
    pub s3: u64,
}

/// The SplitMix64 output function: mixes one 64-bit word.
pub open spec fn mix64(x: u64) -> u64 {
    let z1 = (x ^ (x >> 30)).wrapping_mul(0xbf58_476d_1ce4_e5b9u64);
    let z2 = (z1 ^ (z1 >> 27)).wrapping_mul(0x94d0_49bb_1331_11ebu64);
    z2 ^ (z2 >> 31)
}

/// The generator state obtained from a 64-bit seed: four successive
/// SplitMix64 outputs.
pub open spec fn seeded(seed: u64) -> Xoshiro256 {
    let x1 = seed.wrapping_add(GOLDEN_GAMMA);
    let x2 = x1.wrapping_add(GOLDEN_GAMMA);
    let x3 = x2.wrapping_add(GOLDEN_GAMMA);
    let x4 = x3.wrapping_add(GOLDEN_GAMMA);
    (Xoshiro256 { s0: mix64(x1), s1: mix64(x2), s2: mix64(x3), s3: mix64(x4) })
}

/// The 64-bit word that one xoshiro256++ step emits.
pub open spec fn step_output(s: Xoshiro256) -> u64 {
    let t = s.s0.wrapping_add(s.s3);
    ((t << 23) | (t >> 41)).wrapping_add(s.s0)
}

/// The successor state of one xoshiro256++ step.
pub open spec fn step_state(s: Xoshiro256) -> Xoshiro256 {
    let t = s.s1 << 17;
    let s2a = s.s2 ^ s.s0;
    let s3a = s.s3 ^ s.s1;
    let s1a = s.s1 ^ s2a;
    let s0a = s.s0 ^ s3a;
    let s2b = s2a ^ t;
    let s3b = (s3a << 45) | (s3a >> 19);
    (Xoshiro256 { s0: s0a, s1: s1a, s2: s2b, s3: s3b })
}

/// The state after `i` draws from the seeded generator.
pub open spec fn state_at(seed: u64, i: nat) -> Xoshiro256
    decreases i,
{
    if i == 0 {
        seeded(seed)
    } else {
        step_state(state_at(seed, (i - 1) as nat))
    }
}

/// The `i`-th 64-bit word of the seeded stream.
pub open spec fn draw(seed: u64, i: nat) -> u64 {
    step_output(state_at(seed, i))
}

/// The `i`-th uniform draw over a unit interval, as the 23-bit numerator `k`
/// of the exact sample `k / 2^23`: the top 23 bits of the upper half of the
/// `i`-th stream word.
pub open spec fn unit_bits(seed: u64, i: nat) -> u32 {
    unit_bits_of(draw(seed, i))
}

impl Xoshiro256 {
    /// Seeds the generator from a 64-bit value.
    pub fn from_seed(seed: u64) -> (r: Xoshiro256)
        ensures
            r == seeded(seed),
    {
        let x1 = seed.wrapping_add(GOLDEN_GAMMA);
        let x2 = x1.wrapping_add(GOLDEN_GAMMA);
        let x3 = x2.wrapping_add(GOLDEN_GAMMA);
        let x4 = x3.wrapping_add(GOLDEN_GAMMA);
        Xoshiro256 { s0: Self::mix(x1), s1: Self::mix(x2), s2: Self::mix(x3), s3: Self::mix(x4) }
    }

    /// One SplitMix64 mix.
    fn mix(x: u64) -> (r: u64)
        ensures
            r == mix64(x),
    {
        let z1 = (x ^ (x >> 30)).wrapping_mul(0xbf58_476d_1ce4_e5b9u64);
        let z2 = (z1 ^ (z1 >> 27)).wrapping_mul(0x94d0_49bb_1331_11ebu64);
        z2 ^ (z2 >> 31)
    }

    /// Emits the next 64-bit word and advances the state by one step.
    pub fn next_u64(&mut self) -> (r: u64)
        ensures
            r == step_output(*old(self)),
            *final(self) == step_state(*old(self)),
    {
        let t0 = self.s0.wrapping_add(self.s3);
        let out = ((t0 << 23) | (t0 >> 41)).wrapping_add(self.s0);

        let t = self.s1 << 17;
        self.s2 = self.s2 ^ self.s0;
        self.s3 = self.s3 ^ self.s1;
        self.s1 = self.s1 ^ self.s2;
        self.s0 = self.s0 ^ self.s3;
        self.s2 = self.s2 ^ t;
        self.s3 = (self.s3 << 45) | (self.s3 >> 19);

        out
    }

    /// Draws the 23-bit numerator of one uniform unit-interval sample.
    pub fn next_unit_bits(&mut self) -> (k: u32)
        ensures
            k == unit_bits_of(step_output(*old(self))),
            k < 0x80_0000,
            *final(self) == step_state(*old(self)),
    {
        let w = self.next_u64();
        let k64 = w >> 41;
        assert(w >> 41 < 0x80_0000u64) by (bit_vector);
        k64 as u32
    }
}

/// The 23-bit unit-draw numerator carried by one stream word.
pub open spec fn unit_bits_of(w: u64) -> u32 {
    (w >> 41) as u32
}

/// Normalizes `m` (between 1 and `2^22`) into a 24-bit significand: returns
/// `(m << s, s)` with `m << s` in `[2^23, 2^24)`.
pub open spec fn norm24(m: u32) -> (u32, u32) {
    let (m1, s1): (u32, u32) = if m < 0x80 { (m << 16, 16u32) } else { (m, 0u32) };
    let (m2, s2): (u32, u32) = if m1 < 0x8000 { (m1 << 8, (s1 + 8) as u32) } else { (m1, s1) };
    let (m3, s3): (u32, u32) = if m2 < 0x8_0000 { (m2 << 4, (s2 + 4) as u32) } else { (m2, s2) };
    let (m4, s4): (u32, u32) = if m3 < 0x20_0000 { (m3 << 2, (s3 + 2) as u32) } else { (m3, s3) };
    let (m5, s5): (u32, u32) = if m4 < 0x40_0000 { (m4 << 1, (s4 + 1) as u32) } else { (m4, s4) };
    if m5 < 0x80_0000 {
        ((m5 << 1), (s5 + 1) as u32)
    } else {
        (m5, s5)
    }
}

/// The IEEE-754 single-precision bit pattern of the exact dyadic value
/// `sign * m / 2^22`, for `m` between 1 and `2^22`.
pub open spec fn dyadic22_code(negative: bool, m: u32) -> u32 {
    let (mant, s) = norm24(m);
    let sign: u32 = if negative { 0x8000_0000 } else { 0 };
    sign | (((128 - s) as u32) << 23) | (mant & 0x7F_FFFF)
}

/// The IEEE-754 single-precision bit pattern of the exact sample value
/// `2 * (k / 2^23) - 1`, the affine image of a unit draw in `[-1, 1)`.
pub open spec fn symmetric_code(k: u32) -> u32 {
    if k == 0x40_0000 {
        0u32
    } else if k > 0x40_0000 {
        dyadic22_code(false, (k - 0x40_0000) as u32)
    } else {
        dyadic22_code(true, (0x40_0000 - k) as u32)
    }
}

/// The `idx`-th matrix cell code for a given seed: a uniform draw mapped
/// exactly onto `[-1, 1)`.
pub open spec fn random_code(seed: u64, idx: nat) -> u32 {
    symmetric_code(unit_bits(seed, idx))
}

/// Encodes the exact dyadic `sign * m / 2^22` as its single-precision bit
/// pattern.  The map is exact: no rounding occurs.
pub fn dyadic22_bits(negative: bool, m: u32) -> (r: u32)
    requires
        1 <= m <= 0x40_0000,
    ensures
        r == dyadic22_code(negative, m),
{
    let (m1, s1): (u32, u32) = if m < 0x80 { (m << 16, 16u32) } else { (m, 0u32) };
    let (m2, s2): (u32, u32) = if m1 < 0x8000 { (m1 << 8, s1 + 8) } else { (m1, s1) };
    let (m3, s3): (u32, u32) = if m2 < 0x8_0000 { (m2 << 4, s2 + 4) } else { (m2, s2) };
    let (m4, s4): (u32, u32) = if m3 < 0x20_0000 { (m3 << 2, s3 + 2) } else { (m3, s3) };
    let (m5, s5): (u32, u32) = if m4 < 0x40_0000 { (m4 << 1, s4 + 1) } else { (m4, s4) };
    let (mant, s): (u32, u32) = if m5 < 0x80_0000 { ((m5 << 1), s5 + 1) } else { (m5, s5) };
    let sign: u32 = if negative { 0x8000_0000 } else { 0 };
    sign | ((128 - s) << 23) | (mant & 0x7F_FFFF)
}

/// Encodes a unit draw's numerator `k` as the bit pattern of `2k/2^23 - 1`.
pub fn symmetric_bits(k: u32) -> (r: u32)
    requires
        k < 0x80_0000,
    ensures
        r == symmetric_code(k),
{
    if k == 0x40_0000 {
        0u32
    } else if k > 0x40_0000 {
        dyadic22_bits(false, k - 0x40_0000)
    } else {
        dyadic22_bits(true, 0x40_0000 - k)
    }
}

/// Normalizes `v >= 1` into a 64-bit frame: returns `(v << s, s)` with
/// `v << s` in `[2^63, 2^64)`.
pub open spec fn norm64(v: u64) -> (u64, u64) {
    let (m1, s1): (u64, u64) = if v < 0x1_0000_0000 { (v << 32, 32u64) } else { (v, 0u64) };
    let (m2, s2): (u64, u64) = if m1 < 0x1_0000_0000_0000 { (m1 << 16, (s1 + 16) as u64) } else { (m1, s1) };
    let (m3, s3): (u64, u64) = if m2 < 0x100_0000_0000_0000 { (m2 << 8, (s2 + 8) as u64) } else { (m2, s2) };
    let (m4, s4): (u64, u64) = if m3 < 0x1000_0000_0000_0000 { (m3 << 4, (s3 + 4) as u64) } else { (m3, s3) };
    let (m5, s5): (u64, u64) = if m4 < 0x4000_0000_0000_0000 { (m4 << 2, (s4 + 2) as u64) } else { (m4, s4) };
    if m5 < 0x8000_0000_0000_0000 {
        ((m5 << 1), (s5 + 1) as u64)
    } else {
        (m5, s5)
    }
}

/// The IEEE-754 single-precision bit pattern nearest to the unsigned count
/// `v`, rounding ties to even: the value a conversion of `v` to single
/// precision yields.
pub open spec fn count_code(v: u64) -> u32 {
    if v == 0 {
        0u32
    } else {
        let (m64, s) = norm64(v);
        let m24 = (m64 >> 40) as u32;
        let round = m64 >> 39 & 1;
        let sticky = m64 & 0x7F_FFFF_FFFF;
        let up = round == 1 && (sticky != 0 || m24 & 1 == 1);
        let (mant, e): (u32, u32) = if up && m24 == 0xFF_FFFF {
            (0x80_0000u32, (191 - s) as u32)
        } else if up {
            ((m24 + 1) as u32, (190 - s) as u32)
        } else {
            (m24, (190 - s) as u32)
        };
        (e << 23) | (mant & 0x7F_FFFF)
    }
}

/// Encodes an unsigned count as its nearest single-precision bit pattern
/// (ties to even).
pub fn count_bits(v: u64) -> (r: u32)
    ensures
        r == count_code(v),
{
    if v == 0 {
        0u32
    } else {
        let (m1, s1): (u64, u64) = if v < 0x1_0000_0000 { (v << 32, 32u64) } else { (v, 0u64) };
        let (m2, s2): (u64, u64) = if m1 < 0x1_0000_0000_0000 { (m1 << 16, s1 + 16) } else { (m1, s1) };
        let (m3, s3): (u64, u64) = if m2 < 0x100_0000_0000_0000 { (m2 << 8, s2 + 8) } else { (m2, s2) };
        let (m4, s4): (u64, u64) = if m3 < 0x1000_0000_0000_0000 { (m3 << 4, s3 + 4) } else { (m3, s3) };
        let (m5, s5): (u64, u64) = if m4 < 0x4000_0000_0000_0000 { (m4 << 2, s4 + 2) } else { (m4, s4) };
        let (m64, s): (u64, u64) = if m5 < 0x8000_0000_0000_0000 { ((m5 << 1), s5 + 1) } else { (m5, s5) };
        assert(m64 >> 40 < 0x100_0000u64) by (bit_vector);
        let m24 = (m64 >> 40) as u32;
        let round = m64 >> 39 & 1;
        let sticky = m64 & 0x7F_FFFF_FFFF;
        let up = round == 1 && (sticky != 0 || m24 & 1 == 1);
        let (mant, e): (u32, u32) = if up && m24 == 0xFF_FFFF {
            (0x80_0000u32, (191 - s) as u32)
        } else if up {
            (m24 + 1, (190 - s) as u32)
        } else {
            (m24, (190 - s) as u32)
        };
        (e << 23) | (mant & 0x7F_FFFF)
    }
}

} // verus!
