//! The scalar arithmetic that the kernels fold over 32-bit codes.

use vstd::prelude::*;

verus! {

/// An interpretation of `u32` codes as numbers, with the four operations the
/// kernels need.
///
/// Every executable operation must return exactly what its
/// specification-level twin states, so the kernels' contracts pin each output
/// cell as a closed-form fold of the operations.  Callers normally interpret
/// codes as IEEE-754 single-precision bit patterns and compute with hardware
/// floats (such an implementation lives outside the verified kernels, next to
/// whatever runs them); [`WrappingInts`] below is a verified exact-integer
/// interpretation, used by the unit tests to exercise kernel structure with
/// no rounding in play.
pub trait ScalarOps: Sized {
    /// The sum of two codes.
    spec fn spec_sum(x: u32, y: u32) -> u32;

    /// The product of two codes.
    spec fn spec_prod(x: u32, y: u32) -> u32;

    /// The quotient of two codes.
    spec fn spec_quot(x: u32, y: u32) -> u32;

    /// The square root of a code.
    spec fn spec_root(x: u32) -> u32;

    /// Adds two codes.
    fn sum_of(x: u32, y: u32) -> (r: u32)
        ensures
            r == Self::spec_sum(x, y),
    ;

    /// Multiplies two codes.
    fn prod_of(x: u32, y: u32) -> (r: u32)
        ensures
            r == Self::spec_prod(x, y),
    ;

    /// Divides the first code by the second.
    fn quot_of(x: u32, y: u32) -> (r: u32)
        ensures
            r == Self::spec_quot(x, y),
    ;

    /// Takes the square root of a code.
    fn root_of(x: u32) -> (r: u32)
        ensures
            r == Self::spec_root(x),
    ;
}

/// One bit-pair step of the shift-and-subtract integer square root, with
/// `n` step pairs left to process.
pub open spec fn isqrt_step(x: u32, res: u32, bit: u32, n: nat) -> u32
    decreases n,
{
    if n == 0 {
        res
    } else if res + bit <= x {
        isqrt_step((x - (res + bit)) as u32, (((res >> 1) + bit) as u32), bit >> 2, (n - 1) as nat)
    } else {
        isqrt_step(x, res >> 1, bit >> 2, (n - 1) as nat)
    }
}

/// The integer square root (largest `r` with `r * r <= x`).
pub open spec fn int_sqrt(x: u32) -> u32 {
    isqrt_step(x, 0, 0x4000_0000, 16)
}

/// Codes read as plain unsigned integers, with wrapping sum and product,
/// quotient by zero defined as zero, and the integer square root.
pub struct WrappingInts;

impl ScalarOps for WrappingInts {
    open spec fn spec_sum(x: u32, y: u32) -> u32 {
        x.wrapping_add(y)
    }

    open spec fn spec_prod(x: u32, y: u32) -> u32 {
        x.wrapping_mul(y)
    }

    open spec fn spec_quot(x: u32, y: u32) -> u32 {
        if y == 0 {
            0u32
        } else {
            x / y
        }
    }

    open spec fn spec_root(x: u32) -> u32 {
        int_sqrt(x)
    }

    fn sum_of(x: u32, y: u32) -> (r: u32) {
        x.wrapping_add(y)
    }

    fn prod_of(x: u32, y: u32) -> (r: u32) {
        x.wrapping_mul(y)
    }

    fn quot_of(x: u32, y: u32) -> (r: u32) {
        if y == 0 {
            0u32
        } else {
            x / y
        }
    }

    fn root_of(x: u32) -> (r: u32) {
        let mut cur: u32 = x;
        let mut res: u32 = 0;
        let mut bit: u32 = 0x4000_0000;
        let mut n: usize = 16;
        while n != 0
            invariant
                bit <= 0x4000_0000,
                isqrt_step(cur, res, bit, n as nat) == int_sqrt(x),
            decreases n,
        {
            assert(res >> 1 <= 0x7FFF_FFFFu32) by (bit_vector);
            let t: u64 = res as u64 + bit as u64;
            if t <= cur as u64 {
                cur = (cur as u64 - t) as u32;
                res = (res >> 1) + bit;
            } else {
                res = res >> 1;
            }
            assert(bit >> 2 <= 0x4000_0000u32) by (bit_vector);
            bit = bit >> 2;
            n = n - 1;
        }
        res
    }
}

} // verus!
