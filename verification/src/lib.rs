//! Approximate numeric kernels over IEEE-754 single-precision values,
//! represented throughout as their 32-bit patterns (`u32` codes).
//!
//! The crate provides a dense row-major matrix with exact and randomized
//! (norm-weighted, rank-reduced) multiplication, and exact and perforated
//! (selectively skipped and interpolated) one-dimensional convolution.
//! Scalar arithmetic is supplied by the caller through the [`scalar::ScalarOps`]
//! trait, so the kernels themselves are independent of any particular
//! floating-point unit; every structural and selection decision they make is
//! verified here.

use vstd::prelude::*;

pub mod conv;
pub mod laws;
pub mod math;
pub mod matrix;
pub mod sampler;
pub mod scalar;

verus! {

/// The caller-input violations that the kernels report instead of panicking.
#[derive(Clone, Copy, Debug, PartialEq, Eq, Structural)]
pub enum Error {
    /// Operand shapes of a matrix operation are incompatible.
    ShapeMismatch,
    /// An element access lies beyond the declared shape.
    IndexOutOfBounds,
    /// A convolution kernel is longer than its input.
    KernelTooLarge,
    /// A perforation mask has no exactly-computed anchor position.
    DegenerateMask,
    /// A sampling factor lies outside the interval from zero to one.
    InvalidFactor,
}

} // verus!
