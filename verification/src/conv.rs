//! Exact one-dimensional convolution: a sliding-window inner product.

use vstd::prelude::*;

use crate::math;
use crate::scalar::ScalarOps;
use crate::Error;

pub mod perforation;

verus! {

/// Output position `i` of the convolution: the inner product of the input
/// window starting at `i` with the kernel, accumulated from zero in
/// ascending tap order.
pub open spec fn conv_cell<S: ScalarOps>(input: Seq<u32>, kernel: Seq<u32>, i: int) -> u32 {
    math::spec_inner_product::<S>(
        input.subrange(i, i + kernel.len()),
        kernel,
        0u32,
        kernel.len() as int,
    )
}

/// The exact convolution of `input` with `kernel`: one output per window
/// position, `input.len() - kernel.len() + 1` in all.  Fails with
/// `KernelTooLarge` when the kernel is longer than the input.
pub fn conv1d<S: ScalarOps>(input: &[u32], kernel: &[u32]) -> (r: Result<Vec<u32>, Error>)
    requires
        input@.len() - kernel@.len() + 1 <= usize::MAX,
    ensures
        kernel@.len() > input@.len() ==> r == Err::<Vec<u32>, Error>(Error::KernelTooLarge),
        kernel@.len() <= input@.len() ==> match r {
            Ok(out) => {
                &&& out@.len() == input@.len() - kernel@.len() + 1
                &&& forall|i: int|
                    0 <= i < out@.len() ==> out@[i] == conv_cell::<S>(input@, kernel@, i)
            },
            Err(_) => false,
        },
{
    if kernel.len() > input.len() {
        return Err(Error::KernelTooLarge);
    }
    let osize = input.len() - kernel.len() + 1;
    let klen = kernel.len();
    let mut out: Vec<u32> = Vec::new();
    let mut i: usize = 0;
    while i < osize
        invariant
            i <= osize,
            klen == kernel@.len(),
            osize == input@.len() - kernel@.len() + 1,
            klen <= input@.len(),
            out@.len() == i,
            forall|i2: int| 0 <= i2 < i ==> out@[i2] == conv_cell::<S>(input@, kernel@, i2),
        decreases osize - i,
    {
        let acc = window_product::<S>(input, kernel, i);
        out.push(acc);
        i = i + 1;
    }
    Ok(out)
}

/// The exact inner product of the input window starting at `start` with the
/// kernel.
pub(crate) fn window_product<S: ScalarOps>(input: &[u32], kernel: &[u32], start: usize) -> (r: u32)
    requires
        start + kernel@.len() <= input@.len(),
    ensures
        r == conv_cell::<S>(input@, kernel@, start as int),
{
    let klen = kernel.len();
    let ilen = input.len();
    let mut acc: u32 = 0;
    let mut t: usize = 0;
    while t < klen
        invariant
            t <= klen,
            klen == kernel@.len(),
            ilen == input@.len(),
            start + klen <= input@.len(),
            acc == math::spec_inner_product::<S>(
                input@.subrange(start as int, start + klen),
                kernel@,
                0u32,
                t as int,
            ),
        decreases klen - t,
    {
        acc = S::sum_of(acc, S::prod_of(input[start + t], kernel[t]));
        t = t + 1;
    }
    acc
}

} // verus!
