//! The inner-product primitive shared by matrix multiplication and
//! convolution.

use vstd::prelude::*;

use crate::scalar::ScalarOps;

verus! {

/// The left fold `init (+) x[0]*y[0] (+) ... (+) x[n-1]*y[n-1]` over the
/// first `n` paired entries, in ascending index order.
pub open spec fn spec_inner_product<S: ScalarOps>(x: Seq<u32>, y: Seq<u32>, init: u32, n: int) -> u32
    decreases n,
{
    if n <= 0 {
        init
    } else {
        S::spec_sum(
            spec_inner_product::<S>(x, y, init, n - 1),
            S::spec_prod(x[n - 1], y[n - 1]),
        )
    }
}

/// The dot product of two equal-length code sequences on top of an
/// accumulator seed, added up in ascending index order.
pub fn inner_product<S: ScalarOps>(x: &[u32], y: &[u32], init: u32) -> (r: u32)
    requires
        x@.len() == y@.len(),
    ensures
        r == spec_inner_product::<S>(x@, y@, init, x@.len() as int),
{
    let n = x.len();
    let mut acc: u32 = init;
    let mut i: usize = 0;
    while i < n
        invariant
            i <= n,
            n == x@.len(),
            x@.len() == y@.len(),
            acc == spec_inner_product::<S>(x@, y@, init, i as int),
        decreases n - i,
    {
        acc = S::sum_of(acc, S::prod_of(x[i], y[i]));
        i = i + 1;
    }
    acc
}

} // verus!
