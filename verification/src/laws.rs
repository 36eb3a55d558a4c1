//! Laws that relate the public operations to one another.

use vstd::prelude::*;

use vstd::set_lib::{lemma_len_subset, lemma_int_range, set_int_range};

use crate::matrix::{spec_selection, term_count, Matrix, CODE_ONE, CODE_ZERO};
use crate::sampler;
use crate::scalar::ScalarOps;

verus! {

/// Seeding is reproducible: two matrices built by `Matrix::random` from the
/// same `m`, `n` and `seed` are identical, cell for cell.  The hypotheses
/// are exactly what `Matrix::random`'s postcondition gives each of them.
pub proof fn lemma_random_reproducible(a: Matrix, b: Matrix, m: usize, n: usize, seed: u64)
    requires
        a.wf(),
        b.wf(),
        a.spec_rows() == m,
        a.spec_cols() == n,
        b.spec_rows() == m,
        b.spec_cols() == n,
        forall|c: int| 0 <= c < m * n ==> a.cells()[c] == sampler::random_code(seed, c as nat),
        forall|c: int| 0 <= c < m * n ==> b.cells()[c] == sampler::random_code(seed, c as nat),
    ensures
        a.cells() == b.cells(),
        a.spec_rows() == b.spec_rows(),
        a.spec_cols() == b.spec_cols(),
{
    assert(a.cells() =~= b.cells());
}

/// Adding a zero matrix is the identity, for any scalar interpretation
/// whose zero code is an additive identity: the cells of
/// `add(matmul(a, b), zeroes(..))` are exactly the cells of `matmul(a, b)`.
/// Instantiate `prod` with the product, `z` with the zero matrix and `sum`
/// with the sum; the first three hypotheses are the postconditions of
/// `matmul`, `zeroes` and `add`, and the conclusion is what the matrix `==`
/// compares.
pub proof fn lemma_add_zero_identity<S: ScalarOps>(prod: Matrix, z: Matrix, sum: Matrix)
    requires
        forall|x: u32| #[trigger] S::spec_sum(x, CODE_ZERO) == x,
        z.cells().len() == prod.cells().len(),
        sum.cells().len() == prod.cells().len(),
        forall|c: int| 0 <= c < z.cells().len() ==> z.cells()[c] == CODE_ZERO,
        forall|c: int|
            0 <= c < sum.cells().len() ==> sum.cells()[c] == S::spec_sum(
                prod.cells()[c],
                z.cells()[c],
            ),
    ensures
        sum.cells() == prod.cells(),
{
    assert(sum.cells() =~= prod.cells());
}

/// A factor of one keeps every rank-one term: the kept count equals the
/// number of shared indices, and the selection is a permutation of all of
/// them — no term of `matmul` is left out of `rand_matmul` at factor one.
pub proof fn lemma_full_factor_keeps_all(prob: Seq<u32>)
    ensures
        term_count(prob.len(), CODE_ONE) == prob.len(),
        spec_selection(prob, prob.len() as int).len() == prob.len(),
        forall|k: int|
            0 <= k < prob.len() ==> spec_selection(prob, prob.len() as int).contains(k),
{
    let n = prob.len() as int;
    let sel = spec_selection(prob, n);
    crate::matrix::lemma_selection_props(prob, n);
    assert(sel.no_duplicates());
    sel.unique_seq_to_set();
    lemma_int_range(0, n);
    assert forall|k: int| 0 <= k < n implies sel.contains(k) by {
        if !sel.contains(k) {
            let full = set_int_range(0, n);
            let smaller = full.remove(k);
            assert(sel.to_set().subset_of(smaller));
            lemma_len_subset(sel.to_set(), smaller);
            assert(smaller.len() == n - 1);
            assert(false);
        }
    }
}

} // verus!
