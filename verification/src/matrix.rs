//! A dense row-major matrix of 32-bit scalar codes, with exact and
//! randomized multiplication.

use vstd::prelude::*;

use crate::sampler;
use crate::scalar::ScalarOps;
use crate::Error;

verus! {

/// The single-precision bit pattern of one.
pub const CODE_ONE: u32 = 0x3F80_0000;

/// The single-precision bit pattern of (positive) zero.
pub const CODE_ZERO: u32 = 0;

/// A dense matrix: a flat row-major sequence of scalar codes plus its shape.
/// Element `(i, j)` lives at flat position `i * cols + j`.
#[derive(Debug)]
pub struct Matrix {
    data: Vec<u32>,
    rows: usize,
    cols: usize,
}

/// The value of output cell `(i, j)` of the exact product of an `m x n`
/// matrix `a` and an `n x p` matrix `b`, after folding in the first `terms`
/// of the `n` products `a[i, k] * b[k, j]`, accumulated from zero in
/// ascending `k` order.
pub open spec fn mm_cell<S: ScalarOps>(
    a: Seq<u32>,
    b: Seq<u32>,
    n: int,
    p: int,
    i: int,
    j: int,
    terms: int,
) -> u32
    decreases terms,
{
    if terms <= 0 {
        0u32
    } else {
        S::spec_sum(
            mm_cell::<S>(a, b, n, p, i, j, terms - 1),
            S::spec_prod(a[i * n + (terms - 1)], b[(terms - 1) * p + j]),
        )
    }
}

impl Matrix {
    /// The number of rows.
    pub closed spec fn spec_rows(self) -> nat {
        self.rows as nat
    }

    /// The number of columns.
    pub closed spec fn spec_cols(self) -> nat {
        self.cols as nat
    }

    /// The flat row-major cell codes.
    pub closed spec fn cells(self) -> Seq<u32> {
        self.data@
    }

    /// The shape invariant: the flat storage holds exactly `rows * cols`
    /// codes (a count that fits the address space).  Every constructor
    /// establishes it and every operation keeps it.
    pub open spec fn wf(self) -> bool {
        self.cells().len() == self.spec_rows() * self.spec_cols() && self.spec_rows()
            * self.spec_cols() <= usize::MAX
    }

    /// The code stored at `(i, j)`.
    pub open spec fn cell(self, i: int, j: int) -> u32 {
        self.cells()[i * self.spec_cols() + j]
    }

    /// Allocates an `m x n` matrix with every cell set to `value`.
    pub fn fill(m: usize, n: usize, value: u32) -> (r: Matrix)
        requires
            m * n <= usize::MAX,
        ensures
            r.wf(),
            r.spec_rows() == m,
            r.spec_cols() == n,
            forall|c: int| 0 <= c < m * n ==> r.cells()[c] == value,
    {
        let total = m * n;
        let mut data: Vec<u32> = Vec::new();
        let mut c: usize = 0;
        while c < total
            invariant
                c <= total,
                data@.len() == c,
                forall|c2: int| 0 <= c2 < c ==> data@[c2] == value,
            decreases total - c,
        {
            data.push(value);
            c = c + 1;
        }
        Matrix { data, rows: m, cols: n }
    }

    /// Allocates an `m x n` matrix of ones.
    pub fn ones(m: usize, n: usize) -> (r: Matrix)
        requires
            m * n <= usize::MAX,
        ensures
            r.wf(),
            r.spec_rows() == m,
            r.spec_cols() == n,
            forall|c: int| 0 <= c < m * n ==> r.cells()[c] == CODE_ONE,
    {
        Self::fill(m, n, CODE_ONE)
    }

    /// Allocates an `m x n` matrix of zeroes.
    pub fn zeroes(m: usize, n: usize) -> (r: Matrix)
        requires
            m * n <= usize::MAX,
        ensures
            r.wf(),
            r.spec_rows() == m,
            r.spec_cols() == n,
            forall|c: int| 0 <= c < m * n ==> r.cells()[c] == CODE_ZERO,
    {
        Self::fill(m, n, CODE_ZERO)
    }

    /// Builds a matrix from nested rows, copied row-major.  The rows must all
    /// have the same length; a ragged literal is a shape error.
    pub fn new(entries: &Vec<Vec<u32>>) -> (r: Result<Matrix, Error>)
        ensures
            match r {
                Ok(mat) => {
                    &&& mat.wf()
                    &&& mat.spec_rows() == entries@.len()
                    &&& (entries@.len() > 0 ==> mat.spec_cols() == entries@[0]@.len())
                    &&& (entries@.len() == 0 ==> mat.spec_cols() == 0)
                    &&& forall|i: int, j: int|
                        0 <= i < mat.spec_rows() && 0 <= j < mat.spec_cols() ==> mat.cell(i, j)
                            == entries@[i]@[j]
                },
                Err(e) => {
                    &&& e == Error::ShapeMismatch
                    &&& ((exists|i: int|
                        0 <= i < entries@.len() && (#[trigger] entries@[i]@.len())
                            != entries@[0]@.len()) || entries@.len() * (if entries@.len() > 0 {
                        entries@[0]@.len()
                    } else {
                        0
                    }) > usize::MAX)
                },
            },
    {
        let m = entries.len();
        let n = if m > 0 {
            entries[0].len()
        } else {
            0
        };
        let total = match m.checked_mul(n) {
            Some(t) => t,
            None => {
                return Err(Error::ShapeMismatch);
            },
        };
        let mut data: Vec<u32> = Vec::new();
        let mut i: usize = 0;
        while i < m
            invariant
                i <= m,
                m == entries@.len(),
                m > 0 ==> n == entries@[0]@.len(),
                m == 0 ==> n == 0,
                total == m * n,
                data@.len() == i * n,
                forall|i2: int| 0 <= i2 < i ==> entries@[i2]@.len() == n,
                forall|i2: int, j2: int|
                    0 <= i2 < i && 0 <= j2 < n ==> data@[i2 * n + j2] == entries@[i2]@[j2],
            decreases m - i,
        {
            let row = &entries[i];
            if row.len() != n {
                return Err(Error::ShapeMismatch);
            }
            let mut j: usize = 0;
            while j < n
                invariant
                    j <= n,
                    i < m,
                    m == entries@.len(),
                    entries@[i as int]@.len() == n,
                    row@ == entries@[i as int]@,
                    total == m * n,
                    data@.len() == i * n + j,
                    forall|i2: int, j2: int|
                        0 <= i2 < i && 0 <= j2 < n ==> data@[i2 * n + j2] == entries@[i2]@[j2],
                    forall|j2: int| 0 <= j2 < j ==> data@[i * n + j2] == entries@[i as int]@[j2],
                decreases n - j,
            {
                assert(i * n + j < m * n) by (nonlinear_arith)
                    requires
                        0 <= (i as int) < m,
                        0 <= (j as int) < n,
                ;
                data.push(row[j]);
                assert forall|i2: int, j2: int|
                    0 <= i2 < i && 0 <= j2 < n implies data@[i2 * n + j2]
                    == entries@[i2]@[j2] by {
                    assert(0 <= i2 * n + j2 && i2 * n + j2 + 1 <= (i2 + 1) * n <= i * n)
                        by (nonlinear_arith)
                        requires
                            0 <= i2 < i,
                            0 <= j2 < n,
                    ;
                }
                j = j + 1;
            }
            assert(i * n + n == (i + 1) * n) by (nonlinear_arith);
            assert forall|i2: int, j2: int|
                0 <= i2 < i + 1 && 0 <= j2 < n implies data@[i2 * n + j2]
                == entries@[i2]@[j2] by {
                assert(0 <= i2 * n + j2 && i2 * n + j2 + 1 <= (i2 + 1) * n <= (i + 1) * n)
                    by (nonlinear_arith)
                    requires
                        0 <= i2 < i + 1,
                        0 <= j2 < n,
                ;
            }
            i = i + 1;
        }
        let mat = Matrix { data, rows: m, cols: n };
        assert forall|i2: int, j2: int|
            0 <= i2 < mat.spec_rows() && 0 <= j2 < mat.spec_cols() implies mat.cell(i2, j2)
            == entries@[i2]@[j2] by {
            assert(0 <= i2 * n + j2 < m * n) by (nonlinear_arith)
                requires
                    0 <= i2 < m,
                    0 <= j2 < n,
            ;
        }
        Ok(mat)
    }

    /// Allocates an `m x n` matrix whose cells are drawn from the seeded
    /// uniform sampler over `[-1, 1)`, in row-major order.  The result is a
    /// function of `m`, `n` and `seed` alone, so the same arguments always
    /// reproduce the identical matrix.
    pub fn random(m: usize, n: usize, seed: u64) -> (r: Matrix)
        requires
            m * n <= usize::MAX,
        ensures
            r.wf(),
            r.spec_rows() == m,
            r.spec_cols() == n,
            forall|c: int|
                0 <= c < m * n ==> r.cells()[c] == sampler::random_code(seed, c as nat),
    {
        let total = m * n;
        let mut rng = sampler::Xoshiro256::from_seed(seed);
        let mut data: Vec<u32> = Vec::new();
        let mut c: usize = 0;
        while c < total
            invariant
                c <= total,
                data@.len() == c,
                rng == sampler::state_at(seed, c as nat),
                forall|c2: int| 0 <= c2 < c ==> data@[c2] == sampler::random_code(seed, c2 as nat),
            decreases total - c,
        {
            let k = rng.next_unit_bits();
            proof {
                assert(sampler::state_at(seed, (c + 1) as nat) == sampler::step_state(
                    sampler::state_at(seed, c as nat),
                ));
            }
            data.push(sampler::symmetric_bits(k));
            c = c + 1;
        }
        Matrix { data, rows: m, cols: n }
    }

    /// The shape `(rows, cols)`.
    pub fn shape(&self) -> (r: (usize, usize))
        ensures
            r.0 == self.spec_rows(),
            r.1 == self.spec_cols(),
    {
        (self.rows, self.cols)
    }

    /// The code at `(i, j)`, or `IndexOutOfBounds` beyond the shape.
    pub fn get(&self, i: usize, j: usize) -> (r: Result<u32, Error>)
        requires
            self.wf(),
        ensures
            i < self.spec_rows() && j < self.spec_cols() ==> r == Ok::<u32, Error>(
                self.cell(i as int, j as int),
            ),
            !(i < self.spec_rows() && j < self.spec_cols()) ==> r == Err::<u32, Error>(
                Error::IndexOutOfBounds,
            ),
    {
        if i < self.rows && j < self.cols {
            assert(0 <= i * self.spec_cols() + j < self.spec_rows() * self.spec_cols())
                by (nonlinear_arith)
                requires
                    0 <= (i as int) < self.spec_rows(),
                    0 <= (j as int) < self.spec_cols(),
            ;
            Ok(self.data[i * self.cols + j])
        } else {
            Err(Error::IndexOutOfBounds)
        }
    }

    /// Replaces the code at `(i, j)`, or reports `IndexOutOfBounds` beyond
    /// the shape, leaving the matrix unchanged.
    pub fn set(&mut self, i: usize, j: usize, value: u32) -> (r: Result<(), Error>)
        requires
            old(self).wf(),
        ensures
            (*final(self)).wf(),
            (*final(self)).spec_rows() == (*old(self)).spec_rows(),
            (*final(self)).spec_cols() == (*old(self)).spec_cols(),
            i < old(self).spec_rows() && j < old(self).spec_cols() ==> {
                &&& r == Ok::<(), Error>(())
                &&& (*final(self)).cells() == (*old(self)).cells().update(
                    i * old(self).spec_cols() + j,
                    value,
                )
            },
            !(i < old(self).spec_rows() && j < old(self).spec_cols()) ==> {
                &&& r == Err::<(), Error>(Error::IndexOutOfBounds)
                &&& *final(self) == *old(self)
            },
    {
        if i < self.rows && j < self.cols {
            assert(0 <= i * self.spec_cols() + j < self.spec_rows() * self.spec_cols())
                by (nonlinear_arith)
                requires
                    0 <= (i as int) < self.spec_rows(),
                    0 <= (j as int) < self.spec_cols(),
            ;
            let idx = i * self.cols + j;
            self.data.set(idx, value);
            Ok(())
        } else {
            Err(Error::IndexOutOfBounds)
        }
    }

    /// A copy of row `i` as a contiguous vector, or `IndexOutOfBounds`.
    pub fn row(&self, i: usize) -> (r: Result<Vec<u32>, Error>)
        requires
            self.wf(),
        ensures
            i < self.spec_rows() ==> {
                &&& r is Ok
                &&& r->Ok_0@ == self.cells().subrange(
                    i * self.spec_cols(),
                    (i + 1) * self.spec_cols(),
                )
            },
            i >= self.spec_rows() ==> r == Err::<Vec<u32>, Error>(Error::IndexOutOfBounds),
    {
        if i < self.rows {
            assert((i + 1) * self.spec_cols() <= self.spec_rows() * self.spec_cols())
                by (nonlinear_arith)
                requires
                    0 <= (i as int) < self.spec_rows(),
            ;
            let mut out: Vec<u32> = Vec::new();
            let mut j: usize = 0;
            while j < self.cols
                invariant
                    j <= self.spec_cols(),
                    i < self.spec_rows(),
                    self.wf(),
                    (i + 1) * self.spec_cols() <= self.cells().len(),
                    out@.len() == j,
                    forall|j2: int|
                        0 <= j2 < j ==> out@[j2] == self.cells()[i * self.spec_cols() + j2],
                decreases self.spec_cols() - j,
            {
                assert(i * self.spec_cols() + j < (i + 1) * self.spec_cols()) by (nonlinear_arith)
                    requires
                        0 <= (j as int) < self.spec_cols(),
                ;
                out.push(self.data[i * self.cols + j]);
                j = j + 1;
            }
            proof {
                assert((i + 1) * self.spec_cols() == i * self.spec_cols() + self.spec_cols())
                    by (nonlinear_arith);
                assert(out@ =~= self.cells().subrange(
                    i * self.spec_cols(),
                    (i + 1) * self.spec_cols(),
                ));
            }
            Ok(out)
        } else {
            Err(Error::IndexOutOfBounds)
        }
    }

    /// The exact product: `C[i, j]` accumulates `A[i, k] * B[k, j]` from zero
    /// in ascending `k` order.  Fails with `ShapeMismatch` when the inner
    /// dimensions disagree.
    pub fn matmul<S: ScalarOps>(&self, other: &Matrix) -> (r: Result<Matrix, Error>)
        requires
            self.wf(),
            other.wf(),
            self.spec_rows() * other.spec_cols() <= usize::MAX,
        ensures
            self.spec_cols() == other.spec_rows() ==> match r {
                Ok(c) => {
                    &&& c.wf()
                    &&& c.spec_rows() == self.spec_rows()
                    &&& c.spec_cols() == other.spec_cols()
                    &&& forall|i: int, j: int|
                        0 <= i < c.spec_rows() && 0 <= j < c.spec_cols() ==> c.cell(i, j)
                            == mm_cell::<S>(
                            self.cells(),
                            other.cells(),
                            self.spec_cols() as int,
                            other.spec_cols() as int,
                            i,
                            j,
                            self.spec_cols() as int,
                        )
                },
                Err(_) => false,
            },
            self.spec_cols() != other.spec_rows() ==> r == Err::<Matrix, Error>(
                Error::ShapeMismatch,
            ),
    {
        if self.cols != other.rows {
            return Err(Error::ShapeMismatch);
        }
        let m = self.rows;
        let n = self.cols;
        let p = other.cols;
        let mut data: Vec<u32> = Vec::new();
        let mut i: usize = 0;
        while i < m
            invariant
                i <= m,
                m == self.spec_rows(),
                n == self.spec_cols(),
                n == other.spec_rows(),
                p == other.spec_cols(),
                self.wf(),
                other.wf(),
                m * p <= usize::MAX,
                data@.len() == i * p,
                forall|i2: int, j2: int|
                    0 <= i2 < i && 0 <= j2 < p ==> data@[i2 * p + j2] == mm_cell::<S>(
                        self.cells(),
                        other.cells(),
                        n as int,
                        p as int,
                        i2,
                        j2,
                        n as int,
                    ),
            decreases m - i,
        {
            assert(i * p + p <= m * p) by (nonlinear_arith)
                requires
                    0 <= (i as int) < m,
                    0 <= p,
            ;
            let mut j: usize = 0;
            while j < p
                invariant
                    j <= p,
                    i < m,
                    m == self.spec_rows(),
                    n == self.spec_cols(),
                    n == other.spec_rows(),
                    p == other.spec_cols(),
                    self.wf(),
                    other.wf(),
                    i * p + p <= m * p <= usize::MAX,
                    data@.len() == i * p + j,
                    forall|i2: int, j2: int|
                        0 <= i2 < i && 0 <= j2 < p ==> data@[i2 * p + j2] == mm_cell::<S>(
                            self.cells(),
                            other.cells(),
                            n as int,
                            p as int,
                            i2,
                            j2,
                            n as int,
                        ),
                    forall|j2: int|
                        0 <= j2 < j ==> data@[i * p + j2] == mm_cell::<S>(
                            self.cells(),
                            other.cells(),
                            n as int,
                            p as int,
                            i as int,
                            j2,
                            n as int,
                        ),
                decreases p - j,
            {
                let mut acc: u32 = 0;
                let mut k: usize = 0;
                while k < n
                    invariant
                        k <= n,
                        i < m,
                        j < p,
                        m == self.spec_rows(),
                        n == self.spec_cols(),
                        n == other.spec_rows(),
                        p == other.spec_cols(),
                        self.wf(),
                        other.wf(),
                        acc == mm_cell::<S>(
                            self.cells(),
                            other.cells(),
                            n as int,
                            p as int,
                            i as int,
                            j as int,
                            k as int,
                        ),
                    decreases n - k,
                {
                    assert(0 <= i * n + k < m * n && 0 <= k * p + j < n * p) by (nonlinear_arith)
                        requires
                            0 <= (i as int) < m,
                            0 <= (k as int) < n,
                            0 <= (j as int) < p,
                    ;
                    acc = S::sum_of(
                        acc,
                        S::prod_of(self.data[i * self.cols + k], other.data[k * other.cols + j]),
                    );
                    k = k + 1;
                }
                data.push(acc);
                assert forall|i2: int, j2: int|
                    0 <= i2 < i && 0 <= j2 < p implies data@[i2 * p + j2] == mm_cell::<S>(
                    self.cells(),
                    other.cells(),
                    n as int,
                    p as int,
                    i2,
                    j2,
                    n as int,
                ) by {
                    assert(0 <= i2 * p + j2 && i2 * p + j2 + 1 <= (i2 + 1) * p <= i * p)
                        by (nonlinear_arith)
                        requires
                            0 <= i2 < i,
                            0 <= j2 < p,
                    ;
                }
                j = j + 1;
            }
            assert(i * p + p == (i + 1) * p) by (nonlinear_arith);
            assert forall|i2: int, j2: int|
                0 <= i2 < i + 1 && 0 <= j2 < p implies data@[i2 * p + j2] == mm_cell::<S>(
                self.cells(),
                other.cells(),
                n as int,
                p as int,
                i2,
                j2,
                n as int,
            ) by {
                assert(0 <= i2 * p + j2 && i2 * p + j2 + 1 <= (i2 + 1) * p <= (i + 1) * p)
                    by (nonlinear_arith)
                    requires
                        0 <= i2 < i + 1,
                        0 <= j2 < p,
                ;
            }
            i = i + 1;
        }
        let mat = Matrix { data, rows: m, cols: p };
        assert forall|i2: int, j2: int|
            0 <= i2 < mat.spec_rows() && 0 <= j2 < mat.spec_cols() implies mat.cell(i2, j2)
            == mm_cell::<S>(
            self.cells(),
            other.cells(),
            n as int,
            p as int,
            i2,
            j2,
            n as int,
        ) by {
            assert(0 <= i2 * p + j2 < m * p) by (nonlinear_arith)
                requires
                    0 <= i2 < m,
                    0 <= j2 < p,
            ;
        }
        Ok(mat)
    }

    /// The elementwise sum.  Fails with `ShapeMismatch` unless the shapes are
    /// identical.
    pub fn add<S: ScalarOps>(&self, other: &Matrix) -> (r: Result<Matrix, Error>)
        requires
            self.wf(),
            other.wf(),
        ensures
            self.spec_rows() == other.spec_rows() && self.spec_cols() == other.spec_cols()
                ==> match r {
                Ok(c) => {
                    &&& c.wf()
                    &&& c.spec_rows() == self.spec_rows()
                    &&& c.spec_cols() == self.spec_cols()
                    &&& forall|c2: int|
                        0 <= c2 < c.cells().len() ==> c.cells()[c2] == S::spec_sum(
                            self.cells()[c2],
                            other.cells()[c2],
                        )
                },
                Err(_) => false,
            },
            !(self.spec_rows() == other.spec_rows() && self.spec_cols() == other.spec_cols())
                ==> r == Err::<Matrix, Error>(Error::ShapeMismatch),
    {
        if self.rows != other.rows || self.cols != other.cols {
            return Err(Error::ShapeMismatch);
        }
        let total = self.data.len();
        let mut data: Vec<u32> = Vec::new();
        let mut c: usize = 0;
        while c < total
            invariant
                c <= total,
                total == self.cells().len(),
                self.cells().len() == other.cells().len(),
                data@.len() == c,
                forall|c2: int|
                    0 <= c2 < c ==> data@[c2] == S::spec_sum(self.cells()[c2], other.cells()[c2]),
            decreases total - c,
        {
            data.push(S::sum_of(self.data[c], other.data[c]));
            c = c + 1;
        }
        Ok(Matrix { data, rows: self.rows, cols: self.cols })
    }

    /// The randomized product: only the `ceil(n * factor)` rank-one terms
    /// with the largest importance weights are accumulated, each rescaled by
    /// the inverse of the kept count times its weight; zero-weight terms are
    /// excluded outright.  `factor` is the bit pattern of a value in
    /// `[0, 1]`; anything else is an `InvalidFactor` error, and unequal inner
    /// dimensions are a `ShapeMismatch`.
    #[verifier::loop_isolation(false)]
    pub fn rand_matmul<S: ScalarOps>(&self, other: &Matrix, factor: u32) -> (r: Result<
        Matrix,
        Error,
    >)
        requires
            self.wf(),
            other.wf(),
            self.spec_rows() * other.spec_cols() <= usize::MAX,
        ensures
            self.spec_cols() != other.spec_rows() ==> r == Err::<Matrix, Error>(
                Error::ShapeMismatch,
            ),
            self.spec_cols() == other.spec_rows() && !valid_factor(factor) ==> r == Err::<
                Matrix,
                Error,
            >(Error::InvalidFactor),
            self.spec_cols() == other.spec_rows() && valid_factor(factor) ==> match r {
                Ok(c) => {
                    &&& c.wf()
                    &&& c.spec_rows() == self.spec_rows()
                    &&& c.spec_cols() == other.spec_cols()
                    &&& forall|i: int, j: int|
                        0 <= i < c.spec_rows() && 0 <= j < c.spec_cols() ==> c.cell(i, j)
                            == rm_cell::<S>(
                            self.cells(),
                            other.cells(),
                            self.spec_rows() as int,
                            self.spec_cols() as int,
                            other.spec_cols() as int,
                            factor,
                            i,
                            j,
                        )
                },
                Err(_) => false,
            },
    {
        if self.cols != other.rows {
            return Err(Error::ShapeMismatch);
        }
        if !(factor == 0x8000_0000 || factor <= CODE_ONE) {
            return Err(Error::InvalidFactor);
        }
        let m = self.rows;
        let n = self.cols;
        let p = other.cols;
        let ghost ac = self.cells();
        let ghost bc = other.cells();

        let mut na: Vec<u32> = Vec::new();
        let mut k: usize = 0;
        while k < n
            invariant
                k <= n,
                na@.len() == k,
                forall|k2: int|
                    0 <= k2 < k ==> na@[k2] == col_norms::<S>(ac, m as int, n as int)[k2],
            decreases n - k,
        {
            let mut acc: u32 = 0;
            let mut i: usize = 0;
            while i < m
                invariant
                    i <= m,
                    k < n,
                    acc == col_sumsq::<S>(ac, n as int, k as int, i as int),
                decreases m - i,
            {
                assert(0 <= i * n + k < m * n) by (nonlinear_arith)
                    requires
                        0 <= (i as int) < m,
                        0 <= (k as int) < n,
                ;
                let v = self.data[i * self.cols + k];
                acc = S::sum_of(acc, S::prod_of(v, v));
                i = i + 1;
            }
            na.push(S::root_of(acc));
            k = k + 1;
        }
        proof {
            assert(na@ =~= col_norms::<S>(ac, m as int, n as int));
        }

        let mut nb: Vec<u32> = Vec::new();
        k = 0;
        while k < n
            invariant
                k <= n,
                nb@.len() == k,
                forall|k2: int|
                    0 <= k2 < k ==> nb@[k2] == row_norms::<S>(bc, n as int, p as int)[k2],
            decreases n - k,
        {
            let mut acc: u32 = 0;
            let mut j: usize = 0;
            while j < p
                invariant
                    j <= p,
                    k < n,
                    acc == row_sumsq::<S>(bc, p as int, k as int, j as int),
                decreases p - j,
            {
                assert(0 <= k * p + j < n * p) by (nonlinear_arith)
                    requires
                        0 <= (k as int) < n,
                        0 <= (j as int) < p,
                ;
                let v = other.data[k * other.cols + j];
                acc = S::sum_of(acc, S::prod_of(v, v));
                j = j + 1;
            }
            nb.push(S::root_of(acc));
            k = k + 1;
        }
        proof {
            assert(nb@ =~= row_norms::<S>(bc, n as int, p as int));
        }

        let sum_norm = crate::math::inner_product::<S>(na.as_slice(), nb.as_slice(), 0);

        let mut prob: Vec<u32> = Vec::new();
        k = 0;
        while k < n
            invariant
                k <= n,
                prob@.len() == k,
                forall|k2: int|
                    0 <= k2 < k ==> prob@[k2] == importance::<S>(
                        ac,
                        bc,
                        m as int,
                        n as int,
                        p as int,
                    )[k2],
            decreases n - k,
        {
            prob.push(S::quot_of(S::prod_of(na[k], nb[k]), sum_norm));
            k = k + 1;
        }
        proof {
            assert(prob@ =~= importance::<S>(ac, bc, m as int, n as int, p as int));
        }

        let c = count_terms(n, factor);
        let sel = indices(prob.as_slice(), c);
        let cc = sampler::count_bits(c as u64);
        let ghost gsel = spec_selection(prob@, c as int);

        let mut data: Vec<u32> = Vec::new();
        let mut i: usize = 0;
        while i < m
            invariant
                i <= m,
                data@.len() == i * p,
                forall|i2: int, j2: int|
                    0 <= i2 < i && 0 <= j2 < p ==> data@[i2 * p + j2] == rm_cell::<S>(
                        ac,
                        bc,
                        m as int,
                        n as int,
                        p as int,
                        factor,
                        i2,
                        j2,
                    ),
            decreases m - i,
        {
            let mut j: usize = 0;
            while j < p
                invariant
                    j <= p,
                    i < m,
                    data@.len() == i * p + j,
                    forall|i2: int, j2: int|
                        0 <= i2 < i && 0 <= j2 < p ==> data@[i2 * p + j2] == rm_cell::<S>(
                            ac,
                            bc,
                            m as int,
                            n as int,
                            p as int,
                            factor,
                            i2,
                            j2,
                        ),
                    forall|j2: int|
                        0 <= j2 < j ==> data@[i * p + j2] == rm_cell::<S>(
                            ac,
                            bc,
                            m as int,
                            n as int,
                            p as int,
                            factor,
                            i as int,
                            j2,
                        ),
                decreases p - j,
            {
                let mut acc: u32 = 0;
                let mut s: usize = 0;
                while s < sel.len()
                    invariant
                        s <= sel@.len(),
                        i < m,
                        j < p,
                        acc == rm_accum::<S>(
                            ac,
                            bc,
                            n as int,
                            p as int,
                            prob@,
                            cc,
                            gsel,
                            s as int,
                            i as int,
                            j as int,
                        ),
                    decreases sel@.len() - s,
                {
                    let t = sel[s];
                    proof {
                        assert(as_ints(sel@)[s as int] == sel@[s as int] as int);
                    }
                    if prob[t] != 0 {
                        let pt = S::quot_of(CODE_ONE, S::prod_of(cc, prob[t]));
                        assert(0 <= i * n + t < m * n && 0 <= t * p + j < n * p)
                            by (nonlinear_arith)
                            requires
                                0 <= (i as int) < m,
                                0 <= (t as int) < n,
                                0 <= (j as int) < p,
                        ;
                        let term = S::prod_of(
                            S::prod_of(pt, self.data[i * self.cols + t]),
                            other.data[t * other.cols + j],
                        );
                        acc = S::sum_of(acc, term);
                    }
                    s = s + 1;
                }
                data.push(acc);
                assert forall|i2: int, j2: int|
                    0 <= i2 < i && 0 <= j2 < p implies data@[i2 * p + j2] == rm_cell::<S>(
                    ac,
                    bc,
                    m as int,
                    n as int,
                    p as int,
                    factor,
                    i2,
                    j2,
                ) by {
                    assert(0 <= i2 * p + j2 && i2 * p + j2 + 1 <= (i2 + 1) * p <= i * p)
                        by (nonlinear_arith)
                        requires
                            0 <= i2 < i,
                            0 <= j2 < p,
                    ;
                }
                j = j + 1;
            }
            assert(i * p + p == (i + 1) * p) by (nonlinear_arith);
            assert forall|i2: int, j2: int|
                0 <= i2 < i + 1 && 0 <= j2 < p implies data@[i2 * p + j2] == rm_cell::<S>(
                ac,
                bc,
                m as int,
                n as int,
                p as int,
                factor,
                i2,
                j2,
            ) by {
                assert(0 <= i2 * p + j2 && i2 * p + j2 + 1 <= (i2 + 1) * p <= (i + 1) * p)
                    by (nonlinear_arith)
                    requires
                        0 <= i2 < i + 1,
                        0 <= j2 < p,
                ;
            }
            i = i + 1;
        }
        let mat = Matrix { data, rows: m, cols: p };
        proof {
            assert forall|i2: int, j2: int|
                0 <= i2 < mat.spec_rows() && 0 <= j2 < mat.spec_cols() implies mat.cell(i2, j2)
                == rm_cell::<S>(ac, bc, m as int, n as int, p as int, factor, i2, j2) by {
                assert(0 <= i2 * p + j2 < m * p) by (nonlinear_arith)
                    requires
                        0 <= i2 < m,
                        0 <= j2 < p,
                ;
            }
        }
        Ok(mat)
    }
}

/// The number of `false` entries of a flag sequence.
pub open spec fn false_count(s: Seq<bool>) -> nat
    decreases s.len(),
{
    if s.len() == 0 {
        0
    } else {
        false_count(s.drop_last()) + if s.last() {
            0nat
        } else {
            1nat
        }
    }
}

/// A fresh flag sequence of `n` entries, none taken yet.
pub open spec fn all_unused(n: nat) -> Seq<bool> {
    Seq::new(n, |j: int| false)
}

proof fn lemma_false_count_blank(n: nat)
    ensures
        false_count(all_unused(n)) == n,
    decreases n,
{
    if n > 0 {
        assert(all_unused(n).drop_last() =~= all_unused((n - 1) as nat));
        lemma_false_count_blank((n - 1) as nat);
    }
}

proof fn lemma_false_count_all_used(s: Seq<bool>)
    requires
        forall|j: int| 0 <= j < s.len() ==> s[j],
    ensures
        false_count(s) == 0,
    decreases s.len(),
{
    if s.len() > 0 {
        lemma_false_count_all_used(s.drop_last());
    }
}

proof fn lemma_false_count_update(s: Seq<bool>, j: int)
    requires
        0 <= j < s.len(),
        !s[j],
    ensures
        false_count(s.update(j, true)) == false_count(s) - 1,
    decreases s.len(),
{
    if j == s.len() - 1 {
        assert(s.update(j, true).drop_last() =~= s.drop_last());
    } else {
        assert(s.update(j, true).drop_last() =~= s.drop_last().update(j, true));
        lemma_false_count_update(s.drop_last(), j);
    }
}

/// The scan for the strongest untaken index, from position `j` on, with the
/// best candidate so far (`-1` for none): a later index wins only with a
/// strictly larger value, so the leftmost maximum is kept.
pub open spec fn best_from(x: Seq<u32>, used: Seq<bool>, j: int, cur: int) -> int
    decreases x.len() - j,
{
    if j < 0 || j >= x.len() {
        cur
    } else {
        let cur2 = if !used[j] && (cur == -1 || x[j] > x[cur]) {
            j
        } else {
            cur
        };
        best_from(x, used, j + 1, cur2)
    }
}

proof fn lemma_best_from(x: Seq<u32>, used: Seq<bool>, j: int, cur: int)
    requires
        used.len() == x.len(),
        -1 <= cur < x.len(),
        cur >= 0 ==> !used[cur],
        0 <= j,
    ensures
        ({
            let r = best_from(x, used, j, cur);
            &&& -1 <= r < x.len()
            &&& (r == -1 ==> cur == -1 && forall|jj: int| j <= jj < x.len() ==> used[jj])
            &&& (r >= 0 ==> 0 <= r < x.len() && !used[r])
            &&& (r >= 0 ==> forall|jj: int|
                j <= jj < x.len() && !used[jj] ==> x[jj] <= x[r])
            &&& (cur >= 0 ==> r >= 0 && x[cur] <= x[r])
        }),
    decreases x.len() - j,
{
    if j < x.len() {
        let cur2 = if !used[j] && (cur == -1 || x[j] > x[cur]) {
            j
        } else {
            cur
        };
        lemma_best_from(x, used, j + 1, cur2);
    }
}

/// The `count` indices picked one at a time, each scan taking the leftmost
/// untaken index with the largest value, then marking it taken.
pub open spec fn select_from(x: Seq<u32>, used: Seq<bool>, count: int) -> Seq<int>
    decreases count,
{
    if count <= 0 {
        Seq::empty()
    } else {
        let b = best_from(x, used, 0, -1);
        if b < 0 {
            Seq::empty()
        } else {
            seq![b] + select_from(x, used.update(b, true), count - 1)
        }
    }
}

/// The indices of the `c` largest entries of `x`, in pick order (descending
/// value, leftmost first among equals).
pub open spec fn spec_selection(x: Seq<u32>, c: int) -> Seq<int> {
    select_from(x, all_unused(x.len()), c)
}

proof fn lemma_select_from(x: Seq<u32>, used: Seq<bool>, count: int)
    requires
        used.len() == x.len(),
        0 <= count <= false_count(used),
    ensures
        ({
            let sel = select_from(x, used, count);
            &&& sel.len() == count
            &&& forall|t: int| 0 <= t < count ==> 0 <= #[trigger] sel[t] < x.len() && !used[sel[t]]
            &&& forall|t1: int, t2: int| 0 <= t1 < t2 < count ==> sel[t1] != sel[t2]
        }),
    decreases count,
{
    if count > 0 {
        let b = best_from(x, used, 0, -1);
        lemma_best_from(x, used, 0, -1);
        if b == -1 {
            lemma_false_count_all_used(used);
            assert(false);
        }
        lemma_false_count_update(used, b);
        lemma_select_from(x, used.update(b, true), count - 1);
        let sel = select_from(x, used, count);
        let rest = select_from(x, used.update(b, true), count - 1);
        assert forall|t: int| 0 <= t < count implies 0 <= #[trigger] sel[t] < x.len()
            && !used[sel[t]] by {
            if t > 0 {
                assert(sel[t] == rest[t - 1]);
            }
        }
        assert forall|t1: int, t2: int| 0 <= t1 < t2 < count implies sel[t1] != sel[t2] by {
            assert(sel[t2] == rest[t2 - 1]);
            if t1 > 0 {
                assert(sel[t1] == rest[t1 - 1]);
            }
        }
    }
}

proof fn lemma_select_from_dominates(x: Seq<u32>, used: Seq<bool>, count: int)
    requires
        used.len() == x.len(),
        0 <= count <= false_count(used),
    ensures
        ({
            let sel = select_from(x, used, count);
            &&& forall|t1: int, t2: int|
                0 <= t1 <= t2 < count ==> x[sel[t2]] <= x[sel[t1]]
            &&& forall|t: int, u: int|
                0 <= t < count && 0 <= u < x.len() && !used[u] && (forall|t2: int|
                    0 <= t2 < count ==> sel[t2] != u) ==> #[trigger] x[u] <= x[#[trigger] sel[t]]
        }),
    decreases count,
{
    lemma_select_from(x, used, count);
    if count > 0 {
        let b = best_from(x, used, 0, -1);
        lemma_best_from(x, used, 0, -1);
        lemma_false_count_update(used, b);
        let used2 = used.update(b, true);
        lemma_select_from(x, used2, count - 1);
        lemma_select_from_dominates(x, used2, count - 1);
        let sel = select_from(x, used, count);
        let rest = select_from(x, used2, count - 1);
        assert forall|t1: int, t2: int|
            0 <= t1 <= t2 < count implies x[sel[t2]] <= x[sel[t1]] by {
            if t2 > 0 {
                assert(sel[t2] == rest[t2 - 1]);
                assert(!used2[rest[t2 - 1]]);
                if t1 == 0 {
                    assert(x[rest[t2 - 1]] <= x[b]);
                } else {
                    assert(sel[t1] == rest[t1 - 1]);
                }
            }
        }
        assert forall|t: int, u: int|
            0 <= t < count && 0 <= u < x.len() && !used[u] && (forall|t2: int|
                0 <= t2 < count ==> sel[t2] != u) implies #[trigger] x[u] <= x[
            #[trigger] sel[t]] by {
            assert(sel[0] == b);
            assert(u != b);
            assert(!used2[u]);
            if t == 0 {
                assert(x[u] <= x[b]);
            } else {
                assert(sel[t] == rest[t - 1]);
                assert(forall|t2: int| 0 <= t2 < count - 1 ==> rest[t2] != u) by {
                    assert(forall|t2: int| 0 <= t2 < count - 1 ==> rest[t2] == sel[t2 + 1]);
                }
                assert(x[u] <= x[rest[t - 1]]);
            }
        }
    }
}

/// What the selection keeps: the picked values descend, and every value left
/// unpicked is at most every picked one — the selection really is the top
/// `c` by value.
pub proof fn lemma_selection_dominates(x: Seq<u32>, c: int)
    requires
        0 <= c <= x.len(),
    ensures
        ({
            let sel = spec_selection(x, c);
            &&& forall|t1: int, t2: int|
                0 <= t1 <= t2 < c ==> x[sel[t2]] <= x[sel[t1]]
            &&& forall|t: int, u: int|
                0 <= t < c && 0 <= u < x.len() && (forall|t2: int| 0 <= t2 < c ==> sel[t2] != u)
                    ==> #[trigger] x[u] <= x[#[trigger] sel[t]]
        }),
{
    lemma_false_count_blank(x.len());
    lemma_select_from_dominates(x, all_unused(x.len()), c);
}

/// What the selection yields: `c` pairwise-distinct indices of `x`.
pub proof fn lemma_selection_props(x: Seq<u32>, c: int)
    requires
        0 <= c <= x.len(),
    ensures
        ({
            let sel = spec_selection(x, c);
            &&& sel.len() == c
            &&& forall|t: int| 0 <= t < c ==> 0 <= #[trigger] sel[t] < x.len()
            &&& sel.no_duplicates()
        }),
{
    lemma_false_count_blank(x.len());
    lemma_select_from(x, all_unused(x.len()), c);
    let sel = spec_selection(x, c);
    assert forall|t1: int, t2: int|
        0 <= t1 < sel.len() && 0 <= t2 < sel.len() && t1 != t2 implies sel[t1] != sel[t2] by {
        if t1 < t2 {
            assert(sel[t1] != sel[t2]);
        } else {
            assert(sel[t2] != sel[t1]);
        }
    }
}

/// The `usize` entries of a sequence, as mathematical integers.
pub open spec fn as_ints(s: Seq<usize>) -> Seq<int> {
    s.map_values(|v: usize| v as int)
}

/// The indices of the `c` entries of `x` with the largest values, picked one
/// scan at a time: descending value, ties to the leftmost.  A zero entry can
/// be picked only once every strictly positive entry has been.
pub fn indices(x: &[u32], c: usize) -> (r: Vec<usize>)
    requires
        c <= x@.len(),
    ensures
        r@.len() == c,
        as_ints(r@) == spec_selection(x@, c as int),
        forall|t: int| 0 <= t < c ==> (#[trigger] r@[t]) < x@.len(),
        forall|t1: int, t2: int| 0 <= t1 < t2 < c ==> r@[t1] != r@[t2],
{
    let n = x.len();
    let mut used: Vec<bool> = Vec::new();
    let mut f: usize = 0;
    while f < n
        invariant
            f <= n,
            used@.len() == f,
            forall|j: int| 0 <= j < f ==> !used@[j],
        decreases n - f,
    {
        used.push(false);
        f = f + 1;
    }
    proof {
        assert(used@ =~= all_unused(n as nat));
        lemma_false_count_blank(n as nat);
        lemma_select_from(x@, used@, c as int);
    }
    let mut sel: Vec<usize> = Vec::new();
    let mut t: usize = 0;
    while t < c
        invariant
            t <= c,
            c <= n,
            n == x@.len(),
            used@.len() == n,
            sel@.len() == t,
            c - t <= false_count(used@),
            as_ints(sel@) + select_from(x@, used@, c - t) == spec_selection(x@, c as int),
            forall|t0: int| 0 <= t0 < t ==> (#[trigger] sel@[t0]) < n && used@[sel@[t0] as int],
        decreases c - t,
    {
        let mut best: usize = 0;
        let mut found: bool = false;
        let mut j: usize = 0;
        while j < n
            invariant
                j <= n,
                n == x@.len(),
                used@.len() == n,
                found ==> best < n && !used@[best as int],
                best_from(x@, used@, j as int, if found {
                    best as int
                } else {
                    -1
                }) == best_from(x@, used@, 0, -1),
            decreases n - j,
        {
            if !used[j] && (!found || x[j] > x[best]) {
                best = j;
                found = true;
            }
            j = j + 1;
        }
        proof {
            lemma_best_from(x@, used@, 0, -1);
            if !found {
                lemma_false_count_all_used(used@);
                assert(false);
            }
            lemma_false_count_update(used@, best as int);
        }
        let ghost old_used = used@;
        let ghost old_sel = sel@;
        used.set(best, true);
        sel.push(best);
        proof {
            lemma_select_from(x@, used@, (c - t - 1) as int);
            assert(select_from(x@, old_used, c - t) == seq![best as int] + select_from(
                x@,
                used@,
                c - t - 1,
            ));
            assert(as_ints(sel@) =~= as_ints(old_sel) + seq![best as int]);
            assert(as_ints(sel@) + select_from(x@, used@, c - t - 1) =~= as_ints(old_sel) + (seq![
                best as int,
            ] + select_from(x@, used@, c - t - 1)));
        }
        t = t + 1;
    }
    proof {
        assert(as_ints(sel@) + select_from(x@, used@, 0) =~= as_ints(sel@));
        lemma_select_from(x@, all_unused(n as nat), c as int);
        assert forall|t0: int| 0 <= t0 < c implies (#[trigger] sel@[t0]) < x@.len() by {
            assert(as_ints(sel@)[t0] == sel@[t0] as int);
        }
        assert forall|t1: int, t2: int| 0 <= t1 < t2 < c implies sel@[t1] != sel@[t2] by {
            assert(as_ints(sel@)[t1] == sel@[t1] as int);
            assert(as_ints(sel@)[t2] == sel@[t2] as int);
        }
    }
    sel
}

/// Whether a factor code lies in the unit interval: non-negative (either
/// zero's bit pattern) and at most one.
pub open spec fn valid_factor(fac: u32) -> bool {
    fac == 0x8000_0000 || fac <= CODE_ONE
}

/// The number of rank-one terms kept for a factor code `f`:
/// `min(ceil(n * f), n)`, computed exactly from the factor's bit pattern.
/// A factor below `2^-64` keeps a single term: the exact ceiling for any
/// machine-sized `n`.
pub open spec fn term_count(n: nat, fac: u32) -> nat {
    if fac == 0 || fac == 0x8000_0000 || n == 0 {
        0
    } else if fac == CODE_ONE {
        n
    } else {
        let e = fac >> 23;
        if e <= 62 {
            1
        } else {
            let mant = (fac & 0x7F_FFFF) | 0x80_0000;
            let two = (1u64 << ((126 - e) as u32)) as int * 0x100_0000;
            let q = n * mant;
            let c = (q + two - 1) / two;
            if c > n {
                n
            } else {
                c as nat
            }
        }
    }
}

/// Computes `min(ceil(n * f), n)` for a factor code in the unit interval.
fn count_terms(n: usize, fac: u32) -> (c: usize)
    requires
        valid_factor(fac),
    ensures
        c == term_count(n as nat, fac),
        c <= n,
{
    if fac == 0 || fac == 0x8000_0000 || n == 0 {
        0
    } else if fac == CODE_ONE {
        n
    } else {
        let e = fac >> 23;
        if e <= 62 {
            assert(term_count(n as nat, fac) == 1);
            1
        } else {
            assert(e <= 126) by (bit_vector)
                requires
                    fac < 0x3F80_0000u32 && e == fac >> 23,
            ;
            let mant = (fac & 0x7F_FFFF) | 0x80_0000;
            assert(mant <= 0xFF_FFFFu32) by (bit_vector)
                requires
                    mant == (fac & 0x7F_FFFF) | 0x80_0000,
            ;
            let sh = (126 - e) as u32;
            let base = 1u64 << sh;
            assert(1u64 << sh >= 1) by (bit_vector)
                requires
                    sh <= 63u32,
            ;
            let two = base as u128 * 0x100_0000;
            assert((n as int) * (mant as int) <= 0xFFFF_FFFF_FFFF_FFFF * 0x100_0000)
                by (nonlinear_arith)
                requires
                    0 <= (n as int) <= 0xFFFF_FFFF_FFFF_FFFF,
                    0 <= (mant as int) <= 0x100_0000,
            ;
            let q = n as u128 * mant as u128;
            let c = (q + two - 1) / two;
            if c > n as u128 {
                n
            } else {
                c as usize
            }
        }
    }
}

/// The sum of squares of column `k` of an `m x n` matrix, over its first
/// `terms` rows, accumulated from zero in ascending row order.
pub open spec fn col_sumsq<S: ScalarOps>(a: Seq<u32>, n: int, k: int, terms: int) -> u32
    decreases terms,
{
    if terms <= 0 {
        0u32
    } else {
        S::spec_sum(
            col_sumsq::<S>(a, n, k, terms - 1),
            S::spec_prod(a[(terms - 1) * n + k], a[(terms - 1) * n + k]),
        )
    }
}

/// The sum of squares of row `k` of an `n x p` matrix, over its first
/// `terms` columns, accumulated from zero in ascending column order.
pub open spec fn row_sumsq<S: ScalarOps>(b: Seq<u32>, p: int, k: int, terms: int) -> u32
    decreases terms,
{
    if terms <= 0 {
        0u32
    } else {
        S::spec_sum(
            row_sumsq::<S>(b, p, k, terms - 1),
            S::spec_prod(b[k * p + (terms - 1)], b[k * p + (terms - 1)]),
        )
    }
}

/// The Euclidean norms of the `n` columns of an `m x n` matrix.
pub open spec fn col_norms<S: ScalarOps>(a: Seq<u32>, m: int, n: int) -> Seq<u32> {
    Seq::new(n as nat, |k: int| S::spec_root(col_sumsq::<S>(a, n, k, m)))
}

/// The Euclidean norms of the `n` rows of an `n x p` matrix.
pub open spec fn row_norms<S: ScalarOps>(b: Seq<u32>, n: int, p: int) -> Seq<u32> {
    Seq::new(n as nat, |k: int| S::spec_root(row_sumsq::<S>(b, p, k, p)))
}

/// The importance weight of each shared index `k`: the product of column
/// norm of `a` and row norm of `b`, divided by the inner product of the two
/// norm vectors, so that the weights sum to one up to rounding.
pub open spec fn importance<S: ScalarOps>(a: Seq<u32>, b: Seq<u32>, m: int, n: int, p: int) -> Seq<
    u32,
> {
    let na = col_norms::<S>(a, m, n);
    let nb = row_norms::<S>(b, n, p);
    let s = crate::math::spec_inner_product::<S>(na, nb, 0u32, n);
    Seq::new(n as nat, |k: int| S::spec_quot(S::spec_prod(na[k], nb[k]), s))
}

/// Output cell `(i, j)` of the randomized product after folding in the first
/// `upto` selected rank-one terms, each rescaled by the inverse of `count`
/// times its weight; a term of zero weight is never applied.
pub open spec fn rm_accum<S: ScalarOps>(
    a: Seq<u32>,
    b: Seq<u32>,
    n: int,
    p: int,
    prob: Seq<u32>,
    cc: u32,
    sel: Seq<int>,
    upto: int,
    i: int,
    j: int,
) -> u32
    decreases upto,
{
    if upto <= 0 {
        0u32
    } else {
        let prev = rm_accum::<S>(a, b, n, p, prob, cc, sel, upto - 1, i, j);
        let t = sel[upto - 1];
        if prob[t] == 0 {
            prev
        } else {
            let pt = S::spec_quot(CODE_ONE, S::spec_prod(cc, prob[t]));
            S::spec_sum(prev, S::spec_prod(S::spec_prod(pt, a[i * n + t]), b[t * p + j]))
        }
    }
}

/// Output cell `(i, j)` of the whole randomized product for a factor code:
/// importance weights from the norms, the top `term_count` weights selected,
/// and the selected rank-one terms accumulated with inverse-probability
/// rescaling.
pub open spec fn rm_cell<S: ScalarOps>(
    a: Seq<u32>,
    b: Seq<u32>,
    m: int,
    n: int,
    p: int,
    fac: u32,
    i: int,
    j: int,
) -> u32 {
    let prob = importance::<S>(a, b, m, n, p);
    let c = term_count(n as nat, fac);
    let sel = spec_selection(prob, c as int);
    rm_accum::<S>(a, b, n, p, prob, crate::sampler::count_code(c as u64), sel, sel.len() as int, i, j)
}

impl PartialEq for Matrix {
    /// Structural equality: same shape and identical code sequence.
    fn eq(&self, other: &Matrix) -> (r: bool) {
        if self.rows != other.rows || self.cols != other.cols {
            return false;
        }
        if self.data.len() != other.data.len() {
            return false;
        }
        let total = self.data.len();
        let mut c: usize = 0;
        while c < total
            invariant
                c <= total,
                total == self.cells().len(),
                self.cells().len() == other.cells().len(),
                forall|c2: int| 0 <= c2 < c ==> self.cells()[c2] == other.cells()[c2],
            decreases total - c,
        {
            if self.data[c] != other.data[c] {
                return false;
            }
            c = c + 1;
        }
        proof {
            assert(self.cells() =~= other.cells());
        }
        true
    }
}

impl Clone for Matrix {
    /// A deep copy: same shape, identical cell codes.
    fn clone(&self) -> (r: Matrix)
        ensures
            r.cells() == self.cells(),
            r.spec_rows() == self.spec_rows(),
            r.spec_cols() == self.spec_cols(),
    {
        let total = self.data.len();
        let mut data: Vec<u32> = Vec::new();
        let mut c: usize = 0;
        while c < total
            invariant
                c <= total,
                total == self.cells().len(),
                data@.len() == c,
                forall|c2: int| 0 <= c2 < c ==> data@[c2] == self.cells()[c2],
            decreases total - c,
        {
            data.push(self.data[c]);
            c = c + 1;
        }
        proof {
            assert(data@ =~= self.cells());
        }
        Matrix { data, rows: self.rows, cols: self.cols }
    }
}

impl vstd::std_specs::cmp::PartialEqSpecImpl for Matrix {
    open spec fn obeys_eq_spec() -> bool {
        true
    }

    open spec fn eq_spec(&self, other: &Matrix) -> bool {
        self.spec_rows() == other.spec_rows() && self.spec_cols() == other.spec_cols()
            && self.cells() == other.cells()
    }
}

} // verus!
