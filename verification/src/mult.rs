//! The multiplication kernels: the naive triple loop, the transpose-based
//! variant with friendlier memory access, and Strassen's recursive
//! divide-and-conquer algorithm, together with the quadrant helpers the
//! latter is built from.
//!
//! Every kernel meets the same contract: the result is the `a.rows × a.rows`
//! matrix whose entry `(i, j)` is the wrap-around of the dot product of row
//! `i` of `a` and column `j` of `b`, summed over `a.cols` terms. Operand
//! compatibility is validated as `a.rows == b.cols`, the convention callers
//! of this library arrange for (the right operand is shaped so that its
//! column count matches the left operand's row count).

use vstd::prelude::*;
use crate::arith::{
    csum, lemma_csum_combine2, lemma_csum_combine4, lemma_csum_pointwise, lemma_csum_split,
    lemma_csum_wrap_eq, lemma_csum_zero, lemma_wrap_eq_add, lemma_wrap_eq_mul, lemma_wrap_eq_sub,
    lemma_wrap_eq_wrap, lemma_wrap_id, lemma_wrap_range, wadd, wmul, wrap, wrap_eq, wsub,
};
use crate::matrix::{
    is_transpose, lemma_rm_index, lemma_rm_index_decomp, Matrix, MatrixError,
};

verus! {

/// Default side length at or below which Strassen recursion falls back to the
/// transpose kernel.
pub const STRASSEN_BASE: usize = 64;

/// The integrand of the dot product behind entry `(i, j)` of a product: the
/// function `t ↦ a[i, t] * b[t, j]`, reading rows of `b` at or beyond its
/// height as zero.
pub open spec fn prod_term(a: Matrix, b: Matrix, i: int, j: int) -> spec_fn(int) -> int {
    |t: int| a.val(i, t) * b.valz(t, j)
}

/// The exact (unwrapped) dot product of row `i` of `a` against column `j` of
/// `b` over the first `k` terms.
pub open spec fn prod_sum(a: Matrix, b: Matrix, i: int, j: int, k: int) -> int {
    csum(k, prod_term(a, b, i, j))
}

/// `c` is the product of `a` and `b`: an `a.rows × a.rows` matrix whose entry
/// `(i, j)` is the wrap-around of the dot product of row `i` of `a` and
/// column `j` of `b`, summed over `a.cols` terms.
pub open spec fn is_product(a: Matrix, b: Matrix, c: Matrix) -> bool {
    &&& c.wf()
    &&& c.rows == a.rows
    &&& c.cols == a.rows
    &&& forall|i: int, j: int|
        #![trigger c.val(i, j)]
        0 <= i < c.rows && 0 <= j < c.cols ==> c.val(i, j) == wrap(
            prod_sum(a, b, i, j, a.cols as int),
        )
}

/// The product predicate determines its result uniquely: any two matrices
/// that are both products of the same operands are equal, dimensions and
/// element buffer alike. All multiplication algorithms of this crate ensure
/// that predicate, so all of them return the same matrix on the same
/// operands.
pub proof fn lemma_product_unique(a: Matrix, b: Matrix, c: Matrix, d: Matrix)
    requires
        a.wf(),
        b.wf(),
        is_product(a, b, c),
        is_product(a, b, d),
    ensures
        c.rows == d.rows,
        c.cols == d.cols,
        c.n == d.n,
        c.array@ == d.array@,
{
    assert forall|idx: int| 0 <= idx < c.array@.len() implies c.array@[idx] == d.array@[idx] by {
        lemma_rm_index_decomp(c.rows as int, c.cols as int, idx);
        let i = idx / (c.cols as int);
        let j = idx % (c.cols as int);
        assert(c.val(i, j) == d.val(i, j));
    }
    assert(c.array@ =~= d.array@);
}

/// Triple-loop multiplication core, shared by the checked entry points.
/// Computes each result entry as a left-to-right wrapped summation.
fn naive_kernel(a: &Matrix, b: &Matrix) -> (c: Matrix)
    requires
        a.wf(),
        b.wf(),
        a.cols <= b.rows,
        a.rows == b.cols,
        (a.rows as int) * (a.rows as int) <= usize::MAX as int,
    ensures
        is_product(*a, *b, c),
{
    let m = a.rows;
    let n = a.cols;
    let mut v: Vec<i64> = Vec::new();
    let mut i: usize = 0;
    while i < m
        invariant
            a.wf(),
            b.wf(),
            a.cols <= b.rows,
            a.rows == b.cols,
            m == a.rows,
            n == a.cols,
            (m as int) * (m as int) <= usize::MAX as int,
            i <= m,
            v@.len() == i * (m as int),
            forall|r0: int, c0: int|
                #![trigger v@[r0 * (m as int) + c0]]
                0 <= r0 < i && 0 <= c0 < m ==> v@[r0 * (m as int) + c0] as int == wrap(
                    prod_sum(*a, *b, r0, c0, n as int),
                ),
        decreases m - i,
    {
        let mut j: usize = 0;
        while j < m
            invariant
                a.wf(),
                b.wf(),
                a.cols <= b.rows,
                a.rows == b.cols,
                m == a.rows,
                n == a.cols,
                (m as int) * (m as int) <= usize::MAX as int,
                i < m,
                j <= m,
                v@.len() == i * (m as int) + j,
                forall|r0: int, c0: int|
                    #![trigger v@[r0 * (m as int) + c0]]
                    0 <= r0 < i && 0 <= c0 < m ==> v@[r0 * (m as int) + c0] as int == wrap(
                        prod_sum(*a, *b, r0, c0, n as int),
                    ),
                forall|c0: int|
                    #![trigger v@[i * (m as int) + c0]]
                    0 <= c0 < j ==> v@[i * (m as int) + c0] as int == wrap(
                        prod_sum(*a, *b, i as int, c0, n as int),
                    ),
            decreases m - j,
        {
            let mut sum: i64 = 0;
            proof {
                lemma_wrap_id(0);
            }
            let mut kk: usize = 0;
            while kk < n
                invariant
                    a.wf(),
                    b.wf(),
                    a.cols <= b.rows,
                    a.rows == b.cols,
                    m == a.rows,
                    n == a.cols,
                    i < m,
                    j < m,
                    kk <= n,
                    sum as int == wrap(prod_sum(*a, *b, i as int, j as int, kk as int)),
                decreases n - kk,
            {
                let av = a.at(i, kk);
                let bv = b.at(kk, j);
                let term = wmul(av, bv);
                let ghost s_old = prod_sum(*a, *b, i as int, j as int, kk as int);
                let ghost p = (av as int) * (bv as int);
                sum = wadd(sum, term);
                proof {
                    lemma_wrap_range(s_old);
                    lemma_wrap_range(p);
                    lemma_wrap_eq_add(wrap(s_old), s_old, wrap(p), p);
                    lemma_wrap_eq_wrap(wrap(s_old) + wrap(p), s_old + p);
                    assert(prod_term(*a, *b, i as int, j as int)(kk as int) == p);
                    assert(prod_sum(*a, *b, i as int, j as int, kk as int + 1) == s_old + p);
                }
                kk = kk + 1;
            }
            proof {
                lemma_rm_index(m as int, m as int, i as int, j as int);
            }
            let ghost v0 = v@;
            v.push(sum);
            proof {
                assert forall|r0: int, c0: int|
                    0 <= r0 < i && 0 <= c0 < m implies #[trigger] v@[r0 * (m as int) + c0] == v0[r0
                    * (m as int) + c0] by {
                    lemma_rm_index(i as int, m as int, r0, c0);
                }
            }
            j = j + 1;
        }
        proof {
            assert((i as int + 1) * (m as int) == i as int * (m as int) + (
            m as int)) by (nonlinear_arith);
        }
        i = i + 1;
    }
    let c = Matrix { rows: m, cols: m, n: m * m, array: v };
    proof {
        assert forall|i0: int, j0: int|
            0 <= i0 < m && 0 <= j0 < m implies #[trigger] c.val(i0, j0) == wrap(
            prod_sum(*a, *b, i0, j0, a.cols as int),
        ) by {
            lemma_rm_index(m as int, m as int, i0, j0);
        }
    }
    c
}

/// Naive multiplication: three nested loops, `O(n^3)`. Fails with
/// `DimensionMismatch` when `a.rows != b.cols`.
pub fn mult_naive(a: &Matrix, b: &Matrix) -> (r: Result<Matrix, MatrixError>)
    requires
        a.wf(),
        b.wf(),
        a.cols <= b.rows,
        (a.rows as int) * (a.rows as int) <= usize::MAX as int,
    ensures
        match r {
            Ok(c) => a.rows == b.cols && is_product(*a, *b, c),
            Err(e) => e == MatrixError::DimensionMismatch,
        },
        r is Err <==> a.rows != b.cols,
{
    if a.rows == b.cols {
        Ok(naive_kernel(a, b))
    } else {
        Err(MatrixError::DimensionMismatch)
    }
}

/// Transpose-based multiplication core: transposes `b` first so that both
/// inner-loop reads walk memory contiguously. A pure performance variant of
/// the naive kernel with identical results.
pub(crate) fn transpose_kernel(a: &Matrix, b: &Matrix) -> (c: Matrix)
    requires
        a.wf(),
        b.wf(),
        a.cols <= b.rows,
        a.rows == b.cols,
        (a.rows as int) * (a.rows as int) <= usize::MAX as int,
    ensures
        is_product(*a, *b, c),
{
    let m = a.rows;
    let n = a.cols;
    let t = b.transpose();
    let mut v: Vec<i64> = Vec::new();
    let mut i: usize = 0;
    while i < m
        invariant
            a.wf(),
            b.wf(),
            a.cols <= b.rows,
            a.rows == b.cols,
            m == a.rows,
            n == a.cols,
            (m as int) * (m as int) <= usize::MAX as int,
            is_transpose(*b, t),
            i <= m,
            v@.len() == i * (m as int),
            forall|r0: int, c0: int|
                #![trigger v@[r0 * (m as int) + c0]]
                0 <= r0 < i && 0 <= c0 < m ==> v@[r0 * (m as int) + c0] as int == wrap(
                    prod_sum(*a, *b, r0, c0, n as int),
                ),
        decreases m - i,
    {
        let mut j: usize = 0;
        while j < m
            invariant
                a.wf(),
                b.wf(),
                a.cols <= b.rows,
                a.rows == b.cols,
                m == a.rows,
                n == a.cols,
                (m as int) * (m as int) <= usize::MAX as int,
                is_transpose(*b, t),
                i < m,
                j <= m,
                v@.len() == i * (m as int) + j,
                forall|r0: int, c0: int|
                    #![trigger v@[r0 * (m as int) + c0]]
                    0 <= r0 < i && 0 <= c0 < m ==> v@[r0 * (m as int) + c0] as int == wrap(
                        prod_sum(*a, *b, r0, c0, n as int),
                    ),
                forall|c0: int|
                    #![trigger v@[i * (m as int) + c0]]
                    0 <= c0 < j ==> v@[i * (m as int) + c0] as int == wrap(
                        prod_sum(*a, *b, i as int, c0, n as int),
                    ),
            decreases m - j,
        {
            let mut sum: i64 = 0;
            proof {
                lemma_wrap_id(0);
            }
            let mut kk: usize = 0;
            while kk < n
                invariant
                    a.wf(),
                    b.wf(),
                    a.cols <= b.rows,
                    a.rows == b.cols,
                    m == a.rows,
                    n == a.cols,
                    is_transpose(*b, t),
                    i < m,
                    j < m,
                    kk <= n,
                    sum as int == wrap(prod_sum(*a, *b, i as int, j as int, kk as int)),
                decreases n - kk,
            {
                let av = a.at(i, kk);
                let bv = t.at(j, kk);
                let term = wmul(av, bv);
                let ghost s_old = prod_sum(*a, *b, i as int, j as int, kk as int);
                let ghost p = (av as int) * (bv as int);
                sum = wadd(sum, term);
                proof {
                    lemma_wrap_range(s_old);
                    lemma_wrap_range(p);
                    lemma_wrap_eq_add(wrap(s_old), s_old, wrap(p), p);
                    lemma_wrap_eq_wrap(wrap(s_old) + wrap(p), s_old + p);
                    assert(bv as int == b.val(kk as int, j as int));
                    assert(prod_term(*a, *b, i as int, j as int)(kk as int) == p);
                    assert(prod_sum(*a, *b, i as int, j as int, kk as int + 1) == s_old + p);
                }
                kk = kk + 1;
            }
            proof {
                lemma_rm_index(m as int, m as int, i as int, j as int);
            }
            let ghost v0 = v@;
            v.push(sum);
            proof {
                assert forall|r0: int, c0: int|
                    0 <= r0 < i && 0 <= c0 < m implies #[trigger] v@[r0 * (m as int) + c0] == v0[r0
                    * (m as int) + c0] by {
                    lemma_rm_index(i as int, m as int, r0, c0);
                }
            }
            j = j + 1;
        }
        proof {
            assert((i as int + 1) * (m as int) == i as int * (m as int) + (
            m as int)) by (nonlinear_arith);
        }
        i = i + 1;
    }
    let c = Matrix { rows: m, cols: m, n: m * m, array: v };
    proof {
        assert forall|i0: int, j0: int|
            0 <= i0 < m && 0 <= j0 < m implies #[trigger] c.val(i0, j0) == wrap(
            prod_sum(*a, *b, i0, j0, a.cols as int),
        ) by {
            lemma_rm_index(m as int, m as int, i0, j0);
        }
    }
    c
}

/// Variant of the naive multiplication that walks the transpose of `b` for
/// better memory locality; still `O(n^3)`, with identical results. Fails
/// with `DimensionMismatch` when `a.rows != b.cols`.
pub fn mult_transpose(a: &Matrix, b: &Matrix) -> (r: Result<Matrix, MatrixError>)
    requires
        a.wf(),
        b.wf(),
        a.cols <= b.rows,
        (a.rows as int) * (a.rows as int) <= usize::MAX as int,
    ensures
        match r {
            Ok(c) => a.rows == b.cols && is_product(*a, *b, c),
            Err(e) => e == MatrixError::DimensionMismatch,
        },
        r is Err <==> a.rows != b.cols,
{
    if a.rows == b.cols {
        Ok(transpose_kernel(a, b))
    } else {
        Err(MatrixError::DimensionMismatch)
    }
}

/// Appends to `c` the `m × m` element-wise wrapped sum of two `m × m`
/// quadrants of `a`, the first anchored at `(a_row_start, a_col_start)` and
/// the second at `(b_row_start, b_col_start)`.
pub fn submatrix_add(
    c: &mut Vec<i64>,
    a: &Matrix,
    a_row_start: usize,
    a_col_start: usize,
    b_row_start: usize,
    b_col_start: usize,
    m: usize,
)
    requires
        a.wf(),
        a_row_start + m <= a.rows,
        a_col_start + m <= a.cols,
        b_row_start + m <= a.rows,
        b_col_start + m <= a.cols,
        old(c)@.len() + (m as int) * (m as int) <= usize::MAX as int,
    ensures
        final(c)@.len() == old(c)@.len() + (m as int) * (m as int),
        forall|idx: int| 0 <= idx < old(c)@.len() ==> final(c)@[idx] == old(c)@[idx],
        forall|i: int, j: int|
            #![trigger final(c)@[old(c)@.len() + i * (m as int) + j]]
            0 <= i < m && 0 <= j < m ==> final(c)@[old(c)@.len() + i * (m as int) + j] as int
                == wrap(
                a.val(a_row_start + i, a_col_start + j) + a.val(b_row_start + i, b_col_start + j),
            ),
{
    let ghost base = c@.len() as int;
    let mut i: usize = 0;
    while i < m
        invariant
            a.wf(),
            a_row_start + m <= a.rows,
            a_col_start + m <= a.cols,
            b_row_start + m <= a.rows,
            b_col_start + m <= a.cols,
            base == old(c)@.len(),
            base + (m as int) * (m as int) <= usize::MAX as int,
            i <= m,
            c@.len() == base + i * (m as int),
            forall|idx: int| 0 <= idx < base ==> c@[idx] == old(c)@[idx],
            forall|r0: int, c0: int|
                #![trigger c@[base + r0 * (m as int) + c0]]
                0 <= r0 < i && 0 <= c0 < m ==> c@[base + r0 * (m as int) + c0] as int == wrap(
                    a.val(a_row_start + r0, a_col_start + c0) + a.val(
                        b_row_start + r0,
                        b_col_start + c0,
                    ),
                ),
        decreases m - i,
    {
        let mut j: usize = 0;
        while j < m
            invariant
                a.wf(),
                a_row_start + m <= a.rows,
                a_col_start + m <= a.cols,
                b_row_start + m <= a.rows,
                b_col_start + m <= a.cols,
                base == old(c)@.len(),
                base + (m as int) * (m as int) <= usize::MAX as int,
                i < m,
                j <= m,
                c@.len() == base + i * (m as int) + j,
                forall|idx: int| 0 <= idx < base ==> c@[idx] == old(c)@[idx],
                forall|r0: int, c0: int|
                    #![trigger c@[base + r0 * (m as int) + c0]]
                    0 <= r0 < i && 0 <= c0 < m ==> c@[base + r0 * (m as int) + c0] as int == wrap(
                        a.val(a_row_start + r0, a_col_start + c0) + a.val(
                            b_row_start + r0,
                            b_col_start + c0,
                        ),
                    ),
                forall|c0: int|
                    #![trigger c@[base + i * (m as int) + c0]]
                    0 <= c0 < j ==> c@[base + i * (m as int) + c0] as int == wrap(
                        a.val(a_row_start + i as int, a_col_start + c0) + a.val(
                            b_row_start + i as int,
                            b_col_start + c0,
                        ),
                    ),
            decreases m - j,
        {
            proof {
                lemma_rm_index(m as int, m as int, i as int, j as int);
            }
            let x = a.at(a_row_start + i, a_col_start + j);
            let y = a.at(b_row_start + i, b_col_start + j);
            let w = wadd(x, y);
            let ghost v0 = c@;
            c.push(w);
            proof {
                assert forall|r0: int, c0: int|
                    0 <= r0 < i && 0 <= c0 < m implies #[trigger] c@[base + r0 * (m as int) + c0]
                    == v0[base + r0 * (m as int) + c0] by {
                    lemma_rm_index(i as int, m as int, r0, c0);
                }
            }
            j = j + 1;
        }
        proof {
            assert((i as int + 1) * (m as int) == i as int * (m as int) + (
            m as int)) by (nonlinear_arith);
        }
        i = i + 1;
    }
}

/// Appends to `c` the `m × m` element-wise wrapped difference of two `m × m`
/// quadrants of `a` (first minus second).
pub fn submatrix_sub(
    c: &mut Vec<i64>,
    a: &Matrix,
    a_row_start: usize,
    a_col_start: usize,
    b_row_start: usize,
    b_col_start: usize,
    m: usize,
)
    requires
        a.wf(),
        a_row_start + m <= a.rows,
        a_col_start + m <= a.cols,
        b_row_start + m <= a.rows,
        b_col_start + m <= a.cols,
        old(c)@.len() + (m as int) * (m as int) <= usize::MAX as int,
    ensures
        final(c)@.len() == old(c)@.len() + (m as int) * (m as int),
        forall|idx: int| 0 <= idx < old(c)@.len() ==> final(c)@[idx] == old(c)@[idx],
        forall|i: int, j: int|
            #![trigger final(c)@[old(c)@.len() + i * (m as int) + j]]
            0 <= i < m && 0 <= j < m ==> final(c)@[old(c)@.len() + i * (m as int) + j] as int
                == wrap(
                a.val(a_row_start + i, a_col_start + j) - a.val(b_row_start + i, b_col_start + j),
            ),
{
    let ghost base = c@.len() as int;
    let mut i: usize = 0;
    while i < m
        invariant
            a.wf(),
            a_row_start + m <= a.rows,
            a_col_start + m <= a.cols,
            b_row_start + m <= a.rows,
            b_col_start + m <= a.cols,
            base == old(c)@.len(),
            base + (m as int) * (m as int) <= usize::MAX as int,
            i <= m,
            c@.len() == base + i * (m as int),
            forall|idx: int| 0 <= idx < base ==> c@[idx] == old(c)@[idx],
            forall|r0: int, c0: int|
                #![trigger c@[base + r0 * (m as int) + c0]]
                0 <= r0 < i && 0 <= c0 < m ==> c@[base + r0 * (m as int) + c0] as int == wrap(
                    a.val(a_row_start + r0, a_col_start + c0) - a.val(
                        b_row_start + r0,
                        b_col_start + c0,
                    ),
                ),
        decreases m - i,
    {
        let mut j: usize = 0;
        while j < m
            invariant
                a.wf(),
                a_row_start + m <= a.rows,
                a_col_start + m <= a.cols,
                b_row_start + m <= a.rows,
                b_col_start + m <= a.cols,
                base == old(c)@.len(),
                base + (m as int) * (m as int) <= usize::MAX as int,
                i < m,
                j <= m,
                c@.len() == base + i * (m as int) + j,
                forall|idx: int| 0 <= idx < base ==> c@[idx] == old(c)@[idx],
                forall|r0: int, c0: int|
                    #![trigger c@[base + r0 * (m as int) + c0]]
                    0 <= r0 < i && 0 <= c0 < m ==> c@[base + r0 * (m as int) + c0] as int == wrap(
                        a.val(a_row_start + r0, a_col_start + c0) - a.val(
                            b_row_start + r0,
                            b_col_start + c0,
                        ),
                    ),
                forall|c0: int|
                    #![trigger c@[base + i * (m as int) + c0]]
                    0 <= c0 < j ==> c@[base + i * (m as int) + c0] as int == wrap(
                        a.val(a_row_start + i as int, a_col_start + c0) - a.val(
                            b_row_start + i as int,
                            b_col_start + c0,
                        ),
                    ),
            decreases m - j,
        {
            proof {
                lemma_rm_index(m as int, m as int, i as int, j as int);
            }
            let x = a.at(a_row_start + i, a_col_start + j);
            let y = a.at(b_row_start + i, b_col_start + j);
            let ghost v0 = c@;
            c.push(wsub(x, y));
            proof {
                assert forall|r0: int, c0: int|
                    0 <= r0 < i && 0 <= c0 < m implies #[trigger] c@[base + r0 * (m as int) + c0]
                    == v0[base + r0 * (m as int) + c0] by {
                    lemma_rm_index(i as int, m as int, r0, c0);
                }
            }
            j = j + 1;
        }
        proof {
            assert((i as int + 1) * (m as int) == i as int * (m as int) + (
            m as int)) by (nonlinear_arith);
        }
        i = i + 1;
    }
}

/// Appends to `c` a copy of the `m × m` quadrant of `a` anchored at
/// `(a_row_start, a_col_start)`.
pub fn submatrix_cpy(c: &mut Vec<i64>, a: &Matrix, a_row_start: usize, a_col_start: usize, m: usize)
    requires
        a.wf(),
        a_row_start + m <= a.rows,
        a_col_start + m <= a.cols,
        old(c)@.len() + (m as int) * (m as int) <= usize::MAX as int,
    ensures
        final(c)@.len() == old(c)@.len() + (m as int) * (m as int),
        forall|idx: int| 0 <= idx < old(c)@.len() ==> final(c)@[idx] == old(c)@[idx],
        forall|i: int, j: int|
            #![trigger final(c)@[old(c)@.len() + i * (m as int) + j]]
            0 <= i < m && 0 <= j < m ==> final(c)@[old(c)@.len() + i * (m as int) + j] as int
                == a.val(a_row_start + i, a_col_start + j),
{
    let ghost base = c@.len() as int;
    let mut i: usize = 0;
    while i < m
        invariant
            a.wf(),
            a_row_start + m <= a.rows,
            a_col_start + m <= a.cols,
            base == old(c)@.len(),
            base + (m as int) * (m as int) <= usize::MAX as int,
            i <= m,
            c@.len() == base + i * (m as int),
            forall|idx: int| 0 <= idx < base ==> c@[idx] == old(c)@[idx],
            forall|r0: int, c0: int|
                #![trigger c@[base + r0 * (m as int) + c0]]
                0 <= r0 < i && 0 <= c0 < m ==> c@[base + r0 * (m as int) + c0] as int == a.val(
                    a_row_start + r0,
                    a_col_start + c0,
                ),
        decreases m - i,
    {
        let mut j: usize = 0;
        while j < m
            invariant
                a.wf(),
                a_row_start + m <= a.rows,
                a_col_start + m <= a.cols,
                base == old(c)@.len(),
                base + (m as int) * (m as int) <= usize::MAX as int,
                i < m,
                j <= m,
                c@.len() == base + i * (m as int) + j,
                forall|idx: int| 0 <= idx < base ==> c@[idx] == old(c)@[idx],
                forall|r0: int, c0: int|
                    #![trigger c@[base + r0 * (m as int) + c0]]
                    0 <= r0 < i && 0 <= c0 < m ==> c@[base + r0 * (m as int) + c0] as int == a.val(
                        a_row_start + r0,
                        a_col_start + c0,
                    ),
                forall|c0: int|
                    #![trigger c@[base + i * (m as int) + c0]]
                    0 <= c0 < j ==> c@[base + i * (m as int) + c0] as int == a.val(
                        a_row_start + i as int,
                        a_col_start + c0,
                    ),
            decreases m - j,
        {
            proof {
                lemma_rm_index(m as int, m as int, i as int, j as int);
            }
            let x = a.at(a_row_start + i, a_col_start + j);
            let ghost v0 = c@;
            c.push(x);
            proof {
                assert forall|r0: int, c0: int|
                    0 <= r0 < i && 0 <= c0 < m implies #[trigger] c@[base + r0 * (m as int) + c0]
                    == v0[base + r0 * (m as int) + c0] by {
                    lemma_rm_index(i as int, m as int, r0, c0);
                }
            }
            j = j + 1;
        }
        proof {
            assert((i as int + 1) * (m as int) == i as int * (m as int) + (
            m as int)) by (nonlinear_arith);
        }
        i = i + 1;
    }
}

/// One row of a matrix assembled from a left and a right quadrant: columns
/// before `mid` read from `left`, the rest from `right`, shifted by `mid`.
pub open spec fn half_row(left: Matrix, right: Matrix, mid: int, r0: int, c0: int) -> int {
    if c0 < mid {
        left.val(r0, c0)
    } else {
        right.val(r0, c0 - mid)
    }
}

/// Reassembles four `m × m` quadrants into one `n × n` matrix (`n == 2 * m`):
/// `m11` top-left, `m12` top-right, `m21` bottom-left, `m22` bottom-right.
pub fn reconstitute(m11: &Matrix, m12: &Matrix, m21: &Matrix, m22: &Matrix, m: usize, n: usize) -> (c:
    Matrix)
    requires
        m11.wf(),
        m12.wf(),
        m21.wf(),
        m22.wf(),
        m11.rows == m && m11.cols == m,
        m12.rows == m && m12.cols == m,
        m21.rows == m && m21.cols == m,
        m22.rows == m && m22.cols == m,
        m >= 1,
        n == m + m,
        (n as int) * (n as int) <= usize::MAX as int,
    ensures
        c.wf(),
        c.rows == n,
        c.cols == n,
        forall|i: int, j: int|
            #![trigger c.val(i, j)]
            0 <= i < n && 0 <= j < n ==> c.val(i, j) == (if i < m && j < m {
                m11.val(i, j)
            } else if i < m {
                m12.val(i, j - m)
            } else if j < m {
                m21.val(i - m, j)
            } else {
                m22.val(i - m, j - m)
            }),
{
    let ghost mi = m as int;
    let ghost ni = n as int;
    let mut v: Vec<i64> = Vec::new();
    let mut i: usize = 0;
    while i < m
        invariant
            m11.wf() && m12.wf() && m21.wf() && m22.wf(),
            m11.rows == m && m11.cols == m,
            m12.rows == m && m12.cols == m,
            mi == m as int,
            ni == n as int,
            m >= 1,
            n == m + m,
            (n as int) * (n as int) <= usize::MAX as int,
            i <= m,
            v@.len() == i * ni,
            forall|r0: int, c0: int|
                #![trigger v@[r0 * ni + c0]]
                0 <= r0 < i && 0 <= c0 < n ==> v@[r0 * ni + c0] as int == half_row(*m11, *m12, mi, r0, c0),
        decreases m - i,
    {
        let mut j: usize = 0;
        while j < m
            invariant
                m11.wf() && m12.wf() && m21.wf() && m22.wf(),
                m11.rows == m && m11.cols == m,
                m12.rows == m && m12.cols == m,
                mi == m as int,
                ni == n as int,
                m >= 1,
                n == m + m,
                (n as int) * (n as int) <= usize::MAX as int,
                i < m,
                j <= m,
                v@.len() == i * ni + j,
                forall|r0: int, c0: int|
                    #![trigger v@[r0 * ni + c0]]
                    0 <= r0 < i && 0 <= c0 < n ==> v@[r0 * ni + c0] as int == half_row(*m11, *m12, mi, r0, c0),
                forall|c0: int|
                    #![trigger v@[i * ni + c0]]
                    0 <= c0 < j ==> v@[i * ni + c0] as int == m11.val(i as int, c0),
            decreases m - j,
        {
            proof {
                lemma_rm_index(ni, ni, i as int, j as int);
            }
            let ghost v0 = v@;
            v.push(m11.at(i, j));
            proof {
                assert forall|r0: int, c0: int|
                    0 <= r0 < i && 0 <= c0 < n implies #[trigger] v@[r0 * ni + c0] == v0[r0 * ni
                    + c0] by {
                    lemma_rm_index(i as int, ni, r0, c0);
                }
            }
            j = j + 1;
        }
        let mut j2: usize = 0;
        while j2 < m
            invariant
                m11.wf() && m12.wf() && m21.wf() && m22.wf(),
                m11.rows == m && m11.cols == m,
                m12.rows == m && m12.cols == m,
                mi == m as int,
                ni == n as int,
                m >= 1,
                n == m + m,
                (n as int) * (n as int) <= usize::MAX as int,
                i < m,
                j2 <= m,
                v@.len() == i * ni + m + j2,
                forall|r0: int, c0: int|
                    #![trigger v@[r0 * ni + c0]]
                    0 <= r0 < i && 0 <= c0 < n ==> v@[r0 * ni + c0] as int == half_row(*m11, *m12, mi, r0, c0),
                forall|c0: int|
                    #![trigger v@[i * ni + c0]]
                    0 <= c0 < m + j2 ==> v@[i * ni + c0] as int == half_row(*m11, *m12, mi, i as int, c0),
            decreases m - j2,
        {
            proof {
                lemma_rm_index(ni, ni, i as int, (m + j2) as int);
            }
            let ghost v0 = v@;
            v.push(m12.at(i, j2));
            proof {
                assert forall|r0: int, c0: int|
                    0 <= r0 < i && 0 <= c0 < n implies #[trigger] v@[r0 * ni + c0] == v0[r0 * ni
                    + c0] by {
                    lemma_rm_index(i as int, ni, r0, c0);
                }
            }
            j2 = j2 + 1;
        }
        proof {
            assert((i as int + 1) * ni == i as int * ni + ni) by (nonlinear_arith);
        }
        i = i + 1;
    }
    let mut i2: usize = 0;
    while i2 < m
        invariant
            m11.wf() && m12.wf() && m21.wf() && m22.wf(),
            m11.rows == m && m11.cols == m,
            m12.rows == m && m12.cols == m,
            m21.rows == m && m21.cols == m,
            m22.rows == m && m22.cols == m,
            mi == m as int,
            ni == n as int,
            m >= 1,
            n == m + m,
            (n as int) * (n as int) <= usize::MAX as int,
            i2 <= m,
            v@.len() == (mi + i2) * ni,
            forall|r0: int, c0: int|
                #![trigger v@[r0 * ni + c0]]
                0 <= r0 < m && 0 <= c0 < n ==> v@[r0 * ni + c0] as int == half_row(*m11, *m12, mi, r0, c0),
            forall|r0: int, c0: int|
                #![trigger v@[(mi + r0) * ni + c0]]
                0 <= r0 < i2 && 0 <= c0 < n ==> v@[(mi + r0) * ni + c0] as int == half_row(*m21, *m22, mi, r0, c0),
        decreases m - i2,
    {
        let mut j: usize = 0;
        while j < m
            invariant
                m11.wf() && m12.wf() && m21.wf() && m22.wf(),
                m11.rows == m && m11.cols == m,
                m12.rows == m && m12.cols == m,
                m21.rows == m && m21.cols == m,
                m22.rows == m && m22.cols == m,
                mi == m as int,
                ni == n as int,
                m >= 1,
                n == m + m,
                (n as int) * (n as int) <= usize::MAX as int,
                i2 < m,
                j <= m,
                v@.len() == (mi + i2) * ni + j,
                forall|r0: int, c0: int|
                    #![trigger v@[r0 * ni + c0]]
                    0 <= r0 < m && 0 <= c0 < n ==> v@[r0 * ni + c0] as int == half_row(*m11, *m12, mi, r0, c0),
                forall|r0: int, c0: int|
                    #![trigger v@[(mi + r0) * ni + c0]]
                    0 <= r0 < i2 && 0 <= c0 < n ==> v@[(mi + r0) * ni + c0] as int == half_row(*m21, *m22, mi, r0, c0),
                forall|c0: int|
                    #![trigger v@[(mi + i2) * ni + c0]]
                    0 <= c0 < j ==> v@[(mi + i2) * ni + c0] as int == m21.val(i2 as int, c0),
            decreases m - j,
        {
            proof {
                lemma_rm_index(ni, ni, mi + i2 as int, j as int);
            }
            let ghost v0 = v@;
            v.push(m21.at(i2, j));
            proof {
                lemma_reconstitute_preserve(v0, v@, mi, ni, i2 as int);
            }
            j = j + 1;
        }
        let mut j2: usize = 0;
        while j2 < m
            invariant
                m11.wf() && m12.wf() && m21.wf() && m22.wf(),
                m11.rows == m && m11.cols == m,
                m12.rows == m && m12.cols == m,
                m21.rows == m && m21.cols == m,
                m22.rows == m && m22.cols == m,
                mi == m as int,
                ni == n as int,
                m >= 1,
                n == m + m,
                (n as int) * (n as int) <= usize::MAX as int,
                i2 < m,
                j2 <= m,
                v@.len() == (mi + i2) * ni + m + j2,
                forall|r0: int, c0: int|
                    #![trigger v@[r0 * ni + c0]]
                    0 <= r0 < m && 0 <= c0 < n ==> v@[r0 * ni + c0] as int == half_row(*m11, *m12, mi, r0, c0),
                forall|r0: int, c0: int|
                    #![trigger v@[(mi + r0) * ni + c0]]
                    0 <= r0 < i2 && 0 <= c0 < n ==> v@[(mi + r0) * ni + c0] as int == half_row(*m21, *m22, mi, r0, c0),
                forall|c0: int|
                    #![trigger v@[(mi + i2) * ni + c0]]
                    0 <= c0 < m + j2 ==> v@[(mi + i2) * ni + c0] as int == half_row(*m21, *m22, mi, i2 as int, c0),
            decreases m - j2,
        {
            proof {
                lemma_rm_index(ni, ni, mi + i2 as int, (m + j2) as int);
            }
            let ghost v0 = v@;
            v.push(m22.at(i2, j2));
            proof {
                lemma_reconstitute_preserve(v0, v@, mi, ni, i2 as int);
            }
            j2 = j2 + 1;
        }
        proof {
            assert((mi + i2 as int + 1) * ni == (mi + i2 as int) * ni + ni) by (nonlinear_arith);
        }
        i2 = i2 + 1;
    }
    proof {
        assert((mi + mi) * ni == ni * ni) by (nonlinear_arith)
            requires
                ni == mi + mi,
        ;
    }
    let c = Matrix { rows: n, cols: n, n: n * n, array: v };
    proof {
        assert forall|gi: int, gj: int|
            0 <= gi < n && 0 <= gj < n implies #[trigger] c.val(gi, gj) == (if gi < mi && gj < mi {
            m11.val(gi, gj)
        } else if gi < mi {
            m12.val(gi, gj - mi)
        } else if gj < mi {
            m21.val(gi - mi, gj)
        } else {
            m22.val(gi - mi, gj - mi)
        }) by {
            lemma_rm_index(ni, ni, gi, gj);
            if gi >= mi {
                assert(gi * ni + gj == (mi + (gi - mi)) * ni + gj);
            }
        }
    }
    c
}

/// Facts preserved by one push while filling the bottom half of a
/// reconstituted matrix: all completed top-half rows and completed
/// bottom-half rows keep their values.
proof fn lemma_reconstitute_preserve(v0: Seq<i64>, v1: Seq<i64>, mi: int, ni: int, i2: int)
    requires
        0 <= mi,
        0 < ni,
        0 <= i2,
        v0.len() >= (mi + i2) * ni,
        v1.len() >= v0.len(),
        forall|idx: int| 0 <= idx < v0.len() ==> v1[idx] == v0[idx],
    ensures
        forall|r0: int, c0: int|
            #![trigger v1[r0 * ni + c0]]
            0 <= r0 < mi && 0 <= c0 < ni ==> v1[r0 * ni + c0] == v0[r0 * ni + c0],
        forall|r0: int, c0: int|
            #![trigger v1[(mi + r0) * ni + c0]]
            0 <= r0 < i2 && 0 <= c0 < ni ==> v1[(mi + r0) * ni + c0] == v0[(mi + r0) * ni + c0],
{
    assert forall|r0: int, c0: int|
        0 <= r0 < mi + i2 && 0 <= c0 < ni implies #[trigger] v1[r0 * ni + c0] == v0[r0 * ni
        + c0] by {
        lemma_rm_index(mi + i2, ni, r0, c0);
    }
    assert forall|r0: int, c0: int|
        0 <= r0 < i2 && 0 <= c0 < ni implies #[trigger] v1[(mi + r0) * ni + c0] == v0[(mi + r0) * ni
        + c0] by {
        lemma_rm_index(mi + i2, ni, mi + r0, c0);
        assert(v1[(mi + r0) * ni + c0] == v0[(mi + r0) * ni + c0]);
    }
}

/// `c` is the `m × m` element-wise wrapped sum of the quadrants of `a`
/// anchored at `(r1, c1)` and `(r2, c2)`.
pub open spec fn block_add_at(c: Matrix, a: Matrix, r1: int, c1: int, r2: int, c2: int, m: int) -> bool {
    &&& c.wf()
    &&& c.rows == m
    &&& c.cols == m
    &&& forall|i: int, j: int|
        #![trigger c.val(i, j)]
        0 <= i < m && 0 <= j < m ==> c.val(i, j) == wrap(a.val(r1 + i, c1 + j) + a.val(r2 + i, c2 + j))
}

/// `c` is the `m × m` element-wise wrapped difference of the quadrants of
/// `a` anchored at `(r1, c1)` and `(r2, c2)`.
pub open spec fn block_sub_at(c: Matrix, a: Matrix, r1: int, c1: int, r2: int, c2: int, m: int) -> bool {
    &&& c.wf()
    &&& c.rows == m
    &&& c.cols == m
    &&& forall|i: int, j: int|
        #![trigger c.val(i, j)]
        0 <= i < m && 0 <= j < m ==> c.val(i, j) == wrap(a.val(r1 + i, c1 + j) - a.val(r2 + i, c2 + j))
}

/// `c` is a copy of the `m × m` quadrant of `a` anchored at `(r1, c1)`.
pub open spec fn block_cpy_at(c: Matrix, a: Matrix, r1: int, c1: int, m: int) -> bool {
    &&& c.wf()
    &&& c.rows == m
    &&& c.cols == m
    &&& forall|i: int, j: int|
        #![trigger c.val(i, j)]
        0 <= i < m && 0 <= j < m ==> c.val(i, j) == a.val(r1 + i, c1 + j)
}

// The exact (unwrapped) integrands of Strassen's seven auxiliary products at
// local entry `(i, j)`, for operands split into `m × m` quadrants:
//   M1 = (A11 + A22)(B11 + B22)    M2 = (A21 + A22) B11
//   M3 = A11 (B12 - B22)           M4 = A22 (B21 - B11)
//   M5 = (A11 + A12) B22           M6 = (A21 - A11)(B11 + B12)
//   M7 = (A12 - A22)(B21 + B22)

spec fn mterm1(a: Matrix, b: Matrix, m: int, i: int, j: int) -> spec_fn(int) -> int {
    |t: int| (a.val(i, t) + a.val(m + i, m + t)) * (b.val(t, j) + b.val(m + t, m + j))
}

spec fn mterm2(a: Matrix, b: Matrix, m: int, i: int, j: int) -> spec_fn(int) -> int {
    |t: int| (a.val(m + i, t) + a.val(m + i, m + t)) * b.val(t, j)
}

spec fn mterm3(a: Matrix, b: Matrix, m: int, i: int, j: int) -> spec_fn(int) -> int {
    |t: int| a.val(i, t) * (b.val(t, m + j) - b.val(m + t, m + j))
}

spec fn mterm4(a: Matrix, b: Matrix, m: int, i: int, j: int) -> spec_fn(int) -> int {
    |t: int| a.val(m + i, m + t) * (b.val(m + t, j) - b.val(t, j))
}

spec fn mterm5(a: Matrix, b: Matrix, m: int, i: int, j: int) -> spec_fn(int) -> int {
    |t: int| (a.val(i, t) + a.val(i, m + t)) * b.val(m + t, m + j)
}

spec fn mterm6(a: Matrix, b: Matrix, m: int, i: int, j: int) -> spec_fn(int) -> int {
    |t: int| (a.val(m + i, t) - a.val(i, t)) * (b.val(t, j) + b.val(t, m + j))
}

spec fn mterm7(a: Matrix, b: Matrix, m: int, i: int, j: int) -> spec_fn(int) -> int {
    |t: int| (a.val(i, m + t) - a.val(m + i, m + t)) * (b.val(m + t, j) + b.val(m + t, m + j))
}

/// Entry `(i, j)` of the exact auxiliary product `M1`, and likewise below.
spec fn msum1(a: Matrix, b: Matrix, m: int, i: int, j: int) -> int {
    csum(m, mterm1(a, b, m, i, j))
}

spec fn msum2(a: Matrix, b: Matrix, m: int, i: int, j: int) -> int {
    csum(m, mterm2(a, b, m, i, j))
}

spec fn msum3(a: Matrix, b: Matrix, m: int, i: int, j: int) -> int {
    csum(m, mterm3(a, b, m, i, j))
}

spec fn msum4(a: Matrix, b: Matrix, m: int, i: int, j: int) -> int {
    csum(m, mterm4(a, b, m, i, j))
}

spec fn msum5(a: Matrix, b: Matrix, m: int, i: int, j: int) -> int {
    csum(m, mterm5(a, b, m, i, j))
}

spec fn msum6(a: Matrix, b: Matrix, m: int, i: int, j: int) -> int {
    csum(m, mterm6(a, b, m, i, j))
}

spec fn msum7(a: Matrix, b: Matrix, m: int, i: int, j: int) -> int {
    csum(m, mterm7(a, b, m, i, j))
}

/// The wrapped product of the blocks `A11 + A22` and `B11 + B22` is
/// congruent, entry by entry, to the exact auxiliary product `M1`.
proof fn lemma_block_prod_m1(a: Matrix, b: Matrix, aa: Matrix, bb: Matrix, m: int, i: int, j: int)
    requires
        block_add_at(aa, a, 0, 0, m, m, m),
        block_add_at(bb, b, 0, 0, m, m, m),
        0 <= i < m,
        0 <= j < m,
    ensures
        wrap_eq(prod_sum(aa, bb, i, j, m), msum1(a, b, m, i, j)),
{
    let f = prod_term(aa, bb, i, j);
    let g = mterm1(a, b, m, i, j);
    assert forall|t: int| 0 <= t < m implies wrap_eq(#[trigger] f(t), #[trigger] g(t)) by {
        let x = a.val(i, t) + a.val(m + i, m + t);
        let y = b.val(t, j) + b.val(m + t, m + j);
        lemma_wrap_range(x);
        lemma_wrap_range(y);
        lemma_wrap_eq_mul(wrap(x), x, wrap(y), y);
        assert(f(t) == wrap(x) * wrap(y));
        assert(g(t) == x * y);
    }
    lemma_csum_wrap_eq(m, f, g);
}

/// The wrapped product of `A21 + A22` and `B11` is congruent to `M2`.
proof fn lemma_block_prod_m2(a: Matrix, b: Matrix, aa: Matrix, bb: Matrix, m: int, i: int, j: int)
    requires
        block_add_at(aa, a, m, 0, m, m, m),
        block_cpy_at(bb, b, 0, 0, m),
        0 <= i < m,
        0 <= j < m,
    ensures
        wrap_eq(prod_sum(aa, bb, i, j, m), msum2(a, b, m, i, j)),
{
    let f = prod_term(aa, bb, i, j);
    let g = mterm2(a, b, m, i, j);
    assert forall|t: int| 0 <= t < m implies wrap_eq(#[trigger] f(t), #[trigger] g(t)) by {
        let x = a.val(m + i, t) + a.val(m + i, m + t);
        let y = b.val(t, j);
        lemma_wrap_range(x);
        lemma_wrap_eq_mul(wrap(x), x, y, y);
        assert(f(t) == wrap(x) * y);
        assert(g(t) == x * y);
    }
    lemma_csum_wrap_eq(m, f, g);
}

/// The wrapped product of `A11` and `B12 - B22` is congruent to `M3`.
proof fn lemma_block_prod_m3(a: Matrix, b: Matrix, aa: Matrix, bb: Matrix, m: int, i: int, j: int)
    requires
        block_cpy_at(aa, a, 0, 0, m),
        block_sub_at(bb, b, 0, m, m, m, m),
        0 <= i < m,
        0 <= j < m,
    ensures
        wrap_eq(prod_sum(aa, bb, i, j, m), msum3(a, b, m, i, j)),
{
    let f = prod_term(aa, bb, i, j);
    let g = mterm3(a, b, m, i, j);
    assert forall|t: int| 0 <= t < m implies wrap_eq(#[trigger] f(t), #[trigger] g(t)) by {
        let x = a.val(i, t);
        let y = b.val(t, m + j) - b.val(m + t, m + j);
        lemma_wrap_range(y);
        lemma_wrap_eq_mul(x, x, wrap(y), y);
        assert(f(t) == x * wrap(y));
        assert(g(t) == x * y);
    }
    lemma_csum_wrap_eq(m, f, g);
}

/// The wrapped product of `A22` and `B21 - B11` is congruent to `M4`.
proof fn lemma_block_prod_m4(a: Matrix, b: Matrix, aa: Matrix, bb: Matrix, m: int, i: int, j: int)
    requires
        block_cpy_at(aa, a, m, m, m),
        block_sub_at(bb, b, m, 0, 0, 0, m),
        0 <= i < m,
        0 <= j < m,
    ensures
        wrap_eq(prod_sum(aa, bb, i, j, m), msum4(a, b, m, i, j)),
{
    let f = prod_term(aa, bb, i, j);
    let g = mterm4(a, b, m, i, j);
    assert forall|t: int| 0 <= t < m implies wrap_eq(#[trigger] f(t), #[trigger] g(t)) by {
        let x = a.val(m + i, m + t);
        let y = b.val(m + t, j) - b.val(t, j);
        lemma_wrap_range(y);
        lemma_wrap_eq_mul(x, x, wrap(y), y);
        assert(f(t) == x * wrap(y));
        assert(g(t) == x * y);
    }
    lemma_csum_wrap_eq(m, f, g);
}

/// The wrapped product of `A11 + A12` and `B22` is congruent to `M5`.
proof fn lemma_block_prod_m5(a: Matrix, b: Matrix, aa: Matrix, bb: Matrix, m: int, i: int, j: int)
    requires
        block_add_at(aa, a, 0, 0, 0, m, m),
        block_cpy_at(bb, b, m, m, m),
        0 <= i < m,
        0 <= j < m,
    ensures
        wrap_eq(prod_sum(aa, bb, i, j, m), msum5(a, b, m, i, j)),
{
    let f = prod_term(aa, bb, i, j);
    let g = mterm5(a, b, m, i, j);
    assert forall|t: int| 0 <= t < m implies wrap_eq(#[trigger] f(t), #[trigger] g(t)) by {
        let x = a.val(i, t) + a.val(i, m + t);
        let y = b.val(m + t, m + j);
        lemma_wrap_range(x);
        lemma_wrap_eq_mul(wrap(x), x, y, y);
        assert(f(t) == wrap(x) * y);
        assert(g(t) == x * y);
    }
    lemma_csum_wrap_eq(m, f, g);
}

/// The wrapped product of `A21 - A11` and `B11 + B12` is congruent to `M6`.
proof fn lemma_block_prod_m6(a: Matrix, b: Matrix, aa: Matrix, bb: Matrix, m: int, i: int, j: int)
    requires
        block_sub_at(aa, a, m, 0, 0, 0, m),
        block_add_at(bb, b, 0, 0, 0, m, m),
        0 <= i < m,
        0 <= j < m,
    ensures
        wrap_eq(prod_sum(aa, bb, i, j, m), msum6(a, b, m, i, j)),
{
    let f = prod_term(aa, bb, i, j);
    let g = mterm6(a, b, m, i, j);
    assert forall|t: int| 0 <= t < m implies wrap_eq(#[trigger] f(t), #[trigger] g(t)) by {
        let x = a.val(m + i, t) - a.val(i, t);
        let y = b.val(t, j) + b.val(t, m + j);
        lemma_wrap_range(x);
        lemma_wrap_range(y);
        lemma_wrap_eq_mul(wrap(x), x, wrap(y), y);
        assert(f(t) == wrap(x) * wrap(y));
        assert(g(t) == x * y);
    }
    lemma_csum_wrap_eq(m, f, g);
}

/// The wrapped product of `A12 - A22` and `B21 + B22` is congruent to `M7`.
proof fn lemma_block_prod_m7(a: Matrix, b: Matrix, aa: Matrix, bb: Matrix, m: int, i: int, j: int)
    requires
        block_sub_at(aa, a, 0, m, m, m, m),
        block_add_at(bb, b, m, 0, m, m, m),
        0 <= i < m,
        0 <= j < m,
    ensures
        wrap_eq(prod_sum(aa, bb, i, j, m), msum7(a, b, m, i, j)),
{
    let f = prod_term(aa, bb, i, j);
    let g = mterm7(a, b, m, i, j);
    assert forall|t: int| 0 <= t < m implies wrap_eq(#[trigger] f(t), #[trigger] g(t)) by {
        let x = a.val(i, m + t) - a.val(m + i, m + t);
        let y = b.val(m + t, j) + b.val(m + t, m + j);
        lemma_wrap_range(x);
        lemma_wrap_range(y);
        lemma_wrap_eq_mul(wrap(x), x, wrap(y), y);
        assert(f(t) == wrap(x) * wrap(y));
        assert(g(t) == x * y);
    }
    lemma_csum_wrap_eq(m, f, g);
}

/// Strassen's recombination identity for the top-left quadrant:
/// `M1 + M4 - M5 + M7` equals the exact product entry at `(i, j)`.
proof fn lemma_strassen_c11(a: Matrix, b: Matrix, m: int, i: int, j: int)
    requires
        a.rows == 2 * m && a.cols == 2 * m,
        b.rows == 2 * m && b.cols == 2 * m,
        m >= 1,
        0 <= i < m,
        0 <= j < m,
    ensures
        msum1(a, b, m, i, j) + msum4(a, b, m, i, j) - msum5(a, b, m, i, j) + msum7(a, b, m, i, j)
            == prod_sum(a, b, i, j, 2 * m),
{
    let f = prod_term(a, b, i, j);
    let ftail = |t: int| f(m + t);
    let h = |t: int| a.val(i, t) * b.val(t, j) + a.val(i, m + t) * b.val(m + t, j);
    assert forall|t: int| 0 <= t < m implies #[trigger] h(t) == mterm1(a, b, m, i, j)(t) + mterm4(
        a,
        b,
        m,
        i,
        j,
    )(t) - mterm5(a, b, m, i, j)(t) + mterm7(a, b, m, i, j)(t) by {
        let p = a.val(i, t);
        let q = a.val(i, m + t);
        let s = a.val(m + i, m + t);
        let w = b.val(t, j);
        let x = b.val(m + t, j);
        let z = b.val(m + t, m + j);
        assert((p + s) * (w + z) + s * (x - w) - (p + q) * z + (q - s) * (x + z) == p * w + q
            * x) by (nonlinear_arith);
    }
    lemma_csum_combine4(
        m,
        mterm1(a, b, m, i, j),
        mterm4(a, b, m, i, j),
        mterm5(a, b, m, i, j),
        mterm7(a, b, m, i, j),
        h,
    );
    lemma_csum_split(2 * m, m, f, ftail);
    assert forall|t: int| 0 <= t < m implies #[trigger] h(t) == f(t) + ftail(t) by {}
    lemma_csum_combine2(m, f, ftail, h);
}

/// Strassen's recombination identity for the top-right quadrant:
/// `M3 + M5` equals the exact product entry at `(i, m + j)`.
proof fn lemma_strassen_c12(a: Matrix, b: Matrix, m: int, i: int, j: int)
    requires
        a.rows == 2 * m && a.cols == 2 * m,
        b.rows == 2 * m && b.cols == 2 * m,
        m >= 1,
        0 <= i < m,
        0 <= j < m,
    ensures
        msum3(a, b, m, i, j) + msum5(a, b, m, i, j) == prod_sum(a, b, i, m + j, 2 * m),
{
    let f = prod_term(a, b, i, m + j);
    let ftail = |t: int| f(m + t);
    let h = |t: int| a.val(i, t) * b.val(t, m + j) + a.val(i, m + t) * b.val(m + t, m + j);
    assert forall|t: int| 0 <= t < m implies #[trigger] h(t) == mterm3(a, b, m, i, j)(t) + mterm5(
        a,
        b,
        m,
        i,
        j,
    )(t) by {
        let p = a.val(i, t);
        let q = a.val(i, m + t);
        let y = b.val(t, m + j);
        let z = b.val(m + t, m + j);
        assert(p * (y - z) + (p + q) * z == p * y + q * z) by (nonlinear_arith);
    }
    lemma_csum_combine2(m, mterm3(a, b, m, i, j), mterm5(a, b, m, i, j), h);
    lemma_csum_split(2 * m, m, f, ftail);
    assert forall|t: int| 0 <= t < m implies #[trigger] h(t) == f(t) + ftail(t) by {}
    lemma_csum_combine2(m, f, ftail, h);
}

/// Strassen's recombination identity for the bottom-left quadrant:
/// `M2 + M4` equals the exact product entry at `(m + i, j)`.
proof fn lemma_strassen_c21(a: Matrix, b: Matrix, m: int, i: int, j: int)
    requires
        a.rows == 2 * m && a.cols == 2 * m,
        b.rows == 2 * m && b.cols == 2 * m,
        m >= 1,
        0 <= i < m,
        0 <= j < m,
    ensures
        msum2(a, b, m, i, j) + msum4(a, b, m, i, j) == prod_sum(a, b, m + i, j, 2 * m),
{
    let f = prod_term(a, b, m + i, j);
    let ftail = |t: int| f(m + t);
    let h = |t: int| a.val(m + i, t) * b.val(t, j) + a.val(m + i, m + t) * b.val(m + t, j);
    assert forall|t: int| 0 <= t < m implies #[trigger] h(t) == mterm2(a, b, m, i, j)(t) + mterm4(
        a,
        b,
        m,
        i,
        j,
    )(t) by {
        let r = a.val(m + i, t);
        let s = a.val(m + i, m + t);
        let w = b.val(t, j);
        let x = b.val(m + t, j);
        assert((r + s) * w + s * (x - w) == r * w + s * x) by (nonlinear_arith);
    }
    lemma_csum_combine2(m, mterm2(a, b, m, i, j), mterm4(a, b, m, i, j), h);
    lemma_csum_split(2 * m, m, f, ftail);
    assert forall|t: int| 0 <= t < m implies #[trigger] h(t) == f(t) + ftail(t) by {}
    lemma_csum_combine2(m, f, ftail, h);
}

/// Strassen's recombination identity for the bottom-right quadrant:
/// `M1 - M2 + M3 + M6` equals the exact product entry at `(m + i, m + j)`.
proof fn lemma_strassen_c22(a: Matrix, b: Matrix, m: int, i: int, j: int)
    requires
        a.rows == 2 * m && a.cols == 2 * m,
        b.rows == 2 * m && b.cols == 2 * m,
        m >= 1,
        0 <= i < m,
        0 <= j < m,
    ensures
        msum1(a, b, m, i, j) + msum3(a, b, m, i, j) - msum2(a, b, m, i, j) + msum6(a, b, m, i, j)
            == prod_sum(a, b, m + i, m + j, 2 * m),
{
    let f = prod_term(a, b, m + i, m + j);
    let ftail = |t: int| f(m + t);
    let h = |t: int| a.val(m + i, t) * b.val(t, m + j) + a.val(m + i, m + t) * b.val(m + t, m + j);
    assert forall|t: int| 0 <= t < m implies #[trigger] h(t) == mterm1(a, b, m, i, j)(t) + mterm3(
        a,
        b,
        m,
        i,
        j,
    )(t) - mterm2(a, b, m, i, j)(t) + mterm6(a, b, m, i, j)(t) by {
        let p = a.val(i, t);
        let q = a.val(i, m + t);
        let r = a.val(m + i, t);
        let s = a.val(m + i, m + t);
        let w = b.val(t, j);
        let y = b.val(t, m + j);
        let z = b.val(m + t, m + j);
        assert((p + s) * (w + z) + p * (y - z) - (r + s) * w + (r - p) * (w + y) == r * y + s
            * z) by (nonlinear_arith);
    }
    lemma_csum_combine4(
        m,
        mterm1(a, b, m, i, j),
        mterm3(a, b, m, i, j),
        mterm2(a, b, m, i, j),
        mterm6(a, b, m, i, j),
        h,
    );
    lemma_csum_split(2 * m, m, f, ftail);
    assert forall|t: int| 0 <= t < m implies #[trigger] h(t) == f(t) + ftail(t) by {}
    lemma_csum_combine2(m, f, ftail, h);
}

/// Discharges the top-left result entry: a value computed as the wrapped
/// combination `((M7 - M5) + M4) + M1` of the wrapped auxiliary products
/// equals the wrapped exact product entry at `(i, j)`.
proof fn lemma_strassen_entry_c11(
    a: Matrix,
    b: Matrix,
    m: int,
    s1: int,
    s4: int,
    s5: int,
    s7: int,
    v: int,
    i: int,
    j: int,
)
    requires
        a.rows == 2 * m && a.cols == 2 * m,
        b.rows == 2 * m && b.cols == 2 * m,
        m >= 1,
        0 <= i < m,
        0 <= j < m,
        wrap_eq(s1, msum1(a, b, m, i, j)),
        wrap_eq(s4, msum4(a, b, m, i, j)),
        wrap_eq(s5, msum5(a, b, m, i, j)),
        wrap_eq(s7, msum7(a, b, m, i, j)),
        v == wrap(wrap(wrap(wrap(s7) - wrap(s5)) + wrap(s4)) + wrap(s1)),
    ensures
        v == wrap(prod_sum(a, b, i, j, 2 * m)),
{
    lemma_wrap_range(s1);
    lemma_wrap_range(s4);
    lemma_wrap_range(s5);
    lemma_wrap_range(s7);
    lemma_wrap_eq_sub(wrap(s7), s7, wrap(s5), s5);
    lemma_wrap_range(wrap(s7) - wrap(s5));
    lemma_wrap_eq_add(wrap(wrap(s7) - wrap(s5)), s7 - s5, wrap(s4), s4);
    lemma_wrap_range(wrap(wrap(s7) - wrap(s5)) + wrap(s4));
    lemma_wrap_eq_add(wrap(wrap(wrap(s7) - wrap(s5)) + wrap(s4)), s7 - s5 + s4, wrap(s1), s1);
    lemma_wrap_range(wrap(wrap(wrap(s7) - wrap(s5)) + wrap(s4)) + wrap(s1));
    lemma_wrap_eq_sub(s7, msum7(a, b, m, i, j), s5, msum5(a, b, m, i, j));
    lemma_wrap_eq_add(s7 - s5, msum7(a, b, m, i, j) - msum5(a, b, m, i, j), s4, msum4(a, b, m, i, j));
    lemma_wrap_eq_add(
        s7 - s5 + s4,
        msum7(a, b, m, i, j) - msum5(a, b, m, i, j) + msum4(a, b, m, i, j),
        s1,
        msum1(a, b, m, i, j),
    );
    lemma_strassen_c11(a, b, m, i, j);
    lemma_wrap_eq_wrap(v, prod_sum(a, b, i, j, 2 * m));
    lemma_wrap_id(v);
}

/// Discharges the top-right result entry: `M5 + M3` wrapped equals the
/// wrapped exact product entry at `(i, m + j)`.
proof fn lemma_strassen_entry_c12(
    a: Matrix,
    b: Matrix,
    m: int,
    s3: int,
    s5: int,
    v: int,
    i: int,
    j: int,
)
    requires
        a.rows == 2 * m && a.cols == 2 * m,
        b.rows == 2 * m && b.cols == 2 * m,
        m >= 1,
        0 <= i < m,
        0 <= j < m,
        wrap_eq(s3, msum3(a, b, m, i, j)),
        wrap_eq(s5, msum5(a, b, m, i, j)),
        v == wrap(wrap(s5) + wrap(s3)),
    ensures
        v == wrap(prod_sum(a, b, i, m + j, 2 * m)),
{
    lemma_wrap_range(s3);
    lemma_wrap_range(s5);
    lemma_wrap_eq_add(wrap(s5), s5, wrap(s3), s3);
    lemma_wrap_range(wrap(s5) + wrap(s3));
    lemma_wrap_eq_add(s5, msum5(a, b, m, i, j), s3, msum3(a, b, m, i, j));
    lemma_strassen_c12(a, b, m, i, j);
    lemma_wrap_eq_wrap(v, prod_sum(a, b, i, m + j, 2 * m));
    lemma_wrap_id(v);
}

/// Discharges the bottom-left result entry: `M4 + M2` wrapped equals the
/// wrapped exact product entry at `(m + i, j)`.
proof fn lemma_strassen_entry_c21(
    a: Matrix,
    b: Matrix,
    m: int,
    s2: int,
    s4: int,
    v: int,
    i: int,
    j: int,
)
    requires
        a.rows == 2 * m && a.cols == 2 * m,
        b.rows == 2 * m && b.cols == 2 * m,
        m >= 1,
        0 <= i < m,
        0 <= j < m,
        wrap_eq(s2, msum2(a, b, m, i, j)),
        wrap_eq(s4, msum4(a, b, m, i, j)),
        v == wrap(wrap(s4) + wrap(s2)),
    ensures
        v == wrap(prod_sum(a, b, m + i, j, 2 * m)),
{
    lemma_wrap_range(s2);
    lemma_wrap_range(s4);
    lemma_wrap_eq_add(wrap(s4), s4, wrap(s2), s2);
    lemma_wrap_range(wrap(s4) + wrap(s2));
    lemma_wrap_eq_add(s4, msum4(a, b, m, i, j), s2, msum2(a, b, m, i, j));
    lemma_strassen_c21(a, b, m, i, j);
    lemma_wrap_eq_wrap(v, prod_sum(a, b, m + i, j, 2 * m));
    lemma_wrap_id(v);
}

/// Discharges the bottom-right result entry: `((M1 - M2) + M3) + M6` wrapped
/// equals the wrapped exact product entry at `(m + i, m + j)`.
proof fn lemma_strassen_entry_c22(
    a: Matrix,
    b: Matrix,
    m: int,
    s1: int,
    s2: int,
    s3: int,
    s6: int,
    v: int,
    i: int,
    j: int,
)
    requires
        a.rows == 2 * m && a.cols == 2 * m,
        b.rows == 2 * m && b.cols == 2 * m,
        m >= 1,
        0 <= i < m,
        0 <= j < m,
        wrap_eq(s1, msum1(a, b, m, i, j)),
        wrap_eq(s2, msum2(a, b, m, i, j)),
        wrap_eq(s3, msum3(a, b, m, i, j)),
        wrap_eq(s6, msum6(a, b, m, i, j)),
        v == wrap(wrap(wrap(wrap(s1) - wrap(s2)) + wrap(s3)) + wrap(s6)),
    ensures
        v == wrap(prod_sum(a, b, m + i, m + j, 2 * m)),
{
    lemma_wrap_range(s1);
    lemma_wrap_range(s2);
    lemma_wrap_range(s3);
    lemma_wrap_range(s6);
    lemma_wrap_eq_sub(wrap(s1), s1, wrap(s2), s2);
    lemma_wrap_range(wrap(s1) - wrap(s2));
    lemma_wrap_eq_add(wrap(wrap(s1) - wrap(s2)), s1 - s2, wrap(s3), s3);
    lemma_wrap_range(wrap(wrap(s1) - wrap(s2)) + wrap(s3));
    lemma_wrap_eq_add(wrap(wrap(wrap(s1) - wrap(s2)) + wrap(s3)), s1 - s2 + s3, wrap(s6), s6);
    lemma_wrap_range(wrap(wrap(wrap(s1) - wrap(s2)) + wrap(s3)) + wrap(s6));
    lemma_wrap_eq_sub(s1, msum1(a, b, m, i, j), s2, msum2(a, b, m, i, j));
    lemma_wrap_eq_add(s1 - s2, msum1(a, b, m, i, j) - msum2(a, b, m, i, j), s3, msum3(a, b, m, i, j));
    lemma_wrap_eq_add(
        s1 - s2 + s3,
        msum1(a, b, m, i, j) - msum2(a, b, m, i, j) + msum3(a, b, m, i, j),
        s6,
        msum6(a, b, m, i, j),
    );
    lemma_strassen_c22(a, b, m, i, j);
    lemma_wrap_eq_wrap(v, prod_sum(a, b, m + i, m + j, 2 * m));
    lemma_wrap_id(v);
}

/// Squaring is monotone on non-negative integers.
proof fn lemma_sq_le(x: int, y: int)
    requires
        0 <= x <= y,
    ensures
        x * x <= y * y,
{
    assert(x * x <= y * y) by (nonlinear_arith)
        requires
            0 <= x <= y,
    ;
}

/// Builds the `m × m` wrapped sum of two quadrants of `a` as a matrix.
fn block_add(a: &Matrix, r1: usize, c1: usize, r2: usize, c2: usize, m: usize) -> (c: Matrix)
    requires
        a.wf(),
        r1 + m <= a.rows,
        c1 + m <= a.cols,
        r2 + m <= a.rows,
        c2 + m <= a.cols,
        m >= 1,
        (m as int) * (m as int) <= usize::MAX as int,
    ensures
        block_add_at(c, *a, r1 as int, c1 as int, r2 as int, c2 as int, m as int),
{
    let mut v: Vec<i64> = Vec::new();
    submatrix_add(&mut v, a, r1, c1, r2, c2, m);
    let c = Matrix { rows: m, cols: m, n: m * m, array: v };
    proof {
        assert forall|i: int, j: int|
            0 <= i < m && 0 <= j < m implies #[trigger] c.val(i, j) == wrap(
            a.val(r1 + i, c1 + j) + a.val(r2 + i, c2 + j),
        ) by {
            lemma_rm_index(m as int, m as int, i, j);
            assert(c.array@[0 + i * (m as int) + j] as int == wrap(
                a.val(r1 + i, c1 + j) + a.val(r2 + i, c2 + j),
            ));
        }
    }
    c
}

/// Builds the `m × m` wrapped difference of two quadrants of `a` as a matrix.
fn block_sub(a: &Matrix, r1: usize, c1: usize, r2: usize, c2: usize, m: usize) -> (c: Matrix)
    requires
        a.wf(),
        r1 + m <= a.rows,
        c1 + m <= a.cols,
        r2 + m <= a.rows,
        c2 + m <= a.cols,
        m >= 1,
        (m as int) * (m as int) <= usize::MAX as int,
    ensures
        block_sub_at(c, *a, r1 as int, c1 as int, r2 as int, c2 as int, m as int),
{
    let mut v: Vec<i64> = Vec::new();
    submatrix_sub(&mut v, a, r1, c1, r2, c2, m);
    let c = Matrix { rows: m, cols: m, n: m * m, array: v };
    proof {
        assert forall|i: int, j: int|
            0 <= i < m && 0 <= j < m implies #[trigger] c.val(i, j) == wrap(
            a.val(r1 + i, c1 + j) - a.val(r2 + i, c2 + j),
        ) by {
            lemma_rm_index(m as int, m as int, i, j);
            assert(c.array@[0 + i * (m as int) + j] as int == wrap(
                a.val(r1 + i, c1 + j) - a.val(r2 + i, c2 + j),
            ));
        }
    }
    c
}

/// Copies one `m × m` quadrant of `a` into its own matrix.
fn block_cpy(a: &Matrix, r1: usize, c1: usize, m: usize) -> (c: Matrix)
    requires
        a.wf(),
        r1 + m <= a.rows,
        c1 + m <= a.cols,
        m >= 1,
        (m as int) * (m as int) <= usize::MAX as int,
    ensures
        block_cpy_at(c, *a, r1 as int, c1 as int, m as int),
{
    let mut v: Vec<i64> = Vec::new();
    submatrix_cpy(&mut v, a, r1, c1, m);
    let c = Matrix { rows: m, cols: m, n: m * m, array: v };
    proof {
        assert forall|i: int, j: int|
            0 <= i < m && 0 <= j < m implies #[trigger] c.val(i, j) == a.val(r1 + i, c1 + j) by {
            lemma_rm_index(m as int, m as int, i, j);
            assert(c.array@[0 + i * (m as int) + j] as int == a.val(r1 + i, c1 + j));
        }
    }
    c
}

/// The largest of the four operand dimensions, preferring `a.cols`, then
/// `b.rows`, then `b.cols`, then `a.rows` on ties.
pub open spec fn strassen_max_dim(a: Matrix, b: Matrix) -> int {
    if a.cols >= a.rows && a.cols >= b.rows && a.cols >= b.cols {
        a.cols as int
    } else if b.rows >= a.rows && b.rows >= a.cols && b.rows >= b.cols {
        b.rows as int
    } else if b.cols >= a.rows && b.cols >= a.cols && b.cols >= b.rows {
        b.cols as int
    } else {
        a.rows as int
    }
}

/// The side length Strassen pads its operands to: the largest dimension,
/// rounded up to an even number.
pub open spec fn strassen_dim(a: Matrix, b: Matrix) -> int {
    if strassen_max_dim(a, b) % 2 == 1 {
        strassen_max_dim(a, b) + 1
    } else {
        strassen_max_dim(a, b)
    }
}

/// Multiplying the padded operands over the padded width computes the same
/// dot product as multiplying the originals over `a.cols` terms: padding
/// columns of `a` are zero, and padding rows of `b` are read as zero either
/// way.
proof fn lemma_padded_prod(a: Matrix, b: Matrix, pa: Matrix, pb: Matrix, k: int, i: int, j: int)
    requires
        a.wf(),
        b.wf(),
        crate::matrix::is_padded(pa, a, k),
        crate::matrix::is_padded(pb, b, k),
        k >= a.rows,
        k >= a.cols,
        k >= b.rows,
        k >= b.cols,
        0 <= i < a.rows,
        0 <= j < b.cols,
    ensures
        prod_sum(pa, pb, i, j, k) == prod_sum(a, b, i, j, a.cols as int),
{
    let f = prod_term(pa, pb, i, j);
    let g = prod_term(a, b, i, j);
    let ac = a.cols as int;
    let ftail = |t: int| f(ac + t);
    lemma_csum_split(k, ac, f, ftail);
    assert forall|t: int| 0 <= t < k - ac implies #[trigger] ftail(t) == 0 by {
        assert(pa.val(i, ac + t) == 0);
    }
    lemma_csum_zero(k - ac, ftail);
    assert forall|t: int| 0 <= t < ac implies #[trigger] f(t) == #[trigger] g(t) by {
        assert(pa.val(i, t) == a.val(i, t));
        assert(pb.val(t, j) == b.valz(t, j));
    }
    lemma_csum_pointwise(ac, f, g);
}

/// Runs one recursive Strassen multiplication of two same-sized square
/// blocks, unwrapping the entry point's result (the dimension check cannot
/// fail for square operands of equal side).
fn strassen_product(a: &Matrix, b: &Matrix, threshold: usize) -> (c: Matrix)
    requires
        a.wf(),
        b.wf(),
        a.cols == a.rows,
        b.rows == a.rows,
        b.cols == a.rows,
        threshold >= 2,
        strassen_dim(*a, *b) * strassen_dim(*a, *b) <= usize::MAX as int,
    ensures
        is_product(*a, *b, c),
    decreases strassen_dim(*a, *b), 2int,
{
    match mult_strassen_threshold(a, b, threshold) {
        Ok(c) => c,
        Err(_) => {
            proof {
                assert(false);
            }
            a.copy()
        },
    }
}

/// Inner Strassen recursion on square operands of equal, even (or base-case)
/// side: split into quadrants, form the seven auxiliary products through the
/// main entry point, recombine, and reassemble.
fn strassen_recurse(a: &Matrix, b: &Matrix, threshold: usize) -> (c: Matrix)
    requires
        a.wf(),
        b.wf(),
        a.cols == a.rows,
        b.rows == a.rows,
        b.cols == a.rows,
        threshold >= 2,
        a.rows % 2 == 0 || a.rows <= threshold,
        (a.rows as int) * (a.rows as int) <= usize::MAX as int,
    ensures
        is_product(*a, *b, c),
    decreases a.rows as int, 0int,
{
    if a.rows <= threshold {
        return transpose_kernel(a, b);
    }
    let n = a.rows;
    let m = n / 2;
    proof {
        lemma_sq_le(m as int, n as int);
        lemma_sq_le(m as int + 1, n as int);
    }

    // The seven left-hand and right-hand blocks of Strassen's auxiliary
    // products, from the quadrants of `a` and `b`.
    let aa1 = block_add(a, 0, 0, m, m, m);
    let aa2 = block_add(a, m, 0, m, m, m);
    let aa3 = block_cpy(a, 0, 0, m);
    let aa4 = block_cpy(a, m, m, m);
    let aa5 = block_add(a, 0, 0, 0, m, m);
    let aa6 = block_sub(a, m, 0, 0, 0, m);
    let aa7 = block_sub(a, 0, m, m, m, m);
    let bb1 = block_add(b, 0, 0, m, m, m);
    let bb2 = block_cpy(b, 0, 0, m);
    let bb3 = block_sub(b, 0, m, m, m, m);
    let bb4 = block_sub(b, m, 0, 0, 0, m);
    let bb5 = block_cpy(b, m, m, m);
    let bb6 = block_add(b, 0, 0, 0, m, m);
    let bb7 = block_add(b, m, 0, m, m, m);

    let mut m1 = strassen_product(&aa1, &bb1, threshold);
    let m2 = strassen_product(&aa2, &bb2, threshold);
    let m3 = strassen_product(&aa3, &bb3, threshold);
    let mut m4 = strassen_product(&aa4, &bb4, threshold);
    let mut m5 = strassen_product(&aa5, &bb5, threshold);
    let m6 = strassen_product(&aa6, &bb6, threshold);
    let mut m7 = strassen_product(&aa7, &bb7, threshold);

    let ghost g1 = m1;
    let ghost g4 = m4;
    let ghost g5 = m5;
    let ghost g7 = m7;

    // C11 = M7 - M5 + M4 + M1, accumulated into M7's buffer.
    m7.sub_in_place(&m5);
    let ghost q11a = m7;
    m7.add_in_place(&m4);
    let ghost q11b = m7;
    m7.add_in_place(&m1);
    // C12 = M5 + M3.
    m5.add_in_place(&m3);
    // C21 = M4 + M2.
    m4.add_in_place(&m2);
    // C22 = M1 - M2 + M3 + M6.
    m1.sub_in_place(&m2);
    let ghost q22a = m1;
    m1.add_in_place(&m3);
    let ghost q22b = m1;
    m1.add_in_place(&m6);

    let c = reconstitute(&m7, &m5, &m4, &m1, m, n);
    proof {
        let mi = m as int;
        let ni = n as int;
        assert forall|gi: int, gj: int|
            0 <= gi < ni && 0 <= gj < ni implies #[trigger] c.val(gi, gj) == wrap(
            prod_sum(*a, *b, gi, gj, a.cols as int),
        ) by {
            if gi < mi && gj < mi {
                let i = gi;
                let j = gj;
                let s1 = prod_sum(aa1, bb1, i, j, mi);
                let s4 = prod_sum(aa4, bb4, i, j, mi);
                let s5 = prod_sum(aa5, bb5, i, j, mi);
                let s7 = prod_sum(aa7, bb7, i, j, mi);
                assert(g7.val(i, j) == wrap(s7));
                assert(g5.val(i, j) == wrap(s5));
                assert(g4.val(i, j) == wrap(s4));
                assert(g1.val(i, j) == wrap(s1));
                assert(q11a.val(i, j) == wrap(wrap(s7) - wrap(s5)));
                assert(q11b.val(i, j) == wrap(wrap(wrap(s7) - wrap(s5)) + wrap(s4)));
                assert(m7.val(i, j) == wrap(wrap(wrap(wrap(s7) - wrap(s5)) + wrap(s4)) + wrap(s1)));
                lemma_block_prod_m1(*a, *b, aa1, bb1, mi, i, j);
                lemma_block_prod_m4(*a, *b, aa4, bb4, mi, i, j);
                lemma_block_prod_m5(*a, *b, aa5, bb5, mi, i, j);
                lemma_block_prod_m7(*a, *b, aa7, bb7, mi, i, j);
                lemma_strassen_entry_c11(*a, *b, mi, s1, s4, s5, s7, m7.val(i, j), i, j);
                assert(c.val(gi, gj) == m7.val(i, j));
            } else if gi < mi {
                let i = gi;
                let j = gj - mi;
                let s3 = prod_sum(aa3, bb3, i, j, mi);
                let s5 = prod_sum(aa5, bb5, i, j, mi);
                assert(g5.val(i, j) == wrap(s5));
                assert(m5.val(i, j) == wrap(wrap(s5) + wrap(s3)));
                lemma_block_prod_m3(*a, *b, aa3, bb3, mi, i, j);
                lemma_block_prod_m5(*a, *b, aa5, bb5, mi, i, j);
                lemma_strassen_entry_c12(*a, *b, mi, s3, s5, m5.val(i, j), i, j);
                assert(c.val(gi, gj) == m5.val(i, j));
            } else if gj < mi {
                let i = gi - mi;
                let j = gj;
                let s2 = prod_sum(aa2, bb2, i, j, mi);
                let s4 = prod_sum(aa4, bb4, i, j, mi);
                assert(g4.val(i, j) == wrap(s4));
                assert(m4.val(i, j) == wrap(wrap(s4) + wrap(s2)));
                lemma_block_prod_m2(*a, *b, aa2, bb2, mi, i, j);
                lemma_block_prod_m4(*a, *b, aa4, bb4, mi, i, j);
                lemma_strassen_entry_c21(*a, *b, mi, s2, s4, m4.val(i, j), i, j);
                assert(c.val(gi, gj) == m4.val(i, j));
            } else {
                let i = gi - mi;
                let j = gj - mi;
                let s1 = prod_sum(aa1, bb1, i, j, mi);
                let s2 = prod_sum(aa2, bb2, i, j, mi);
                let s3 = prod_sum(aa3, bb3, i, j, mi);
                let s6 = prod_sum(aa6, bb6, i, j, mi);
                assert(g1.val(i, j) == wrap(s1));
                assert(q22a.val(i, j) == wrap(wrap(s1) - wrap(s2)));
                assert(q22b.val(i, j) == wrap(wrap(wrap(s1) - wrap(s2)) + wrap(s3)));
                assert(m1.val(i, j) == wrap(wrap(wrap(wrap(s1) - wrap(s2)) + wrap(s3)) + wrap(s6)));
                lemma_block_prod_m1(*a, *b, aa1, bb1, mi, i, j);
                lemma_block_prod_m2(*a, *b, aa2, bb2, mi, i, j);
                lemma_block_prod_m3(*a, *b, aa3, bb3, mi, i, j);
                lemma_block_prod_m6(*a, *b, aa6, bb6, mi, i, j);
                lemma_strassen_entry_c22(*a, *b, mi, s1, s2, s3, s6, m1.val(i, j), i, j);
                assert(c.val(gi, gj) == m1.val(i, j));
            }
        }
    }
    c
}

/// Strassen multiplication with an explicit base-case threshold: validates
/// `a.rows == b.cols`, pads both operands out to the largest dimension
/// (rounded up to an even number) when they are not already square of that
/// side, recurses, and strips the padding from the result. Recursion falls
/// back to the transpose kernel at or below `threshold`.
pub fn mult_strassen_threshold(a: &Matrix, b: &Matrix, threshold: usize) -> (r: Result<
    Matrix,
    MatrixError,
>)
    requires
        a.wf(),
        b.wf(),
        threshold >= 2,
        strassen_dim(*a, *b) * strassen_dim(*a, *b) <= usize::MAX as int,
    ensures
        match r {
            Ok(c) => a.rows == b.cols && is_product(*a, *b, c),
            Err(e) => e == MatrixError::DimensionMismatch,
        },
        r is Err <==> a.rows != b.cols,
    decreases strassen_dim(*a, *b), 1int,
{
    if a.rows != b.cols {
        return Err(MatrixError::DimensionMismatch);
    }
    // Find the largest row or column dimension across `a` and `b`.
    let mut max_dimension = a.rows;
    if a.cols >= a.rows && a.cols >= b.rows && a.cols >= b.cols {
        max_dimension = a.cols;
    } else if b.rows >= a.rows && b.rows >= a.cols && b.rows >= b.cols {
        max_dimension = b.rows;
    } else if b.cols >= a.rows && b.cols >= a.cols && b.cols >= b.rows {
        max_dimension = b.cols;
    }
    proof {
        assert(max_dimension as int == strassen_max_dim(*a, *b));
    }
    // If the largest dimension is odd, add one so that every recursion level
    // splits evenly.
    if max_dimension % 2 == 1 {
        proof {
            let d = strassen_dim(*a, *b);
            assert(d <= d * d) by (nonlinear_arith)
                requires
                    1 <= d,
            ;
        }
        max_dimension = max_dimension + 1;
    }
    proof {
        assert(max_dimension as int == strassen_dim(*a, *b));
    }
    if a.is_square() && b.is_square() && a.rows == max_dimension {
        // The operands are already square of the padded side; recurse
        // directly.
        Ok(strassen_recurse(a, b, threshold))
    } else {
        // Pad both operands out to `max_dimension`, recurse, and strip the
        // extra rows and columns afterwards.
        let pa = a.pad(max_dimension);
        let pb = b.pad(max_dimension);
        let full = strassen_recurse(&pa, &pb, threshold);
        match full.reduce(a.rows, a.rows) {
            Ok(c) => {
                proof {
                    assert forall|i: int, j: int|
                        0 <= i < c.rows && 0 <= j < c.cols implies #[trigger] c.val(i, j) == wrap(
                        prod_sum(*a, *b, i, j, a.cols as int),
                    ) by {
                        lemma_padded_prod(*a, *b, pa, pb, max_dimension as int, i, j);
                        assert(c.val(i, j) == full.val(i, j));
                    }
                }
                Ok(c)
            },
            Err(_) => {
                proof {
                    assert(false);
                }
                Err(MatrixError::DimensionMismatch)
            },
        }
    }
}

/// The multiplication strategies a caller can select; all of them meet the
/// same product contract, so they return the same matrix on the same
/// operands. The parallel Strassen variant lives outside this library, in
/// the benchmark binary, since it schedules work onto operating-system
/// threads.
#[derive(Clone, Copy, Debug, PartialEq, Eq, Structural)]
pub enum Algorithm {
    Naive,
    Transpose,
    Strassen,
}

impl Matrix {
    /// Multiplies this matrix by `b` using the selected algorithm. Fails
    /// with `DimensionMismatch` when `self.rows != b.cols`.
    pub fn mult(&self, b: &Matrix, multiplier: Algorithm) -> (r: Result<Matrix, MatrixError>)
        requires
            self.wf(),
            b.wf(),
            !(multiplier is Strassen) ==> self.cols <= b.rows && (self.rows as int) * (
            self.rows as int) <= usize::MAX as int,
            multiplier is Strassen ==> strassen_dim(*self, *b) * strassen_dim(*self, *b)
                <= usize::MAX as int,
        ensures
            match r {
                Ok(c) => self.rows == b.cols && is_product(*self, *b, c),
                Err(e) => e == MatrixError::DimensionMismatch,
            },
            r is Err <==> self.rows != b.cols,
    {
        match multiplier {
            Algorithm::Naive => mult_naive(self, b),
            Algorithm::Transpose => mult_transpose(self, b),
            Algorithm::Strassen => mult_strassen(self, b),
        }
    }
}

/// Strassen multiplication with the default base-case threshold. Fails with
/// `DimensionMismatch` when `a.rows != b.cols`.
pub fn mult_strassen(a: &Matrix, b: &Matrix) -> (r: Result<Matrix, MatrixError>)
    requires
        a.wf(),
        b.wf(),
        strassen_dim(*a, *b) * strassen_dim(*a, *b) <= usize::MAX as int,
    ensures
        match r {
            Ok(c) => a.rows == b.cols && is_product(*a, *b, c),
            Err(e) => e == MatrixError::DimensionMismatch,
        },
        r is Err <==> a.rows != b.cols,
{
    mult_strassen_threshold(a, b, STRASSEN_BASE)
}

} // verus!
