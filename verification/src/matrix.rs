//! The row-major dense matrix container and its element-wise operations.
//!
//! A matrix owns a contiguous buffer of `rows * cols` elements of type `i64`.
//! Construction validates the dimensions (`InvalidDimension`) and the buffer
//! length (`SizeMismatch`); the element-wise operations validate operand
//! shapes (`DimensionMismatch`). Element arithmetic wraps around, as stated
//! through [`crate::arith::wrap`].

use vstd::prelude::*;
use vstd::arithmetic::div_mod::{lemma_fundamental_div_mod, lemma_mod_bound};
use vstd::arithmetic::mul::lemma_mul_inequality;
use crate::arith::{
    lemma_wrap_eq_sub, lemma_wrap_eq_wrap, lemma_wrap_id, lemma_wrap_range, wadd, wrap, wsub,
};

verus! {

/// The faults a matrix operation can signal.
///
/// `InvalidDimension`: a zero row or column count at construction, or a
/// `reduce` request beyond the source's bounds. `SizeMismatch`: an element
/// buffer whose length differs from `rows * cols`. `DimensionMismatch`:
/// operand shapes incompatible with the requested operation.
#[derive(Clone, Copy, Debug, PartialEq, Eq, Structural)]
pub enum MatrixError {
    InvalidDimension,
    SizeMismatch,
    DimensionMismatch,
}

/// A dense matrix: dimension metadata over a single row-major vector of
/// elements, so that the entry at row `i`, column `j` sits at index
/// `i * cols + j`.
#[derive(Debug)]
pub struct Matrix {
    /// Number of rows.
    pub rows: usize,
    /// Number of columns.
    pub cols: usize,
    /// Number of elements; always `rows * cols`.
    pub n: usize,
    /// Underlying matrix data, row-major.
    pub array: Vec<i64>,
}

impl Matrix {
    /// Well-formedness: both dimensions are positive and the buffer holds
    /// exactly `rows * cols` elements.
    pub open spec fn wf(&self) -> bool {
        &&& self.rows >= 1
        &&& self.cols >= 1
        &&& self.n as int == (self.rows as int) * (self.cols as int)
        &&& self.array@.len() == self.n
    }

    /// The element at row `i`, column `j`, as a mathematical integer.
    pub open spec fn val(&self, i: int, j: int) -> int {
        self.array@[i * (self.cols as int) + j] as int
    }

    /// Row-extended element: the element at `(i, j)` for rows inside the
    /// matrix, and zero for rows at or beyond `rows`.
    pub open spec fn valz(&self, i: int, j: int) -> int {
        if 0 <= i < self.rows {
            self.val(i, j)
        } else {
            0
        }
    }
}

/// A flat index `i * cols + j` built from in-range coordinates stays inside
/// the `rows * cols` buffer.
pub proof fn lemma_rm_index(rows: int, cols: int, i: int, j: int)
    requires
        0 <= i < rows,
        0 <= j < cols,
    ensures
        0 <= i * cols + j < rows * cols,
{
    assert(i * cols + j < rows * cols) by (nonlinear_arith)
        requires
            0 <= i < rows,
            0 <= j < cols,
    ;
}

/// Every flat index into a `rows * cols` buffer decomposes as `i * cols + j`
/// with in-range coordinates `i == idx / cols` and `j == idx % cols`.
pub proof fn lemma_rm_index_decomp(rows: int, cols: int, idx: int)
    requires
        0 < rows,
        0 < cols,
        0 <= idx < rows * cols,
    ensures
        0 <= idx / cols < rows,
        0 <= idx % cols < cols,
        idx == (idx / cols) * cols + idx % cols,
{
    let i = idx / cols;
    let j = idx % cols;
    lemma_fundamental_div_mod(idx, cols);
    lemma_mod_bound(idx, cols);
    assert(idx == cols * i + j);
    assert(cols * i == i * cols) by (nonlinear_arith);
    if i < 0 {
        assert(cols * i <= -cols) by (nonlinear_arith)
            requires
                i <= -1,
                0 < cols,
        ;
        assert(false);
    }
    if i >= rows {
        lemma_mul_inequality(rows, i, cols);
        assert(false);
    }
}

/// `c` holds, entry for entry, the wrapped sum of `a` and `b`.
pub open spec fn is_entrywise_sum(a: Matrix, b: Matrix, c: Matrix) -> bool {
    &&& c.wf()
    &&& c.rows == a.rows
    &&& c.cols == a.cols
    &&& c.n == a.n
    &&& forall|idx: int|
        #![trigger c.array@[idx]]
        0 <= idx < a.array@.len() ==> c.array@[idx] as int == wrap(
            a.array@[idx] as int + b.array@[idx] as int,
        )
    &&& forall|i: int, j: int|
        #![trigger c.val(i, j)]
        0 <= i < a.rows && 0 <= j < a.cols ==> c.val(i, j) == wrap(a.val(i, j) + b.val(i, j))
}

/// `c` holds, entry for entry, the wrapped difference of `a` and `b`.
pub open spec fn is_entrywise_diff(a: Matrix, b: Matrix, c: Matrix) -> bool {
    &&& c.wf()
    &&& c.rows == a.rows
    &&& c.cols == a.cols
    &&& c.n == a.n
    &&& forall|idx: int|
        #![trigger c.array@[idx]]
        0 <= idx < a.array@.len() ==> c.array@[idx] as int == wrap(
            a.array@[idx] as int - b.array@[idx] as int,
        )
    &&& forall|i: int, j: int|
        #![trigger c.val(i, j)]
        0 <= i < a.rows && 0 <= j < a.cols ==> c.val(i, j) == wrap(a.val(i, j) - b.val(i, j))
}

impl Matrix {
    /// Initializes a new matrix wrapping the provided vector. Fails with
    /// `InvalidDimension` when either dimension is zero and with
    /// `SizeMismatch` when the vector's length is not `rows * cols`.
    pub fn with_array(array: Vec<i64>, rows: usize, cols: usize) -> (r: Result<Matrix, MatrixError>)
        ensures
            match r {
                Ok(m) => {
                    &&& rows >= 1
                    &&& cols >= 1
                    &&& array@.len() == (rows as int) * (cols as int)
                    &&& m.rows == rows
                    &&& m.cols == cols
                    &&& m.array@ == array@
                    &&& m.wf()
                },
                Err(e) => {
                    &&& (rows == 0 || cols == 0) ==> e == MatrixError::InvalidDimension
                    &&& (rows >= 1 && cols >= 1) ==> (e == MatrixError::SizeMismatch
                        && array@.len() != (rows as int) * (cols as int))
                },
            },
            r is Err <==> (rows == 0 || cols == 0 || array@.len() != (rows as int) * (
            cols as int)),
    {
        if rows == 0 || cols == 0 {
            return Err(MatrixError::InvalidDimension);
        }
        let len = array.len();
        match rows.checked_mul(cols) {
            Some(n) => {
                if n == len {
                    Ok(Matrix { rows, cols, n, array })
                } else {
                    Err(MatrixError::SizeMismatch)
                }
            },
            None => {
                proof {
                    assert((rows as int) * (cols as int) > usize::MAX as int);
                }
                Err(MatrixError::SizeMismatch)
            },
        }
    }

    /// Creates a matrix of the given dimensions whose elements are all zero.
    /// Fails with `InvalidDimension` when either dimension is zero.
    pub fn new(rows: usize, cols: usize) -> (r: Result<Matrix, MatrixError>)
        requires
            (rows as int) * (cols as int) <= usize::MAX as int,
        ensures
            match r {
                Ok(m) => {
                    &&& rows >= 1
                    &&& cols >= 1
                    &&& m.rows == rows
                    &&& m.cols == cols
                    &&& m.wf()
                    &&& forall|i: int, j: int|
                        #![trigger m.val(i, j)]
                        0 <= i < rows && 0 <= j < cols ==> m.val(i, j) == 0
                },
                Err(e) => e == MatrixError::InvalidDimension && (rows == 0 || cols == 0),
            },
            r is Err <==> (rows == 0 || cols == 0),
    {
        if rows == 0 || cols == 0 {
            return Err(MatrixError::InvalidDimension);
        }
        let n = rows * cols;
        let mut array: Vec<i64> = Vec::new();
        let mut idx: usize = 0;
        while idx < n
            invariant
                idx <= n,
                array@.len() == idx,
                forall|k: int| 0 <= k < idx ==> array@[k] == 0i64,
            decreases n - idx,
        {
            array.push(0);
            idx = idx + 1;
        }
        let m = Matrix { rows, cols, n, array };
        proof {
            assert forall|i: int, j: int|
                0 <= i < rows && 0 <= j < cols implies #[trigger] m.val(i, j) == 0 by {
                lemma_rm_index(rows as int, cols as int, i, j);
            }
        }
        Ok(m)
    }

    /// Returns a deep copy of this matrix, cloning the element buffer.
    pub fn copy(&self) -> (r: Matrix)
        requires
            self.wf(),
        ensures
            r.wf(),
            r.rows == self.rows,
            r.cols == self.cols,
            r.n == self.n,
            r.array@ == self.array@,
    {
        let n = self.array.len();
        let mut array: Vec<i64> = Vec::new();
        let mut idx: usize = 0;
        while idx < n
            invariant
                idx <= n,
                n == self.array@.len(),
                array@.len() == idx,
                forall|k: int| 0 <= k < idx ==> array@[k] == self.array@[k],
            decreases n - idx,
        {
            array.push(self.array[idx]);
            idx = idx + 1;
        }
        proof {
            assert(array@ =~= self.array@);
        }
        Matrix { rows: self.rows, cols: self.cols, n: self.n, array }
    }

    /// Returns the element at row `i`, column `j`. Callers must stay inside
    /// the matrix's bounds.
    #[inline]
    pub fn at(&self, i: usize, j: usize) -> (r: i64)
        requires
            self.wf(),
            i < self.rows,
            j < self.cols,
        ensures
            r as int == self.val(i as int, j as int),
    {
        proof {
            lemma_rm_index(self.rows as int, self.cols as int, i as int, j as int);
        }
        self.array[i * self.cols + j]
    }

    /// Returns true when the number of rows equals the number of columns.
    #[inline]
    pub fn is_square(&self) -> (r: bool)
        ensures
            r == (self.rows == self.cols),
    {
        self.rows == self.cols
    }

    /// Adds `b` into this matrix element by element, wrapping on overflow.
    /// Both operands must have identical dimensions. Shared core of the
    /// public `add`, for callers that have already validated the shapes.
    pub(crate) fn add_in_place(&mut self, b: &Matrix)
        requires
            old(self).wf(),
            b.wf(),
            old(self).rows == b.rows,
            old(self).cols == b.cols,
        ensures
            is_entrywise_sum(*old(self), *b, *final(self)),
    {
        let n = self.array.len();
        let mut idx: usize = 0;
        while idx < n
            invariant
                idx <= n,
                self.rows == old(self).rows,
                self.cols == old(self).cols,
                self.n == old(self).n,
                old(self).wf(),
                b.wf(),
                self.rows == b.rows,
                self.cols == b.cols,
                n == old(self).array@.len(),
                self.array@.len() == n,
                b.array@.len() == n,
                forall|k: int|
                    #![trigger self.array@[k]]
                    0 <= k < idx ==> self.array@[k] as int == wrap(
                        old(self).array@[k] as int + b.array@[k] as int,
                    ),
                forall|k: int| idx <= k < n ==> self.array@[k] == old(self).array@[k],
            decreases n - idx,
        {
            let v = wadd(self.array[idx], b.array[idx]);
            self.array[idx] = v;
            idx = idx + 1;
        }
        proof {
            assert forall|i: int, j: int|
                0 <= i < old(self).rows && 0 <= j < old(self).cols implies #[trigger] self.val(
                i,
                j,
            ) == wrap(old(self).val(i, j) + b.val(i, j)) by {
                lemma_rm_index(old(self).rows as int, old(self).cols as int, i, j);
            }
        }
    }

    /// Subtracts `b` from this matrix element by element, wrapping on
    /// overflow. Both operands must have identical dimensions. Shared core of
    /// the public `sub`.
    pub(crate) fn sub_in_place(&mut self, b: &Matrix)
        requires
            old(self).wf(),
            b.wf(),
            old(self).rows == b.rows,
            old(self).cols == b.cols,
        ensures
            is_entrywise_diff(*old(self), *b, *final(self)),
    {
        let n = self.array.len();
        let mut idx: usize = 0;
        while idx < n
            invariant
                idx <= n,
                self.rows == old(self).rows,
                self.cols == old(self).cols,
                self.n == old(self).n,
                old(self).wf(),
                b.wf(),
                self.rows == b.rows,
                self.cols == b.cols,
                n == old(self).array@.len(),
                self.array@.len() == n,
                b.array@.len() == n,
                forall|k: int|
                    #![trigger self.array@[k]]
                    0 <= k < idx ==> self.array@[k] as int == wrap(
                        old(self).array@[k] as int - b.array@[k] as int,
                    ),
                forall|k: int| idx <= k < n ==> self.array@[k] == old(self).array@[k],
            decreases n - idx,
        {
            let v = wsub(self.array[idx], b.array[idx]);
            self.array[idx] = v;
            idx = idx + 1;
        }
        proof {
            assert forall|i: int, j: int|
                0 <= i < old(self).rows && 0 <= j < old(self).cols implies #[trigger] self.val(
                i,
                j,
            ) == wrap(old(self).val(i, j) - b.val(i, j)) by {
                lemma_rm_index(old(self).rows as int, old(self).cols as int, i, j);
            }
        }
    }

    /// Adds the contents of `b` to this matrix in place, element by element
    /// with wrap-around. Fails with `DimensionMismatch`, leaving this matrix
    /// unchanged, when `b` is not the same size.
    pub fn add(&mut self, b: &Matrix) -> (r: Result<(), MatrixError>)
        requires
            old(self).wf(),
            b.wf(),
        ensures
            match r {
                Ok(()) => {
                    &&& old(self).rows == b.rows
                    &&& old(self).cols == b.cols
                    &&& is_entrywise_sum(*old(self), *b, *final(self))
                },
                Err(e) => {
                    &&& e == MatrixError::DimensionMismatch
                    &&& !(old(self).rows == b.rows && old(self).cols == b.cols)
                    &&& *final(self) == *old(self)
                },
            },
            r is Err <==> !(old(self).rows == b.rows && old(self).cols == b.cols),
    {
        if self.rows == b.rows && self.cols == b.cols {
            self.add_in_place(b);
            Ok(())
        } else {
            Err(MatrixError::DimensionMismatch)
        }
    }

    /// Subtracts the contents of `b` from this matrix in place, element by
    /// element with wrap-around. Fails with `DimensionMismatch`, leaving this
    /// matrix unchanged, when `b` is not the same size.
    pub fn sub(&mut self, b: &Matrix) -> (r: Result<(), MatrixError>)
        requires
            old(self).wf(),
            b.wf(),
        ensures
            match r {
                Ok(()) => {
                    &&& old(self).rows == b.rows
                    &&& old(self).cols == b.cols
                    &&& is_entrywise_diff(*old(self), *b, *final(self))
                },
                Err(e) => {
                    &&& e == MatrixError::DimensionMismatch
                    &&& !(old(self).rows == b.rows && old(self).cols == b.cols)
                    &&& *final(self) == *old(self)
                },
            },
            r is Err <==> !(old(self).rows == b.rows && old(self).cols == b.cols),
    {
        if self.rows == b.rows && self.cols == b.cols {
            self.sub_in_place(b);
            Ok(())
        } else {
            Err(MatrixError::DimensionMismatch)
        }
    }

    /// Compares this matrix with `b` element by element, returning true
    /// exactly when every element agrees. Fails with `DimensionMismatch` when
    /// the dimensions differ.
    pub fn eq(&self, b: &Matrix) -> (r: Result<bool, MatrixError>)
        requires
            self.wf(),
            b.wf(),
        ensures
            match r {
                Ok(t) => {
                    &&& self.rows == b.rows
                    &&& self.cols == b.cols
                    &&& t == (self.array@ == b.array@)
                },
                Err(e) => {
                    &&& e == MatrixError::DimensionMismatch
                    &&& !(self.rows == b.rows && self.cols == b.cols)
                },
            },
            r is Err <==> !(self.rows == b.rows && self.cols == b.cols),
    {
        if self.rows == b.rows && self.cols == b.cols {
            let n = self.array.len();
            let mut idx: usize = 0;
            while idx < n
                invariant
                    idx <= n,
                    self.wf(),
                    b.wf(),
                    self.rows == b.rows,
                    self.cols == b.cols,
                    n == self.array@.len(),
                    b.array@.len() == n,
                    forall|k: int| 0 <= k < idx ==> self.array@[k] == b.array@[k],
                decreases n - idx,
            {
                if self.array[idx] != b.array[idx] {
                    return Ok(false);
                }
                idx = idx + 1;
            }
            proof {
                assert(self.array@ =~= b.array@);
            }
            Ok(true)
        } else {
            Err(MatrixError::DimensionMismatch)
        }
    }
}

/// `p` is `a` padded out to a `k × k` square: the original elements sit in
/// the top-left corner and every other entry is zero.
pub open spec fn is_padded(p: Matrix, a: Matrix, k: int) -> bool {
    &&& p.wf()
    &&& p.rows == k
    &&& p.cols == k
    &&& forall|i: int, j: int|
        #![trigger p.val(i, j)]
        0 <= i < k && 0 <= j < k ==> p.val(i, j) == (if i < a.rows && j < a.cols {
            a.val(i, j)
        } else {
            0
        })
}

/// `r` is the `rows × cols` top-left submatrix of `a`.
pub open spec fn is_reduced(r: Matrix, a: Matrix, rows: int, cols: int) -> bool {
    &&& r.wf()
    &&& r.rows == rows
    &&& r.cols == cols
    &&& forall|i: int, j: int|
        #![trigger r.val(i, j)]
        0 <= i < rows && 0 <= j < cols ==> r.val(i, j) == a.val(i, j)
}

/// `t` is the transpose of `a`.
pub open spec fn is_transpose(a: Matrix, t: Matrix) -> bool {
    &&& t.wf()
    &&& t.rows == a.cols
    &&& t.cols == a.rows
    &&& forall|i: int, j: int|
        #![trigger t.val(i, j)]
        0 <= i < t.rows && 0 <= j < t.cols ==> t.val(i, j) == a.val(j, i)
}

impl Matrix {
    /// Returns a new matrix with this matrix's contents copied into it. When
    /// `k` is at most both existing dimensions the result is a plain copy;
    /// otherwise it is a `k × k` square holding the original elements in the
    /// top-left corner and zeros in the added rows and columns. `k` must not
    /// fall strictly between the two dimensions.
    pub fn pad(&self, k: usize) -> (r: Matrix)
        requires
            self.wf(),
            (k <= self.rows && k <= self.cols) || (k >= self.rows && k >= self.cols),
            (k as int) * (k as int) <= usize::MAX as int,
        ensures
            k <= self.rows && k <= self.cols ==> {
                &&& r.wf()
                &&& r.rows == self.rows
                &&& r.cols == self.cols
                &&& r.array@ == self.array@
            },
            k >= self.rows && k >= self.cols ==> is_padded(r, *self, k as int),
    {
        if k <= self.rows && k <= self.cols {
            let r = self.copy();
            proof {
                if k >= self.rows && k >= self.cols {
                    assert forall|i: int, j: int|
                        0 <= i < k && 0 <= j < k implies #[trigger] r.val(i, j) == (if i < self.rows
                        && j < self.cols {
                        self.val(i, j)
                    } else {
                        0
                    }) by {}
                }
            }
            r
        } else {
            let rows = self.rows;
            let cols = self.cols;
            let mut v: Vec<i64> = Vec::new();
            let mut i: usize = 0;
            while i < rows
                invariant
                    self.wf(),
                    rows == self.rows,
                    cols == self.cols,
                    i <= rows,
                    rows <= k,
                    cols <= k,
                    (k as int) * (k as int) <= usize::MAX as int,
                    v@.len() == i * (k as int),
                    forall|r0: int, c0: int|
                        #![trigger v@[r0 * (k as int) + c0]]
                        0 <= r0 < i && 0 <= c0 < k ==> v@[r0 * (k as int) + c0] as int == (if c0
                            < cols {
                            self.val(r0, c0)
                        } else {
                            0
                        }),
                decreases rows - i,
            {
                let mut j: usize = 0;
                while j < cols
                    invariant
                        self.wf(),
                        rows == self.rows,
                        cols == self.cols,
                        i < rows,
                        j <= cols,
                        rows <= k,
                        cols <= k,
                        (k as int) * (k as int) <= usize::MAX as int,
                        v@.len() == i * (k as int) + j,
                        forall|r0: int, c0: int|
                            #![trigger v@[r0 * (k as int) + c0]]
                            0 <= r0 < i && 0 <= c0 < k ==> v@[r0 * (k as int) + c0] as int == (if c0
                                < cols {
                                self.val(r0, c0)
                            } else {
                                0
                            }),
                        forall|c0: int|
                            #![trigger v@[i * (k as int) + c0]]
                            0 <= c0 < j ==> v@[i * (k as int) + c0] as int == self.val(i as int, c0),
                    decreases cols - j,
                {
                    proof {
                        lemma_rm_index(k as int, k as int, i as int, j as int);
                    }
                    let ghost v0 = v@;
                    v.push(self.at(i, j));
                    proof {
                        assert forall|r0: int, c0: int|
                            0 <= r0 < i && 0 <= c0 < k implies #[trigger] v@[r0 * (k as int) + c0]
                            == v0[r0 * (k as int) + c0] by {
                            lemma_rm_index(i as int, k as int, r0, c0);
                        }
                    }
                    j = j + 1;
                }
                while j < k
                    invariant
                        self.wf(),
                        rows == self.rows,
                        cols == self.cols,
                        i < rows,
                        cols <= j <= k,
                        rows <= k,
                        cols <= k,
                        (k as int) * (k as int) <= usize::MAX as int,
                        v@.len() == i * (k as int) + j,
                        forall|r0: int, c0: int|
                            #![trigger v@[r0 * (k as int) + c0]]
                            0 <= r0 < i && 0 <= c0 < k ==> v@[r0 * (k as int) + c0] as int == (if c0
                                < cols {
                                self.val(r0, c0)
                            } else {
                                0
                            }),
                        forall|c0: int|
                            #![trigger v@[i * (k as int) + c0]]
                            0 <= c0 < j ==> v@[i * (k as int) + c0] as int == (if c0 < cols {
                                self.val(i as int, c0)
                            } else {
                                0
                            }),
                    decreases k - j,
                {
                    proof {
                        lemma_rm_index(k as int, k as int, i as int, j as int);
                    }
                    let ghost v0 = v@;
                    v.push(0);
                    proof {
                        assert forall|r0: int, c0: int|
                            0 <= r0 < i && 0 <= c0 < k implies #[trigger] v@[r0 * (k as int) + c0]
                            == v0[r0 * (k as int) + c0] by {
                            lemma_rm_index(i as int, k as int, r0, c0);
                        }
                    }
                    j = j + 1;
                }
                proof {
                    assert((i as int + 1) * (k as int) == i as int * (k as int) + (
                    k as int)) by (nonlinear_arith);
                }
                i = i + 1;
            }
            while i < k
                invariant
                    self.wf(),
                    rows == self.rows,
                    cols == self.cols,
                    rows <= i <= k,
                    cols <= k,
                    (k as int) * (k as int) <= usize::MAX as int,
                    v@.len() == i * (k as int),
                    forall|r0: int, c0: int|
                        #![trigger v@[r0 * (k as int) + c0]]
                        0 <= r0 < i && 0 <= c0 < k ==> v@[r0 * (k as int) + c0] as int == (if r0
                            < rows && c0 < cols {
                            self.val(r0, c0)
                        } else {
                            0
                        }),
                decreases k - i,
            {
                let mut j: usize = 0;
                while j < k
                    invariant
                        self.wf(),
                        rows == self.rows,
                        cols == self.cols,
                        rows <= i < k,
                        j <= k,
                        cols <= k,
                        (k as int) * (k as int) <= usize::MAX as int,
                        v@.len() == i * (k as int) + j,
                        forall|r0: int, c0: int|
                            #![trigger v@[r0 * (k as int) + c0]]
                            0 <= r0 < i && 0 <= c0 < k ==> v@[r0 * (k as int) + c0] as int == (if r0
                                < rows && c0 < cols {
                                self.val(r0, c0)
                            } else {
                                0
                            }),
                        forall|c0: int|
                            #![trigger v@[i * (k as int) + c0]]
                            0 <= c0 < j ==> v@[i * (k as int) + c0] as int == 0,
                    decreases k - j,
                {
                    proof {
                        lemma_rm_index(k as int, k as int, i as int, j as int);
                    }
                    let ghost v0 = v@;
                    v.push(0);
                    proof {
                        assert forall|r0: int, c0: int|
                            0 <= r0 < i && 0 <= c0 < k implies #[trigger] v@[r0 * (k as int) + c0]
                            == v0[r0 * (k as int) + c0] by {
                            lemma_rm_index(i as int, k as int, r0, c0);
                        }
                    }
                    j = j + 1;
                }
                proof {
                    assert((i as int + 1) * (k as int) == i as int * (k as int) + (
                    k as int)) by (nonlinear_arith);
                }
                i = i + 1;
            }
            let p = Matrix { rows: k, cols: k, n: k * k, array: v };
            proof {
                assert forall|i0: int, j0: int|
                    0 <= i0 < k && 0 <= j0 < k implies #[trigger] p.val(i0, j0) == (if i0
                    < self.rows && j0 < self.cols {
                    self.val(i0, j0)
                } else {
                    0
                }) by {
                    lemma_rm_index(k as int, k as int, i0, j0);
                }
            }
            p
        }
    }

    /// Returns a copy of this matrix reduced to the given number of rows and
    /// columns, starting from the top-left corner; typically used to strip
    /// the padding applied before a Strassen multiplication. Fails with
    /// `InvalidDimension` when a requested dimension is zero or exceeds the
    /// matrix's own.
    pub fn reduce(&self, rows: usize, cols: usize) -> (r: Result<Matrix, MatrixError>)
        requires
            self.wf(),
        ensures
            match r {
                Ok(m) => {
                    &&& 1 <= rows <= self.rows
                    &&& 1 <= cols <= self.cols
                    &&& is_reduced(m, *self, rows as int, cols as int)
                },
                Err(e) => e == MatrixError::InvalidDimension,
            },
            r is Err <==> (rows == 0 || cols == 0 || rows > self.rows || cols > self.cols),
    {
        if rows > self.rows || cols > self.cols {
            return Err(MatrixError::InvalidDimension);
        }
        if rows == 0 || cols == 0 {
            return Err(MatrixError::InvalidDimension);
        }
        proof {
            lemma_mul_inequality(rows as int, self.rows as int, cols as int);
            lemma_mul_inequality(cols as int, self.cols as int, self.rows as int);
            assert((self.rows as int) * (self.cols as int) == (self.cols as int) * (
            self.rows as int)) by (nonlinear_arith);
        }
        let mut v: Vec<i64> = Vec::new();
        let mut i: usize = 0;
        while i < rows
            invariant
                self.wf(),
                i <= rows,
                1 <= rows <= self.rows,
                1 <= cols <= self.cols,
                (rows as int) * (cols as int) <= usize::MAX as int,
                v@.len() == i * (cols as int),
                forall|r0: int, c0: int|
                    #![trigger v@[r0 * (cols as int) + c0]]
                    0 <= r0 < i && 0 <= c0 < cols ==> v@[r0 * (cols as int) + c0] as int
                        == self.val(r0, c0),
            decreases rows - i,
        {
            let mut j: usize = 0;
            while j < cols
                invariant
                    self.wf(),
                    i < rows,
                    j <= cols,
                    1 <= rows <= self.rows,
                    1 <= cols <= self.cols,
                    (rows as int) * (cols as int) <= usize::MAX as int,
                    v@.len() == i * (cols as int) + j,
                    forall|r0: int, c0: int|
                        #![trigger v@[r0 * (cols as int) + c0]]
                        0 <= r0 < i && 0 <= c0 < cols ==> v@[r0 * (cols as int) + c0] as int
                            == self.val(r0, c0),
                    forall|c0: int|
                        #![trigger v@[i * (cols as int) + c0]]
                        0 <= c0 < j ==> v@[i * (cols as int) + c0] as int == self.val(i as int, c0),
                decreases cols - j,
            {
                proof {
                    lemma_rm_index(rows as int, cols as int, i as int, j as int);
                }
                let ghost v0 = v@;
                v.push(self.at(i, j));
                proof {
                    assert forall|r0: int, c0: int|
                        0 <= r0 < i && 0 <= c0 < cols implies #[trigger] v@[r0 * (cols as int) + c0]
                        == v0[r0 * (cols as int) + c0] by {
                        lemma_rm_index(i as int, cols as int, r0, c0);
                    }
                }
                j = j + 1;
            }
            proof {
                assert((i as int + 1) * (cols as int) == i as int * (cols as int) + (
                cols as int)) by (nonlinear_arith);
            }
            i = i + 1;
        }
        let m = Matrix { rows, cols, n: rows * cols, array: v };
        proof {
            assert forall|i0: int, j0: int|
                0 <= i0 < rows && 0 <= j0 < cols implies #[trigger] m.val(i0, j0) == self.val(
                i0,
                j0,
            ) by {
                lemma_rm_index(rows as int, cols as int, i0, j0);
            }
        }
        Ok(m)
    }

    /// Returns a new matrix containing the transpose of this matrix.
    pub fn transpose(&self) -> (r: Matrix)
        requires
            self.wf(),
        ensures
            is_transpose(*self, r),
    {
        let rows = self.rows;
        let cols = self.cols;
        let mut v: Vec<i64> = Vec::new();
        let mut i: usize = 0;
        while i < cols
            invariant
                self.wf(),
                rows == self.rows,
                cols == self.cols,
                i <= cols,
                v@.len() == i * (rows as int),
                forall|r0: int, c0: int|
                    #![trigger v@[r0 * (rows as int) + c0]]
                    0 <= r0 < i && 0 <= c0 < rows ==> v@[r0 * (rows as int) + c0] as int
                        == self.val(c0, r0),
            decreases cols - i,
        {
            let mut j: usize = 0;
            while j < rows
                invariant
                    self.wf(),
                    rows == self.rows,
                    cols == self.cols,
                    i < cols,
                    j <= rows,
                    v@.len() == i * (rows as int) + j,
                    forall|r0: int, c0: int|
                        #![trigger v@[r0 * (rows as int) + c0]]
                        0 <= r0 < i && 0 <= c0 < rows ==> v@[r0 * (rows as int) + c0] as int
                            == self.val(c0, r0),
                    forall|c0: int|
                        #![trigger v@[i * (rows as int) + c0]]
                        0 <= c0 < j ==> v@[i * (rows as int) + c0] as int == self.val(c0, i as int),
                decreases rows - j,
            {
                proof {
                    lemma_rm_index(cols as int, rows as int, i as int, j as int);
                }
                let ghost v0 = v@;
                v.push(self.at(j, i));
                proof {
                    assert forall|r0: int, c0: int|
                        0 <= r0 < i && 0 <= c0 < rows implies #[trigger] v@[r0 * (rows as int) + c0]
                        == v0[r0 * (rows as int) + c0] by {
                        lemma_rm_index(i as int, rows as int, r0, c0);
                    }
                }
                j = j + 1;
            }
            proof {
                assert((i as int + 1) * (rows as int) == i as int * (rows as int) + (
                rows as int)) by (nonlinear_arith);
            }
            i = i + 1;
        }
        proof {
            assert((self.cols as int) * (self.rows as int) == (self.rows as int) * (
            self.cols as int)) by (nonlinear_arith);
        }
        let t = Matrix { rows: cols, cols: rows, n: self.n, array: v };
        proof {
            assert forall|i0: int, j0: int|
                0 <= i0 < t.rows && 0 <= j0 < t.cols implies #[trigger] t.val(i0, j0) == self.val(
                j0,
                i0,
            ) by {
                lemma_rm_index(cols as int, rows as int, i0, j0);
            }
        }
        t
    }
}

/// Transposition is an involution: transposing a transpose restores the
/// original matrix, dimensions and element buffer alike.
pub proof fn lemma_transpose_involution(a: Matrix, t: Matrix, u: Matrix)
    requires
        a.wf(),
        is_transpose(a, t),
        is_transpose(t, u),
    ensures
        u.rows == a.rows,
        u.cols == a.cols,
        u.n == a.n,
        u.array@ == a.array@,
{
    assert forall|idx: int| 0 <= idx < a.array@.len() implies u.array@[idx] == a.array@[idx] by {
        lemma_rm_index_decomp(a.rows as int, a.cols as int, idx);
        let i = idx / (a.cols as int);
        let j = idx % (a.cols as int);
        assert(u.val(i, j) == t.val(j, i));
        assert(t.val(j, i) == a.val(i, j));
    }
    assert(u.array@ =~= a.array@);
}

/// Padding a matrix to any square that covers it and then reducing back to
/// the original dimensions restores the original matrix exactly.
pub proof fn lemma_pad_reduce_roundtrip(a: Matrix, p: Matrix, r: Matrix, k: int)
    requires
        a.wf(),
        k >= a.rows,
        k >= a.cols,
        is_padded(p, a, k),
        is_reduced(r, p, a.rows as int, a.cols as int),
    ensures
        r.rows == a.rows,
        r.cols == a.cols,
        r.n == a.n,
        r.array@ == a.array@,
{
    assert forall|idx: int| 0 <= idx < a.array@.len() implies r.array@[idx] == a.array@[idx] by {
        lemma_rm_index_decomp(a.rows as int, a.cols as int, idx);
        let i = idx / (a.cols as int);
        let j = idx % (a.cols as int);
        assert(r.val(i, j) == p.val(i, j));
        assert(p.val(i, j) == a.val(i, j));
    }
    assert(r.array@ =~= a.array@);
}

/// Adding a matrix and then subtracting it again restores the original
/// matrix exactly: wrap-around addition and subtraction are mutually
/// inverse.
pub proof fn lemma_add_sub_inverse(a: Matrix, b: Matrix, c: Matrix, d: Matrix)
    requires
        a.wf(),
        b.wf(),
        a.rows == b.rows,
        a.cols == b.cols,
        is_entrywise_sum(a, b, c),
        is_entrywise_diff(c, b, d),
    ensures
        d.rows == a.rows,
        d.cols == a.cols,
        d.n == a.n,
        d.array@ == a.array@,
{
    assert forall|idx: int| 0 <= idx < a.array@.len() implies d.array@[idx] == a.array@[idx] by {
        let x = a.array@[idx] as int;
        let y = b.array@[idx] as int;
        lemma_wrap_range(x + y);
        lemma_wrap_eq_sub(wrap(x + y), x + y, y, y);
        lemma_wrap_eq_wrap(wrap(x + y) - y, x);
        lemma_wrap_id(x);
    }
    assert(d.array@ =~= a.array@);
}

} // verus!
