//! The multiplication entry point that accompanies the parallel Strassen
//! benchmark driver.
//!
//! The parallel Strassen variant itself dispatches its seven auxiliary
//! products onto a worker pool of operating-system threads, which is the
//! benchmark binary's concern; every matrix computation it performs —
//! quadrant splitting, the recursive products, recombination and
//! reassembly — is this library's verified code. The transpose-based
//! multiplication below is the sequential kernel that that driver pairs the
//! parallel engine with for comparison.

use vstd::prelude::*;
use crate::matrix::{Matrix, MatrixError};
use crate::mult::{is_product, transpose_kernel};

verus! {

/// Transpose-based multiplication as exposed alongside the parallel Strassen
/// driver; computed sequentially, with the same contract as
/// `mult::mult_transpose`. Fails with `DimensionMismatch` when
/// `a.rows != b.cols`.
pub fn mult_par_transpose(a: &Matrix, b: &Matrix) -> (r: Result<Matrix, MatrixError>)
    requires
        a.wf(),
        b.wf(),
        a.cols <= b.rows,
        (a.rows as int) * (a.rows as int) <= usize::MAX as int,
    ensures
        match r {
            Ok(c) => a.rows == b.cols && is_product(*a, *b, c),
            Err(e) => e == MatrixError::DimensionMismatch,
        },
        r is Err <==> a.rows != b.cols,
{
    if a.rows == b.cols {
        Ok(transpose_kernel(a, b))
    } else {
        Err(MatrixError::DimensionMismatch)
    }
}

} // verus!
