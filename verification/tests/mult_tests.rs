use rand::Rng;
use strassen::matrix::{Matrix, MatrixError};
use strassen::mult::{
    mult_naive, mult_strassen, mult_strassen_threshold, mult_transpose, reconstitute,
    submatrix_add, submatrix_cpy, submatrix_sub, Algorithm,
};

fn test_multiplication_outputs<F: Fn(&Matrix, &Matrix) -> Result<Matrix, MatrixError>>(
    multipler: F,
) {
    let v1: Vec<i64> = vec![12, 8, 4, 3, 17, 14, 9, 8, 10];
    let v2: Vec<i64> = vec![5, 19, 3, 6, 15, 9, 7, 8, 16];
    let v3: Vec<i64> = vec![136, 380, 172, 215, 424, 386, 163, 371, 259];

    let a: Matrix = Matrix::with_array(v1, 3, 3).unwrap();
    let b: Matrix = Matrix::with_array(v2, 3, 3).unwrap();
    let c: Matrix = Matrix::with_array(v3, 3, 3).unwrap();

    assert!(multipler(&a, &b).unwrap().eq(&c).unwrap());

    let v4: Vec<i64> = vec![7, 14, 15, 6, 4, 8, 12, 3, 14, 21, 6, 9, 13, 7, 6, 4];
    let v5: Vec<i64> = vec![5, 7, 14, 2, 8, 16, 4, 9, 13, 6, 8, 4, 6, 3, 2, 4];
    let v6: Vec<i64> = vec![
        378, 381, 286, 224, 258, 237, 190, 140, 370, 497, 346, 277, 223, 251, 266, 129,
    ];

    let d: Matrix = Matrix::with_array(v4, 4, 4).unwrap();
    let e: Matrix = Matrix::with_array(v5, 4, 4).unwrap();
    let f: Matrix = Matrix::with_array(v6, 4, 4).unwrap();

    assert!(multipler(&d, &e).unwrap().eq(&f).unwrap());
}

#[test]
fn test_mult_naive() {
    test_multiplication_outputs(mult_naive);
}

#[test]
fn test_mult_transpose() {
    test_multiplication_outputs(mult_transpose);
}

#[test]
fn test_mult_strassen() {
    // A base-case threshold of 2 forces even these small inputs through the
    // recursive decomposition and the padding path.
    test_multiplication_outputs(|a, b| mult_strassen_threshold(a, b, 2));
}

#[test]
fn test_mult_strassen_default() {
    test_multiplication_outputs(mult_strassen);
}

#[test]
fn test_mult_dispatch() {
    test_multiplication_outputs(|a, b| a.mult(b, Algorithm::Naive));
    test_multiplication_outputs(|a, b| a.mult(b, Algorithm::Transpose));
    test_multiplication_outputs(|a, b| a.mult(b, Algorithm::Strassen));
}

#[test]
fn test_mult_aggregate() {
    let cols = 123;
    let rows = 219;
    let n = rows * cols;
    let mut v1: Vec<i64> = Vec::with_capacity(n);
    let mut v2: Vec<i64> = Vec::with_capacity(n);

    let mut rng = rand::thread_rng();

    for _ in 0..n {
        v1.push(rng.gen::<i64>() % 1000000);
        v2.push(rng.gen::<i64>() % 1000000);
    }

    let a: Matrix = Matrix::with_array(v1, rows, cols).unwrap();
    let b: Matrix = Matrix::with_array(v2, cols, rows).unwrap();

    let naive_result = a.mult(&b, Algorithm::Naive).unwrap();
    let transpose_result = a.mult(&b, Algorithm::Transpose).unwrap();
    let strassen_result = mult_strassen_threshold(&a, &b, 8).unwrap();

    assert!(naive_result.eq(&transpose_result).unwrap());
    assert!(transpose_result.eq(&naive_result).unwrap());
    assert!(naive_result.eq(&strassen_result).unwrap());
    assert!(strassen_result.eq(&naive_result).unwrap());
    assert!(transpose_result.eq(&strassen_result).unwrap());
    assert!(strassen_result.eq(&transpose_result).unwrap());
}

#[test]
fn test_mult_dimension_mismatch() {
    // 2x3 by 3x3: the right operand's column count (3) differs from the left
    // operand's row count (2).
    let a = Matrix::with_array(vec![1, 2, 3, 4, 5, 6], 2, 3).unwrap();
    let b = Matrix::with_array(vec![1, 2, 3, 4, 5, 6, 7, 8, 9], 3, 3).unwrap();
    assert_eq!(
        mult_naive(&a, &b).unwrap_err(),
        MatrixError::DimensionMismatch
    );
    assert_eq!(
        mult_transpose(&a, &b).unwrap_err(),
        MatrixError::DimensionMismatch
    );
    assert_eq!(
        mult_strassen(&a, &b).unwrap_err(),
        MatrixError::DimensionMismatch
    );
    assert_eq!(
        a.mult(&b, Algorithm::Strassen).unwrap_err(),
        MatrixError::DimensionMismatch
    );
}

#[test]
fn test_submatrix_add() {
    /*
     * Given an input matrix
     * -          -
     * | 1 1 2  2 |
     * | 1 1 2  2 |
     * | 3 3 10 10|
     * | 3 3 10 10|
     * -          -
     *
     * Should correctly add the top-left 2x2 and bottom-right 2x2 subarrays
     */
    let v1: Vec<i64> = vec![1, 1, 2, 2, 1, 1, 2, 2, 3, 3, 10, 10, 3, 3, 10, 10];
    let mut v2: Vec<i64> = Vec::with_capacity(4);
    let v3: Vec<i64> = vec![11, 11, 11, 11];
    let a: Matrix = Matrix::with_array(v1, 4, 4).unwrap();

    submatrix_add(&mut v2, &a, 0, 0, 2, 2, 2);

    assert!(v2.eq(&v3));
}

#[test]
fn test_submatrix_sub() {
    /*
     * Given an input matrix
     * -          -
     * | 1 1 2  2 |
     * | 1 1 2  2 |
     * | 3 3 10 10|
     * | 3 3 10 10|
     * -          -
     *
     * Should correctly subtract the top-left 2x2 from the bottom-right 2x2
     */
    let v1: Vec<i64> = vec![1, 1, 2, 2, 1, 1, 2, 2, 3, 3, 10, 10, 3, 3, 10, 10];
    let mut v2: Vec<i64> = Vec::with_capacity(4);
    let v3: Vec<i64> = vec![9, 9, 9, 9];
    let a: Matrix = Matrix::with_array(v1, 4, 4).unwrap();

    submatrix_sub(&mut v2, &a, 2, 2, 0, 0, 2);

    assert!(v2.eq(&v3));
}

#[test]
fn test_submatrix_cpy() {
    /*
     * Given an input matrix
     * -          -
     * | 1 1 2  2 |
     * | 1 1 2  2 |
     * | 3 3 10 10|
     * | 3 3 10 10|
     * -          -
     *
     * Should correctly copy the top-left and bottom-right 2x2 subarrays into new vecs
     */
    let v1: Vec<i64> = vec![1, 1, 2, 2, 1, 1, 2, 2, 3, 3, 10, 10, 3, 3, 10, 10];
    let mut v2: Vec<i64> = Vec::with_capacity(4);
    let mut v3: Vec<i64> = Vec::with_capacity(4);
    let v4: Vec<i64> = vec![1, 1, 1, 1];
    let v5: Vec<i64> = vec![10, 10, 10, 10];
    let a: Matrix = Matrix::with_array(v1, 4, 4).unwrap();

    submatrix_cpy(&mut v2, &a, 0, 0, 2);
    submatrix_cpy(&mut v3, &a, 2, 2, 2);

    assert!(v2.eq(&v4));
    assert!(v3.eq(&v5));
}

#[test]
fn test_reconstitute() {
    /*
     * Given 4 input submatrices representing M1,1 | M1,2 | M2,1 | M2,2
     * -     - -      -
     * | 1 1 | | 2  2 |
     * | 1 1 | | 2  2 |
     * -     - -      -
     * -     - -       -
     * | 3 3 | | 10 10 |
     * | 3 3 | | 10 10 |
     * -     - -       -
     *
     * Should correctly reconstitute a 4x4 matrix as such:
     * -          -
     * | 1 1 2  2 |
     * | 1 1 2  2 |
     * | 3 3 10 10|
     * | 3 3 10 10|
     * -          -
     */
    let m11 = Matrix::with_array(vec![1, 1, 1, 1], 2, 2).unwrap();
    let m12 = Matrix::with_array(vec![2, 2, 2, 2], 2, 2).unwrap();
    let m21 = Matrix::with_array(vec![3, 3, 3, 3], 2, 2).unwrap();
    let m22 = Matrix::with_array(vec![10, 10, 10, 10], 2, 2).unwrap();
    let a = Matrix::with_array(
        vec![1, 1, 2, 2, 1, 1, 2, 2, 3, 3, 10, 10, 3, 3, 10, 10],
        4,
        4,
    )
    .unwrap();

    let b = reconstitute(&m11, &m12, &m21, &m22, 2, 4);

    assert!(a.eq(&b).unwrap());
}

#[test]
fn test_strassen_wrapping_agrees() {
    // Entries near the i64 boundaries overflow during multiplication; every
    // algorithm must wrap identically.
    let v1: Vec<i64> = vec![i64::MAX, 2, -3, i64::MIN, 7, 11, 13, -17, 19];
    let v2: Vec<i64> = vec![23, -29, i64::MAX, 31, 37, -41, i64::MIN, 43, 47];
    let a = Matrix::with_array(v1, 3, 3).unwrap();
    let b = Matrix::with_array(v2, 3, 3).unwrap();
    let naive = mult_naive(&a, &b).unwrap();
    let transpose = mult_transpose(&a, &b).unwrap();
    let strassen = mult_strassen_threshold(&a, &b, 2).unwrap();
    assert!(naive.eq(&transpose).unwrap());
    assert!(naive.eq(&strassen).unwrap());
}
