use strassen::matrix::{Matrix, MatrixError};

#[test]
fn test_eq() {
    let v1: Vec<i64> = vec![1, 2, 3, 4];
    let v2: Vec<i64> = vec![1, 2, 3, 4];

    let a: Matrix = Matrix::with_array(v1, 2, 2).unwrap();
    let b: Matrix = Matrix::with_array(v2, 2, 2).unwrap();

    assert!(a.eq(&b).unwrap());
}

#[test]
fn test_add() {
    let v1: Vec<i64> = vec![1, 2, 3, 4];
    let v2: Vec<i64> = vec![9, 8, 7, 6];
    let v3: Vec<i64> = vec![10, 10, 10, 10];

    let mut a: Matrix = Matrix::with_array(v1, 2, 2).unwrap();
    let b: Matrix = Matrix::with_array(v2, 2, 2).unwrap();

    a.add(&b).unwrap();

    assert!(a.array.eq(&v3));
    assert!(a.eq(&Matrix::with_array(v3, 2, 2).unwrap()).unwrap());
}

#[test]
fn test_sub() {
    let v1: Vec<i64> = vec![10, 10, 10, 10];
    let v2: Vec<i64> = vec![6, 7, 8, 9];
    let v3: Vec<i64> = vec![4, 3, 2, 1];

    let mut a: Matrix = Matrix::with_array(v1, 2, 2).unwrap();
    let b: Matrix = Matrix::with_array(v2, 2, 2).unwrap();

    a.sub(&b).unwrap();

    assert!(a.array.eq(&v3));
    assert!(a.eq(&Matrix::with_array(v3, 2, 2).unwrap()).unwrap());
}

#[test]
fn test_at() {
    let rows = 2;
    let cols = 6;
    let v: Vec<i64> = vec![1, 2, 3, 4, 5, 6, 7, 8, 9, 10, 11, 12];
    let a: Matrix = Matrix::with_array(v, rows, cols).unwrap();
    let mut indx: i64 = 1;

    for i in 0..rows {
        for j in 0..cols {
            assert_eq!(a.at(i, j), indx);
            indx += 1;
        }
    }
}

#[test]
fn test_is_square() {
    let v: Vec<i64> = vec![1, 2, 3, 4, 5, 6, 7, 8, 9, 10, 11, 12, 13, 14, 15, 16];
    let a: Matrix = Matrix::with_array(v.to_vec(), 2, 8).unwrap();
    let b: Matrix = Matrix::with_array(v.to_vec(), 4, 4).unwrap();

    assert!(!a.is_square());
    assert!(b.is_square());
}

#[test]
fn test_transpose_1() {
    let rows = 2;
    let cols = 6;
    let v1: Vec<i64> = vec![1, 2, 3, 4, 5, 6, 7, 8, 9, 10, 11, 12];
    let v2: Vec<i64> = vec![1, 7, 2, 8, 3, 9, 4, 10, 5, 11, 6, 12];
    let a: Matrix = Matrix::with_array(v1, rows, cols).unwrap();
    let b: Matrix = Matrix::with_array(v2, cols, rows).unwrap();

    let c = a.transpose();

    assert!(c.eq(&b).unwrap());
}

#[test]
fn test_transpose_2() {
    let rows = 3;
    let cols = 3;
    let v1: Vec<i64> = vec![1, 2, 3, 4, 5, 6, 7, 8, 9];
    let v2: Vec<i64> = vec![1, 4, 7, 2, 5, 8, 3, 6, 9];
    let a: Matrix = Matrix::with_array(v1, rows, cols).unwrap();
    let b: Matrix = Matrix::with_array(v2, cols, rows).unwrap();

    let c = a.transpose();

    assert!(c.eq(&b).unwrap());
}

#[test]
fn test_pad_cols() {
    let rows = 5;
    let cols = 2;
    let v1: Vec<i64> = vec![1, 2, 3, 4, 5, 6, 7, 8, 9, 10];
    let v2: Vec<i64> = vec![
        1, 2, 0, 0, 0, 3, 4, 0, 0, 0, 5, 6, 0, 0, 0, 7, 8, 0, 0, 0, 9, 10, 0, 0, 0,
    ];
    let a: Matrix = Matrix::with_array(v1, rows, cols).unwrap();
    let b: Matrix = Matrix::with_array(v2, 5, 5).unwrap();

    let c = a.pad(rows);

    assert!(c.eq(&b).unwrap());
}

#[test]
fn test_pad_rows() {
    let rows = 2;
    let cols = 5;
    let v1: Vec<i64> = vec![1, 2, 3, 4, 5, 6, 7, 8, 9, 10];
    let v2: Vec<i64> = vec![
        1, 2, 3, 4, 5, 6, 7, 8, 9, 10, 0, 0, 0, 0, 0, 0, 0, 0, 0, 0, 0, 0, 0, 0, 0,
    ];
    let a: Matrix = Matrix::with_array(v1, rows, cols).unwrap();
    let b: Matrix = Matrix::with_array(v2, 5, 5).unwrap();

    let c = a.pad(cols);

    assert!(c.eq(&b).unwrap());
}

#[test]
fn test_pad_none() {
    let rows = 2;
    let cols = 5;
    let v1: Vec<i64> = vec![1, 2, 3, 4, 5, 6, 7, 8, 9, 10];
    let a: Matrix = Matrix::with_array(v1, rows, cols).unwrap();

    let c = a.pad(1);

    assert!(c.eq(&a).unwrap());
}

#[test]
fn test_reduce() {
    let rows = 5;
    let cols = 5;
    let v1: Vec<i64> = vec![
        1, 2, 3, 4, 5, 6, 7, 8, 9, 10, 0, 0, 0, 0, 0, 0, 0, 0, 0, 0, 0, 0, 0, 0, 0,
    ];
    let v2: Vec<i64> = vec![1, 2, 3, 4, 6, 7, 8, 9];
    let a: Matrix = Matrix::with_array(v1, rows, cols).unwrap();
    let b: Matrix = Matrix::with_array(v2, 2, 4).unwrap();

    let c = a.reduce(2, 4).unwrap();

    let described = format!(
        "rows: {} cols: {} n: {} array: {:?}",
        c.rows, c.cols, c.n, c.array
    );
    println!("reduced C: {}", described);

    assert!(c.eq(&b).unwrap());
}

#[test]
fn test_with_array_zero_rows() {
    let r = Matrix::with_array(vec![1, 2, 3], 0, 3);
    assert_eq!(r.unwrap_err(), MatrixError::InvalidDimension);
}

#[test]
fn test_with_array_zero_cols() {
    let r = Matrix::with_array(vec![1, 2, 3], 3, 0);
    assert_eq!(r.unwrap_err(), MatrixError::InvalidDimension);
}

#[test]
fn test_with_array_size_mismatch() {
    let r = Matrix::with_array(vec![1, 2, 3], 2, 2);
    assert_eq!(r.unwrap_err(), MatrixError::SizeMismatch);
}

#[test]
fn test_new_zeros() {
    let m = Matrix::new(2, 3).unwrap();
    assert_eq!(m.rows, 2);
    assert_eq!(m.cols, 3);
    for i in 0..2 {
        for j in 0..3 {
            assert_eq!(m.at(i, j), 0);
        }
    }
    assert_eq!(Matrix::new(0, 3).unwrap_err(), MatrixError::InvalidDimension);
}

#[test]
fn test_add_dimension_mismatch() {
    let mut a = Matrix::with_array(vec![1, 2, 3, 4], 2, 2).unwrap();
    let b = Matrix::with_array(vec![1, 2, 3, 4, 5, 6], 2, 3).unwrap();
    assert_eq!(a.add(&b).unwrap_err(), MatrixError::DimensionMismatch);
    assert_eq!(a.sub(&b).unwrap_err(), MatrixError::DimensionMismatch);
    assert_eq!(a.array, vec![1, 2, 3, 4]);
}

#[test]
fn test_eq_dimension_mismatch() {
    let a = Matrix::with_array(vec![1, 2, 3, 4], 2, 2).unwrap();
    let b = Matrix::with_array(vec![1, 2, 3, 4], 1, 4).unwrap();
    assert_eq!(a.eq(&b).unwrap_err(), MatrixError::DimensionMismatch);
}

#[test]
fn test_reduce_invalid_dimension() {
    let a = Matrix::with_array(vec![1, 2, 3, 4], 2, 2).unwrap();
    assert_eq!(a.reduce(3, 2).unwrap_err(), MatrixError::InvalidDimension);
    assert_eq!(a.reduce(0, 2).unwrap_err(), MatrixError::InvalidDimension);
}

#[test]
fn test_transpose_involution() {
    let v: Vec<i64> = vec![3, -1, 4, 1, -5, 9, 2, 6, -5, 3, 5, 8];
    let a = Matrix::with_array(v.clone(), 3, 4).unwrap();
    let u = a.transpose().transpose();
    assert_eq!(u.rows, 3);
    assert_eq!(u.cols, 4);
    assert_eq!(u.array, v);
}

#[test]
fn test_pad_reduce_roundtrip() {
    let v: Vec<i64> = vec![1, 2, 3, 4, 5, 6, 7, 8, 9, 10];
    let a = Matrix::with_array(v.clone(), 2, 5).unwrap();
    let r = a.pad(7).reduce(2, 5).unwrap();
    assert_eq!(r.rows, 2);
    assert_eq!(r.cols, 5);
    assert_eq!(r.array, v);
}

#[test]
fn test_add_sub_inverse() {
    let v1: Vec<i64> = vec![5, -3, i64::MAX, i64::MIN, 0, 42];
    let v2: Vec<i64> = vec![17, 17, 1, -1, i64::MAX, -42];
    let a = Matrix::with_array(v1.clone(), 2, 3).unwrap();
    let b = Matrix::with_array(v2, 2, 3).unwrap();
    let mut c = a.copy();
    c.add(&b).unwrap();
    c.sub(&b).unwrap();
    assert!(c.eq(&a).unwrap());
    assert_eq!(c.array, v1);
}
