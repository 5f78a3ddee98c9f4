use strassen::matrix::Matrix;
use strassen::par_mult::mult_par_transpose;

#[test]
fn test_mult_par_transpose() {
    let v1: Vec<i64> = vec![12, 8, 4, 3, 17, 14, 9, 8, 10];
    let v2: Vec<i64> = vec![5, 19, 3, 6, 15, 9, 7, 8, 16];
    let v3: Vec<i64> = vec![136, 380, 172, 215, 424, 386, 163, 371, 259];

    let a: Matrix = Matrix::with_array(v1, 3, 3).unwrap();
    let b: Matrix = Matrix::with_array(v2, 3, 3).unwrap();
    let c: Matrix = Matrix::with_array(v3, 3, 3).unwrap();

    assert!(mult_par_transpose(&a, &b).unwrap().eq(&c).unwrap());

    let v4: Vec<i64> = vec![7, 14, 15, 6, 4, 8, 12, 3, 14, 21, 6, 9, 13, 7, 6, 4];
    let v5: Vec<i64> = vec![5, 7, 14, 2, 8, 16, 4, 9, 13, 6, 8, 4, 6, 3, 2, 4];
    let v6: Vec<i64> = vec![
        378, 381, 286, 224, 258, 237, 190, 140, 370, 497, 346, 277, 223, 251, 266, 129,
    ];

    let d: Matrix = Matrix::with_array(v4, 4, 4).unwrap();
    let e: Matrix = Matrix::with_array(v5, 4, 4).unwrap();
    let f: Matrix = Matrix::with_array(v6, 4, 4).unwrap();

    assert!(mult_par_transpose(&d, &e).unwrap().eq(&f).unwrap());
}
