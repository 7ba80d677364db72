use algebra::error::{AlgebraError, ErrorKind};
use algebra::matrix::Matrix;
use algebra::transpose::{MatrixTransposition, _tranpose_internal};

#[test]
fn test_transpose() {
    let t: Matrix<_> = Matrix { inner: vec![0, 1, 2, 3, 4, 5, 6, 7, 8], row: 3, col: 3 };

    let e: Matrix<_> = Matrix { inner: vec![0, 3, 6, 1, 4, 7, 2, 5, 8], row: 3, col: 3 };

    assert_eq!(&t.transposed(), &e);

    assert_eq!(t.transpose(), e);
}

#[test]
fn transpose_mut_of_square_matrix() {
    let mut t = Matrix { inner: vec![0, 1, 2, 3, 4, 5, 6, 7, 8], row: 3, col: 3 };
    t.transpose_mut();
    assert_eq!(t, Matrix { inner: vec![0, 3, 6, 1, 4, 7, 2, 5, 8], row: 3, col: 3 });
}

#[test]
fn transpose_of_rectangular_matrix_exchanges_dimensions() {
    let m = Matrix { inner: vec![1, 2, 3, 4, 5, 6], row: 2, col: 3 };
    let e = Matrix { inner: vec![1, 4, 2, 5, 3, 6], row: 3, col: 2 };
    assert_eq!(m.transposed(), e);
    let mut n = Matrix { inner: vec![1, 2, 3, 4, 5, 6], row: 2, col: 3 };
    n.transpose_mut();
    assert_eq!(n, e);
    assert_eq!(m.transpose(), e);

    let tall = Matrix { inner: vec![1, 2, 3, 4, 5, 6], row: 3, col: 2 };
    assert_eq!(tall.transpose(), Matrix { inner: vec![1, 3, 5, 2, 4, 6], row: 2, col: 3 });
}

#[test]
fn transpose_twice_gives_the_matrix_back() {
    let m = Matrix { inner: vec![1, 2, 3, 4, 5, 6], row: 2, col: 3 };
    assert_eq!(m.transposed().transposed(), m);
    let s = Matrix { inner: vec![0, 1, 2, 3, 4, 5, 6, 7, 8], row: 3, col: 3 };
    assert_eq!(s.transposed().transpose(), s);
    let empty: Matrix<u8> = Matrix { inner: vec![], row: 0, col: 5 };
    let once = empty.transposed();
    assert_eq!((once.row, once.col), (5, 0));
    assert_eq!(once.transpose(), empty);
}

#[test]
fn transpose_has_the_dimensions_exchanged() {
    let m = Matrix { inner: vec![7; 12], row: 3, col: 4 };
    let t = m.transposed();
    assert_eq!((t.row, t.col), (4, 3));
    assert_eq!(t.inner.len(), 12);
}

#[test]
fn safe_transpose_rejects_a_malformed_matrix() {
    let structure = AlgebraError { kind: ErrorKind::MatrixStructure };
    let short = Matrix { inner: vec![1, 2, 3, 4, 5], row: 2, col: 3 };
    assert_eq!(short.safe_transposed(), Err(structure));
    let long = Matrix { inner: vec![1, 2, 3, 4, 5, 6, 7], row: 2, col: 3 };
    assert_eq!(long.safe_transposed(), Err(structure));
    assert_eq!(long.safe_transpose(), Err(structure));

    let mut kept = Matrix { inner: vec![1, 2, 3, 4, 5], row: 2, col: 3 };
    assert_eq!(kept.safe_transpose_mut(), Err(structure));
    assert_eq!(kept, Matrix { inner: vec![1, 2, 3, 4, 5], row: 2, col: 3 });

    let huge = Matrix { inner: vec![1u8], row: usize::MAX, col: 2 };
    assert_eq!(huge.safe_transposed(), Err(structure));
}

#[test]
fn safe_transpose_transposes_a_well_formed_matrix() {
    let m = Matrix { inner: vec![1, 2, 3, 4, 5, 6], row: 2, col: 3 };
    let e = Matrix { inner: vec![1, 4, 2, 5, 3, 6], row: 3, col: 2 };
    assert_eq!(m.safe_transposed(), Ok(Matrix { inner: vec![1, 4, 2, 5, 3, 6], row: 3, col: 2 }));
    let mut n = Matrix { inner: vec![1, 2, 3, 4, 5, 6], row: 2, col: 3 };
    assert_eq!(n.safe_transpose_mut(), Ok(()));
    assert_eq!(n, e);
    assert_eq!(m.safe_transpose(), Ok(e));
}

#[test]
fn transposition_builds_a_new_matrix() {
    let m = Matrix { inner: vec![1, 2, 3, 4, 5, 6], row: 2, col: 3 };
    let t = MatrixTransposition::new(&m).transpose();
    assert_eq!(t, Matrix { inner: vec![1, 4, 2, 5, 3, 6], row: 3, col: 2 });
    assert_eq!(_tranpose_internal(&m), vec![1, 4, 2, 5, 3, 6]);
    assert_eq!(m.inner, vec![1, 2, 3, 4, 5, 6]);
}

#[test]
fn transpose_agrees_in_all_three_forms_on_many_shapes() {
    for row in 0..6usize {
        for col in 0..6usize {
            let inner: Vec<usize> = (0..row * col).collect();
            let m = Matrix { inner, row, col };
            let t = m.transposed();
            assert_eq!((t.row, t.col), (col, row));
            for i in 0..row {
                for j in 0..col {
                    assert_eq!(t.entry(j, i), m.entry(i, j));
                }
            }
            let mut in_place = m.clone();
            in_place.transpose_mut();
            assert_eq!(in_place, t);
            assert_eq!(m.clone().transpose(), t);
            assert_eq!(t.transposed(), m);
        }
    }
}
