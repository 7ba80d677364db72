use algebra::error::{MatrixError, VectorError};
use algebra::matrix::{integer_sqrt, Matrix};
use algebra::rational::Rational;

fn whole(values: &[i64]) -> Matrix<Rational> {
    Matrix::from(values.iter().map(|v| Rational::from_integer(*v)).collect::<Vec<Rational>>())
}

#[test]
fn test_column_permutation() {
    let exp = vec![0, 3, 6, 1, 4, 7, 2, 5, 8].into_iter();
    let test = Matrix::<isize>::from(vec![0, 1, 2, 3, 4, 5, 6, 7, 8]).permute_cols();
    for (exp, test) in exp.into_iter().zip(test) {
        assert_eq!(exp, test);
    }
}

#[test]
fn test_matrix_get() {
    let test = Matrix::<isize>::from(vec![0, 1, 2, 3, 4, 5, 6, 7, 8]);
    assert_eq!(*test.get(1, 1).unwrap(), 4);
    assert_eq!(*test.get(1, 2).unwrap(), 5);
    assert_eq!(*test.get(2, 1).unwrap(), 7);
    match test.get(2, 8) {
        Err(_) => {}
        _ => panic!("MatrixError was not returned as expected"),
    }
}

#[test]
fn test_scalar_mul() {
    let test = whole(&[0, 1, 2, 3, 4, 5, 6, 7, 8]).scalar(&Rational::from_integer(3));
    let exp = whole(&[0, 3, 6, 9, 12, 15, 18, 21, 24]);
    assert_eq!(test, exp);
}

#[test]
fn test_matrix_cross_product() {
    let test = whole(&[0, 1, 2, 3, 4, 5, 6, 7, 8]).cross(&whole(&[0, 1, 2, 3, 4, 5, 6, 7, 8]));
    let exp = whole(&[15, 18, 21, 42, 54, 66, 69, 90, 111]);
    assert_eq!(test, exp);
}

#[test]
fn test_identity_matrix() {
    let exp = whole(&[0, 1, 2, 3, 4, 5, 6, 7, 8]);
    let test = whole(&[0, 1, 2, 3, 4, 5, 6, 7, 8]);
    let identity = test.identity();
    assert_eq!(test.cross(&identity), exp);
}

#[test]
fn identity_has_one_on_the_diagonal() {
    let m = whole(&[5, 5, 5, 5]);
    assert_eq!(m.identity(), whole(&[1, 0, 0, 1]));
    let wide = Matrix::new(whole(&[5, 5, 5, 5]).inner, 1, 4);
    let id = wide.identity();
    assert_eq!((id.row, id.col), (1, 4));
    assert_eq!(id.inner, whole(&[1, 0, 0, 0]).inner);
}

#[test]
fn cross_of_rectangular_matrices() {
    let a = Matrix::new(whole(&[1, 2, 3, 4]).inner, 1, 4);
    let b = Matrix::new(whole(&[1, 1, 1, 1]).inner, 4, 1);
    let c = a.cross(&b);
    assert_eq!((c.row, c.col), (1, 1));
    assert_eq!(c.inner[0], Rational::from_integer(10));
    let d = b.cross(&a);
    assert_eq!((d.row, d.col), (4, 4));
    assert_eq!(d.inner[7], Rational::from_integer(4));
}

#[test]
fn dot_of_row_and_column() {
    let a = whole(&[1, 2, 3, 4]);
    let b = whole(&[5, 6, 7, 8]);
    assert_eq!(a.dot(1, &b, 0), Rational::from_integer(43));
}

#[test]
fn duplicate_keeps_shape_and_values() {
    let a = Matrix::new(whole(&[1, 2, 3, 4]).inner, 1, 4);
    assert_eq!(a.duplicate(), a);
}

#[test]
fn entries_are_read_and_written_in_row_major_order() {
    let mut m = Matrix::new(vec![1, 2, 3, 4, 5, 6], 2, 3);
    assert_eq!(*m.entry(1, 0), 4);
    m.set_entry(0, 2, 9);
    assert_eq!(m.inner, vec![1, 2, 9, 4, 5, 6]);
    let mut q = whole(&[1, 2, 3, 4]);
    assert_eq!(*q.peek(1, 0), Rational::from_integer(3));
    q.put(1, 0, Rational::from_integer(8));
    assert_eq!(q, whole(&[1, 2, 8, 4]));
}

#[test]
fn get_col_lists_one_column() {
    let m = Matrix::new(vec![1, 2, 3, 4, 5, 6], 2, 3);
    assert_eq!(m.get_col(0), vec![1, 4]);
    assert_eq!(m.get_col(2), vec![3, 6]);
}

#[test]
fn get_names_index_and_dimensions() {
    let m = Matrix::new(vec![1, 2, 3, 4, 5, 6], 2, 3);
    assert_eq!(m.get(1, 2), Ok(&6));
    assert_eq!(
        m.get(2, 0),
        Err(MatrixError::InvalidIndex("index (2,0) exceeds max dimension of (2,3)".to_string()))
    );
    assert_eq!(
        m.get(0, 3),
        Err(MatrixError::InvalidIndex("index (0,3) exceeds max dimension of (2,3)".to_string()))
    );
    let short = Matrix::new(vec![1, 2, 3, 4], 2, 3);
    assert_eq!(short.get(1, 0), Ok(&4));
    assert_eq!(
        short.get(1, 1),
        Err(MatrixError::InvalidIndex("index (1,1) exceeds max dimension of (2,3)".to_string()))
    );
}

#[test]
fn well_formedness_is_checked() {
    assert!(Matrix::new(vec![1, 2, 3, 4, 5, 6], 2, 3).is_well_formed());
    assert!(!Matrix::new(vec![1, 2, 3, 4, 5], 2, 3).is_well_formed());
    assert!(!Matrix::new(vec![1u8], usize::MAX, 2).is_well_formed());
    assert!(Matrix::<u8>::new(vec![], 0, 7).is_well_formed());
}

#[test]
fn square_matrix_from_buffer() {
    let m = Matrix::from(vec![1, 2, 3, 4, 5, 6, 7, 8, 9]);
    assert_eq!((m.row, m.col), (3, 3));
    let odd = Matrix::square(vec![1, 2, 3, 4, 5]);
    assert_eq!((odd.row, odd.col), (2, 2));
    assert!(!odd.is_well_formed());
    let none: Matrix<u8> = Matrix::from(vec![]);
    assert_eq!((none.row, none.col), (0, 0));
}

#[test]
fn integer_square_roots() {
    assert_eq!(integer_sqrt(0), 0);
    assert_eq!(integer_sqrt(1), 1);
    assert_eq!(integer_sqrt(3), 1);
    assert_eq!(integer_sqrt(4), 2);
    assert_eq!(integer_sqrt(99), 9);
    assert_eq!(integer_sqrt(100), 10);
}

#[test]
fn matrix_error_messages() {
    assert_eq!(
        MatrixError::invalid_index(2, 8, 3),
        MatrixError::InvalidIndex("index (2,8) exceeds max dimension of (3,3)".to_string())
    );
    assert_eq!(
        MatrixError::out_of_range(10, 0, 120, 7),
        MatrixError::InvalidIndex("index (10,0) exceeds max dimension of (120,7)".to_string())
    );
    assert_eq!(
        MatrixError::invalid_dimension(3, 4),
        MatrixError::InvalidDimension("cannot multiply inequal dimensions: 3 != 4".to_string())
    );
    let failed: Result<u8, MatrixError> = MatrixError::invalid_dimension(1, 2).as_result();
    assert_eq!(failed, Err(MatrixError::invalid_dimension(1, 2)));
}

#[test]
fn vector_error_messages() {
    assert_eq!(
        VectorError::invalid_index(5, 3),
        VectorError::InvalidIndex("index (5) exceeds length of vector (3)".to_string())
    );
    assert_eq!(
        VectorError::computational("no inverse"),
        VectorError::Computational("Computational error: no inverse".to_string())
    );
    let failed: Result<(), VectorError> = VectorError::computational("x").as_result();
    assert_eq!(failed, Err(VectorError::Computational("Computational error: x".to_string())));
}
