use algebra::matrix::Matrix;
use algebra::rational::Rational;
use algebra::scalar::Scalar;

fn rationals(values: &[i64]) -> Vec<Rational> {
    values.iter().map(|v| Rational::from_integer(*v)).collect()
}

fn square(values: &[i64]) -> Matrix<Rational> {
    Matrix::from(rationals(values))
}

fn to_f32(q: &Rational) -> f32 {
    let (n, d) = q.to_i64_pair().unwrap();
    n as f32 / d as f32
}

fn floats(m: &Matrix<Rational>) -> Matrix<f32> {
    Matrix { inner: m.inner.iter().map(to_f32).collect(), row: m.row, col: m.col }
}

fn fraction(n: i64, d: i64) -> Rational {
    Rational::new(n, d).unwrap()
}

#[test]
fn test_lu_decomposition() {
    let a = square(&[1, 1, 2, 2, 2, 2, 4, 6, -1, -1, -1, 1, 1, 1, 3, 1]);

    let le: Matrix<f32> = vec![
        1.0, 0.0, 0.0, 0.0,
        -0.5, 1.0, 0.0, 0.0,
        0.5, 1.0, 1.0, 0.0,
        0.5, 0.0, 0.166_666_67, 1.0,
    ].into();

    let ue: Matrix<f32> = vec![
        2.0, 2.0, 4.0, 6.0,
        0.0, 0.0, 1.0, 4.0,
        0.0, 0.0, 0.0, -6.0,
        0.0, 0.0, 0.0, 0.0,
    ].into();

    let pe: Matrix<f32> = vec![
        0.0, 1.0, 0.0, 0.0,
        0.0, 0.0, 1.0, 0.0,
        0.0, 0.0, 0.0, 1.0,
        1.0, 0.0, 0.0, 0.0,
    ].into();

    let (p, l, u) = a.lu();

    assert_eq!(le, floats(&l));

    assert_eq!(ue, floats(&u));

    assert_eq!(pe, floats(&p));
}

#[test]
fn test_permutation_index() {
    let a = square(&[2, 2, -1, 2, -1, 0, 1, 3, 1]);

    let (p, l, u) = a.lu_ref();

    // Every pivot already stands in its row, so no rows are exchanged and
    // the product of the factors is the matrix itself.
    let exp_p: Matrix<f32> = vec![
        1.0, 0.0, 0.0,
        0.0, 1.0, 0.0,
        0.0, 0.0, 1.0,
    ].into();
    assert_eq!(floats(&p), exp_p);
    assert_eq!(p.cross(&a), l.cross(&u));

    let exp_l: Matrix<f32> = vec![
        1.0, 0.0, 0.0,
        1.0, 1.0, 0.0,
        0.5, -2.0 / 3.0, 1.0,
    ].into();
    assert_eq!(floats(&l), exp_l);

    let exp_u: Matrix<f32> = vec![
        2.0, 2.0, -1.0,
        0.0, -3.0, 1.0,
        0.0, 0.0, 13.0 / 6.0,
    ].into();
    assert_eq!(floats(&u), exp_u);
}

#[test]
fn lu_gives_exact_fractions() {
    let (_, l, u) = square(&[2, 2, -1, 2, -1, 0, 1, 3, 1]).lu();
    assert_eq!(*l.entry(2, 0), fraction(1, 2));
    assert_eq!(*l.entry(2, 1), fraction(-2, 3));
    assert_eq!(*u.entry(2, 2), fraction(13, 6));
    assert_eq!(*u.entry(1, 1), Rational::from_integer(-3));
}

#[test]
fn lu_reconstructs_the_permuted_matrix() {
    let values = [1, 1, 2, 2, 2, 2, 4, 6, -1, -1, -1, 1, 1, 1, 3, 1];
    let a = square(&values);
    let (p, l, u) = a.lu_ref();
    assert_eq!(p.cross(&a), l.cross(&u));

    let b = square(&[0, 5, -7, 3, 3, 1, -6, 2, 9]);
    let (p, l, u) = b.lu_ref();
    assert_eq!(p.cross(&b), l.cross(&u));
    assert_ne!(l.cross(&u), b);
}

#[test]
fn lu_lower_factor_is_unit_lower_triangular() {
    let (_, l, _) = square(&[0, 5, -7, 3, 3, 1, -6, 2, 9]).lu();
    for i in 0..3 {
        for j in 0..3 {
            if i == j {
                assert!(l.entry(i, j).sub(&Rational::one()).is_zero());
            } else if i < j {
                assert!(l.entry(i, j).is_zero());
            }
        }
    }
}

#[test]
fn lu_upper_factor_is_upper_triangular() {
    let (_, _, u) = square(&[0, 5, -7, 3, 3, 1, -6, 2, 9]).lu();
    for i in 0..3 {
        for j in 0..i {
            assert!(u.entry(i, j).is_zero());
        }
    }
    assert_eq!(*u.entry(0, 0), Rational::from_integer(-6));
}

#[test]
fn lu_permutation_has_one_in_each_row_and_column() {
    let (p, _, _) = square(&[0, 5, -7, 3, 3, 1, -6, 2, 9]).lu();
    for i in 0..3 {
        let mut in_row = 0;
        let mut in_col = 0;
        for j in 0..3 {
            let r = p.entry(i, j);
            let c = p.entry(j, i);
            assert!(r.is_zero() || *r == Rational::one());
            if !r.is_zero() {
                in_row += 1;
            }
            if !c.is_zero() {
                in_col += 1;
            }
        }
        assert_eq!(in_row, 1);
        assert_eq!(in_col, 1);
    }
    assert_eq!(*p.entry(0, 2), Rational::one());
}

#[test]
fn lu_multipliers_have_magnitude_at_most_one() {
    let (_, l, _) = square(&[1, 100, 3, 50, -7, 2, -80, 4, 4]).lu();
    for q in l.inner.iter() {
        assert!(!q.abs().gt(&Rational::one()));
    }
}

#[test]
fn lu_of_zero_matrix_passes_over_every_column() {
    let (p, l, u) = square(&[0, 0, 0, 0]).lu();
    assert_eq!(p, square(&[1, 0, 0, 1]));
    assert_eq!(l, square(&[1, 0, 0, 1]));
    assert_eq!(u, square(&[0, 0, 0, 0]));
}

#[test]
fn lu_passes_over_a_zero_column_without_advancing() {
    let (p, l, u) = square(&[0, 3, 0, 6]).lu();
    assert_eq!(p, square(&[0, 1, 1, 0]));
    assert_eq!(*l.entry(1, 0), fraction(1, 2));
    assert_eq!(u, square(&[0, 6, 0, 0]));

    let (p, l, u) = square(&[0, 0, 5, 0, 0, 0, 0, 2, 1]).lu();
    assert_eq!(p, square(&[0, 0, 1, 1, 0, 0, 0, 1, 0]));
    assert_eq!(l, square(&[1, 0, 0, 0, 1, 0, 0, 0, 1]));
    assert_eq!(u, square(&[0, 2, 1, 0, 0, 5, 0, 0, 0]));
}

#[test]
fn lu_takes_first_row_among_equal_magnitudes() {
    let (p, _, u) = square(&[3, 1, -3, 2]).lu();
    assert_eq!(p, square(&[1, 0, 0, 1]));
    assert_eq!(*u.entry(0, 0), Rational::from_integer(3));
    assert_eq!(*u.entry(1, 1), Rational::from_integer(3));
}

#[test]
fn lu_takes_greatest_magnitude_not_greatest_value() {
    let (p, l, u) = square(&[1, 2, -4, 0]).lu();
    assert_eq!(p, square(&[0, 1, 1, 0]));
    assert_eq!(*u.entry(0, 0), Rational::from_integer(-4));
    assert_eq!(*l.entry(1, 0), fraction(-1, 4));
    assert_eq!(*u.entry(1, 1), Rational::from_integer(2));
}

#[test]
fn lu_of_one_by_one_and_of_empty() {
    let (p, l, u) = square(&[7]).lu();
    assert_eq!(p, square(&[1]));
    assert_eq!(l, square(&[1]));
    assert_eq!(u, square(&[7]));

    let (p, l, u) = square(&[]).lu();
    assert_eq!((p.row, p.col, p.inner.len()), (0, 0, 0));
    assert_eq!((l.row, l.col, l.inner.len()), (0, 0, 0));
    assert_eq!((u.row, u.col, u.inner.len()), (0, 0, 0));
}

#[test]
fn lu_ref_leaves_the_matrix_as_it_was() {
    let a = square(&[2, 2, -1, 2, -1, 0, 1, 3, 1]);
    let by_ref = a.lu_ref();
    assert_eq!(a, square(&[2, 2, -1, 2, -1, 0, 1, 3, 1]));
    assert_eq!(by_ref, a.lu());
}

#[test]
fn pivot_row_is_first_of_greatest_magnitude() {
    let a = square(&[1, 0, 0, -5, 0, 0, 5, 0, 0]);
    assert_eq!(a.pivot_row(0), 1);
    assert_eq!(a.pivot_row(1), 0);
}

#[test]
fn row_kernels_change_what_they_say() {
    let mut a = square(&[1, 2, 3, 4, 5, 6, 7, 8, 9]);
    a.swap_rows(0, 2, 1, 3);
    assert_eq!(a, square(&[1, 8, 9, 4, 5, 6, 7, 2, 3]));

    let work = square(&[2, 4, 6, 1, 1, 1, 4, 0, 0]);
    let mut lower = square(&[1, 0, 0, 0, 1, 0, 0, 0, 1]);
    lower.fill_multipliers(&work, 0, 0);
    assert_eq!(*lower.entry(1, 0), fraction(1, 2));
    assert_eq!(*lower.entry(2, 0), Rational::from_integer(2));

    let mut upper = square(&[0, 0, 0, 0, 0, 0, 0, 0, 0]);
    upper.copy_row_tail(&work, 0, 1);
    assert_eq!(upper, square(&[0, 4, 6, 0, 0, 0, 0, 0, 0]));

    let mut rest = square(&[2, 4, 6, 1, 1, 1, 4, 0, 0]);
    let full = square(&[2, 4, 6, 0, 0, 0, 0, 0, 0]);
    rest.reduce(&lower, &full, 0, 0);
    assert_eq!(rest, square(&[0, 0, 0, 0, -1, -2, 0, -8, -12]));
}

#[test]
fn permutation_matrix_marks_the_recorded_rows() {
    let p: Matrix<Rational> = Matrix::permutation_matrix(&vec![2, 0, 1]);
    assert_eq!(p, square(&[0, 0, 1, 1, 0, 0, 0, 1, 0]));
}

fn next_entry(state: &mut u64) -> i64 {
    *state = state.wrapping_mul(6364136223846793005).wrapping_add(1442695040888963407);
    ((*state >> 33) % 7) as i64 - 3
}

#[test]
fn lu_holds_its_laws_on_many_matrices() {
    let mut state: u64 = 2024;
    let mut singular = 0;
    for round in 0..120 {
        let n = 1 + round % 5;
        let values: Vec<i64> = (0..n * n).map(|_| next_entry(&mut state)).collect();
        let a = square(&values);
        let (p, l, u) = a.lu_ref();
        assert_eq!(p.cross(&a), l.cross(&u));
        let mut zero_on_diagonal = false;
        for i in 0..n {
            let mut in_row = 0;
            let mut in_col = 0;
            for j in 0..n {
                if i == j {
                    assert_eq!(*l.entry(i, j), Rational::one());
                    zero_on_diagonal = zero_on_diagonal || u.entry(i, j).is_zero();
                } else if i < j {
                    assert!(l.entry(i, j).is_zero());
                } else {
                    assert!(u.entry(i, j).is_zero());
                    assert!(!l.entry(i, j).abs().gt(&Rational::one()));
                }
                let cell = p.entry(i, j);
                assert!(cell.is_zero() || *cell == Rational::one());
                if !cell.is_zero() {
                    in_row += 1;
                }
                if !p.entry(j, i).is_zero() {
                    in_col += 1;
                }
            }
            assert_eq!((in_row, in_col), (1, 1));
        }
        if zero_on_diagonal {
            singular += 1;
        }
    }
    assert!(singular > 0);
    assert!(singular < 120);
}
