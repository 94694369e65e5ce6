use nalgebra::DMatrix;
use num_complex::Complex;
use quantum_emulator::{kronecker_product, Arithmetic, Matrix};

fn plus(a: i64, b: i64) -> i64 {
    a + b
}

fn times(a: i64, b: i64) -> i64 {
    a * b
}

fn integers() -> Arithmetic<i64, fn(i64, i64) -> i64, fn(i64, i64) -> i64> {
    Arithmetic { zero: 0, one: 1, plus, times }
}

type C = Complex<f64>;

fn complex_plus(a: C, b: C) -> C {
    a + b
}

fn complex_times(a: C, b: C) -> C {
    a * b
}

fn complex() -> Arithmetic<C, fn(C, C) -> C, fn(C, C) -> C> {
    Arithmetic {
        zero: Complex::new(0.0, 0.0),
        one: Complex::new(1.0, 0.0),
        plus: complex_plus,
        times: complex_times,
    }
}

fn matrix(rows: Vec<Vec<i64>>) -> Matrix<i64> {
    Matrix::from_rows(rows).unwrap()
}

fn sample(rows: usize, cols: usize, seed: f64) -> Vec<Vec<C>> {
    (0..rows)
        .map(|i| {
            (0..cols)
                .map(|j| {
                    let x = seed + (i * cols + j) as f64;
                    Complex::new(x.sin(), (2.0 * x).cos())
                })
                .collect()
        })
        .collect()
}

fn to_nalgebra(rows: &Vec<Vec<C>>) -> DMatrix<C> {
    let r = rows.len();
    let c = rows[0].len();
    DMatrix::from_fn(r, c, |i, j| rows[i][j])
}

#[test]
fn from_rows_keeps_the_cells() {
    let m = matrix(vec![vec![1, 2, 3], vec![4, 5, 6]]);
    assert_eq!(m.rows(), 2);
    assert_eq!(m.cols(), 3);
    assert_eq!(m.get(0, 0), Some(1));
    assert_eq!(m.get(1, 2), Some(6));
    assert_eq!(m.into_rows(), vec![vec![1, 2, 3], vec![4, 5, 6]]);
}

#[test]
fn from_rows_refuses_ragged_rows() {
    assert!(Matrix::from_rows(vec![vec![1, 2], vec![3]]).is_none());
    assert!(Matrix::from_rows(vec![vec![1], vec![2, 3]]).is_none());
}

#[test]
fn from_rows_of_nothing_is_empty() {
    let m = Matrix::<i64>::from_rows(vec![]).unwrap();
    assert_eq!(m.rows(), 0);
    assert_eq!(m.cols(), 0);
}

#[test]
fn get_outside_the_matrix_is_none() {
    let m = matrix(vec![vec![1, 2], vec![3, 4]]);
    assert_eq!(m.get(2, 0), None);
    assert_eq!(m.get(0, 2), None);
}

#[test]
fn identity_has_ones_on_the_diagonal() {
    let m = Matrix::identity(3, 0i64, 1i64);
    assert_eq!(m.into_rows(), vec![vec![1, 0, 0], vec![0, 1, 0], vec![0, 0, 1]]);
}

#[test]
fn permutation_puts_one_in_the_row_of_the_image() {
    let m = Matrix::permutation(&vec![2, 0, 1], 0i64, 1i64);
    assert_eq!(m.into_rows(), vec![vec![0, 1, 0], vec![0, 0, 1], vec![1, 0, 0]]);
}

#[test]
fn square2_is_row_major() {
    let m = Matrix::square2(1i64, 2, 3, 4);
    assert_eq!(m.into_rows(), vec![vec![1, 2], vec![3, 4]]);
}

#[test]
fn duplicate_is_equal() {
    let m = matrix(vec![vec![1, 2], vec![3, 4], vec![5, 6]]);
    assert_eq!(m.duplicate().into_rows(), vec![vec![1, 2], vec![3, 4], vec![5, 6]]);
}

#[test]
fn kronecker_product_of_two_squares() {
    let a = matrix(vec![vec![1, 2], vec![3, 4]]);
    let b = matrix(vec![vec![0, 5], vec![6, 7]]);
    let r = kronecker_product(&a, &b, &integers());
    assert_eq!(
        r.into_rows(),
        vec![
            vec![0, 5, 0, 10],
            vec![6, 7, 12, 14],
            vec![0, 15, 0, 20],
            vec![18, 21, 24, 28],
        ]
    );
}

#[test]
fn kronecker_product_is_not_commutative() {
    let a = matrix(vec![vec![1, 2], vec![3, 4]]);
    let b = matrix(vec![vec![0, 5], vec![6, 7]]);
    let r = kronecker_product(&b, &a, &integers());
    assert_eq!(
        r.into_rows(),
        vec![
            vec![0, 0, 5, 10],
            vec![0, 0, 15, 20],
            vec![6, 12, 7, 14],
            vec![18, 24, 21, 28],
        ]
    );
}

#[test]
fn kronecker_product_has_the_product_of_the_shapes() {
    let a = matrix(vec![vec![1, 2, 3], vec![4, 5, 6]]);
    let b = matrix(vec![vec![1, 10]]);
    let r = kronecker_product(&a, &b, &integers());
    assert_eq!(r.rows(), 2);
    assert_eq!(r.cols(), 6);
    assert_eq!(r.into_rows(), vec![vec![1, 10, 2, 20, 3, 30], vec![4, 40, 5, 50, 6, 60]]);
}

#[test]
fn kronecker_product_with_an_empty_matrix_is_empty() {
    let a = matrix(vec![vec![1, 2], vec![3, 4]]);
    let b = Matrix::<i64>::from_rows(vec![]).unwrap();
    let r = kronecker_product(&a, &b, &integers());
    assert_eq!(r.rows(), 0);
    assert_eq!(r.cols(), 0);
}

#[test]
fn kronecker_product_is_associative_on_integers() {
    let a = matrix(vec![vec![1, -2], vec![3, 4]]);
    let b = matrix(vec![vec![5, 6, 7]]);
    let c = matrix(vec![vec![2], vec![-3], vec![4]]);
    let ring = integers();
    let left = kronecker_product(&kronecker_product(&a, &b, &ring), &c, &ring);
    let right = kronecker_product(&a, &kronecker_product(&b, &c, &ring), &ring);
    assert_eq!(left.rows(), 2 * 1 * 3);
    assert_eq!(left.cols(), 2 * 3 * 1);
    assert_eq!(left.into_rows(), right.into_rows());
}

#[test]
fn kronecker_product_is_associative_within_tolerance() {
    let a = Matrix::from_rows(sample(2, 3, 0.3)).unwrap();
    let b = Matrix::from_rows(sample(3, 2, 1.7)).unwrap();
    let c = Matrix::from_rows(sample(2, 2, 2.9)).unwrap();
    let field = complex();
    let left = kronecker_product(&kronecker_product(&a, &b, &field), &c, &field);
    let right = kronecker_product(&a, &kronecker_product(&b, &c, &field), &field);
    assert_eq!((left.rows(), left.cols()), (12, 12));
    assert_eq!((right.rows(), right.cols()), (12, 12));
    let (left, right) = (left.into_rows(), right.into_rows());
    for i in 0..12 {
        for j in 0..12 {
            assert!((left[i][j] - right[i][j]).norm() < 1e-12);
        }
    }
}

#[test]
fn kronecker_product_of_floats_can_depend_on_the_bracketing() {
    let reals: Arithmetic<f64, fn(f64, f64) -> f64, fn(f64, f64) -> f64> =
        Arithmetic { zero: 0.0, one: 1.0, plus: |a, b| a + b, times: |a, b| a * b };
    let a = Matrix::from_rows(vec![vec![0.1]]).unwrap();
    let b = Matrix::from_rows(vec![vec![0.2]]).unwrap();
    let c = Matrix::from_rows(vec![vec![0.3]]).unwrap();
    let left = kronecker_product(&kronecker_product(&a, &b, &reals), &c, &reals);
    let right = kronecker_product(&a, &kronecker_product(&b, &c, &reals), &reals);
    let (left, right) = (left.get(0, 0).unwrap(), right.get(0, 0).unwrap());
    assert_ne!(left, right);
    assert!((left - right).abs() < 1e-15);
}

#[test]
fn kronecker_product_agrees_with_nalgebra() {
    let a = sample(2, 3, 0.5);
    let b = sample(3, 2, 4.1);
    let ours = kronecker_product(
        &Matrix::from_rows(a.clone()).unwrap(),
        &Matrix::from_rows(b.clone()).unwrap(),
        &complex(),
    );
    let theirs = to_nalgebra(&a).kronecker(&to_nalgebra(&b));
    assert_eq!((ours.rows(), ours.cols()), theirs.shape());
    for i in 0..6 {
        for j in 0..6 {
            assert_eq!(ours.get(i, j), Some(theirs[(i, j)]));
        }
    }
}

#[test]
fn times_matrix_multiplies_rows_into_columns() {
    let a = matrix(vec![vec![1, 2, 3], vec![4, 5, 6]]);
    let b = matrix(vec![vec![7, 8], vec![9, 10], vec![11, 12]]);
    let r = a.times_matrix(&b, &integers());
    assert_eq!(r.into_rows(), vec![vec![58, 64], vec![139, 154]]);
}

#[test]
fn times_matrix_agrees_with_nalgebra() {
    let a = sample(3, 4, 0.9);
    let b = sample(4, 2, 3.3);
    let ours = Matrix::from_rows(a.clone())
        .unwrap()
        .times_matrix(&Matrix::from_rows(b.clone()).unwrap(), &complex());
    let theirs = to_nalgebra(&a) * to_nalgebra(&b);
    for i in 0..3 {
        for j in 0..2 {
            assert!((ours.get(i, j).unwrap() - theirs[(i, j)]).norm() < 1e-12);
        }
    }
}

#[test]
fn times_vector_applies_the_matrix() {
    let a = matrix(vec![vec![1, 2, 3], vec![4, 5, 6]]);
    let w = a.times_vector(&vec![1, 0, -1], &integers());
    assert_eq!(w, vec![-2, -2]);
}

#[test]
fn dot_adds_the_products() {
    assert_eq!(integers().dot(&vec![1, 2, 3], &vec![4, 5, 6]), 32);
    assert_eq!(integers().dot(&vec![], &vec![]), 0);
}
