use dense_kernel::error::KernelError;
use dense_kernel::matrix::Matrix;
use dense_kernel::matrix::Vector;
use dense_kernel::scalar::abs;
use dense_kernel::scalar::epsilon;
use dense_kernel::scalar::one;
use dense_kernel::scalar::zero;
use dense_kernel::scalar::Scalar;
use dense_kernel::scalar::EPSILON_INVERSE;

/// Double-precision entries for the kernels.
#[derive(Clone, Copy, Debug, PartialEq)]
struct F(f64);

impl Scalar for F {
    fn from_int(n: i64) -> Self {
        F(n as f64)
    }

    fn plus(self, rhs: Self) -> Self {
        F(self.0 + rhs.0)
    }

    fn minus(self, rhs: Self) -> Self {
        F(self.0 - rhs.0)
    }

    fn times(self, rhs: Self) -> Self {
        F(self.0 * rhs.0)
    }

    fn over(self, rhs: Self) -> Self {
        F(self.0 / rhs.0)
    }

    fn sqrt(self) -> Self {
        F(self.0.sqrt())
    }

    fn signum(self) -> Self {
        F(self.0.signum())
    }

    fn magnitude(self) -> u64 {
        if self.0.is_nan() {
            0
        } else {
            self.0.abs().to_bits()
        }
    }
}

fn matrix<const N: usize, const M: usize>(rows: [[f64; M]; N]) -> Matrix<F, N, M> {
    Matrix::from_fn(|i, j| F(rows[i][j]))
}

fn vector<const N: usize>(entries: [f64; N]) -> Vector<F, N> {
    Vector::from_fn(|i, _| F(entries[i]))
}

fn assert_entries<const N: usize, const M: usize>(m: &Matrix<F, N, M>, rows: [[f64; M]; N]) {
    for i in 0..N {
        for j in 0..M {
            assert_eq!(m.get(i, j), F(rows[i][j]), "at ({i}, {j})");
        }
    }
}

#[test]
fn the_threshold_is_one_over_ten_to_the_tenth() {
    assert_eq!(EPSILON_INVERSE, 10_000_000_000);
    assert_eq!(epsilon::<F>(), F(1e-10));
    assert_eq!(zero::<F>(), F(0.0));
    assert_eq!(one::<F>(), F(1.0));
}

#[test]
fn abs_is_the_value_times_its_sign() {
    assert_eq!(abs(F(-2.5)), F(2.5));
    assert_eq!(abs(F(2.5)), F(2.5));
    assert_eq!(abs(F(0.0)), F(0.0));
}

#[test]
fn from_fn_asks_for_every_entry() {
    let m = Matrix::<F, 2, 3>::from_fn(|i, j| F((10 * i + j) as f64));
    assert_entries(&m, [[0.0, 1.0, 2.0], [10.0, 11.0, 12.0]]);
}

#[test]
fn filled_matrices() {
    assert_entries(&Matrix::<F, 2, 2>::filled_with(F(7.5)), [[7.5, 7.5], [7.5, 7.5]]);
    assert_entries(&Matrix::<F, 1, 3>::zeroed(), [[0.0, 0.0, 0.0]]);
    assert_entries(&Matrix::<F, 3, 3>::identity(), [[1.0, 0.0, 0.0], [0.0, 1.0, 0.0], [0.0, 0.0, 1.0]]);
}

#[test]
fn set_changes_one_entry() {
    let mut m = matrix([[1.0, 2.0], [3.0, 4.0]]);
    m.set(1, 0, F(9.0));
    assert_entries(&m, [[1.0, 2.0], [9.0, 4.0]]);
}

#[test]
fn transpose_exchanges_rows_and_columns() {
    let m = matrix([[1.0, 2.0, 3.0], [4.0, 5.0, 6.0]]);
    assert_entries(&m.transpose(), [[1.0, 4.0], [2.0, 5.0], [3.0, 6.0]]);
    assert_entries(&m.transpose().transpose(), [[1.0, 2.0, 3.0], [4.0, 5.0, 6.0]]);
}

#[test]
fn concat_puts_the_rows_side_by_side() {
    let a = matrix([[1.0, 2.0], [3.0, 4.0]]);
    let b = matrix([[5.0], [6.0]]);
    let ab: Matrix<F, 2, 3> = Matrix::concat(&a, &b);
    assert_entries(&ab, [[1.0, 2.0, 5.0], [3.0, 4.0, 6.0]]);
}

#[test]
fn swap_rows_exchanges_whole_rows() {
    let mut m = matrix([[1.0, 2.0], [3.0, 4.0], [5.0, 6.0]]);
    m.swap_rows(0, 2);
    assert_entries(&m, [[5.0, 6.0], [3.0, 4.0], [1.0, 2.0]]);
    m.swap_rows(1, 1);
    assert_entries(&m, [[5.0, 6.0], [3.0, 4.0], [1.0, 2.0]]);
}

#[test]
fn entrywise_arithmetic() {
    let a = matrix([[1.0, 2.0], [3.0, 4.0]]);
    let b = matrix([[0.5, -2.0], [1.0, 8.0]]);
    assert_entries(&a.plus(&b), [[1.5, 0.0], [4.0, 12.0]]);
    assert_entries(&a.minus(&b), [[0.5, 4.0], [2.0, -4.0]]);
    assert_entries(&a.scaled(F(2.0)), [[2.0, 4.0], [6.0, 8.0]]);
    assert_entries(&a.divided(F(2.0)), [[0.5, 1.0], [1.5, 2.0]]);
    assert_entries(&a.clone(), [[1.0, 2.0], [3.0, 4.0]]);
}

#[test]
fn product_is_rows_times_columns() {
    let a = matrix([[1.0, 2.0, 3.0], [4.0, 5.0, 6.0]]);
    let b = matrix([[7.0, 8.0], [9.0, 10.0], [11.0, 12.0]]);
    assert_entries(&a.times(&b), [[58.0, 64.0], [139.0, 154.0]]);
    let identity = Matrix::<F, 3, 3>::identity();
    assert_entries(&a.times(&identity), [[1.0, 2.0, 3.0], [4.0, 5.0, 6.0]]);
}

#[test]
fn vector_measures() {
    let v = vector([3.0, 4.0]);
    let w = vector([-1.0, 0.5]);
    assert_eq!(v.norm(), F(5.0));
    assert_eq!(v.dot(&w), F(-1.0));
    assert_eq!(v.iter().clone(), vec![F(3.0), F(4.0)]);
    assert_eq!(Vector::<F, 0>::zeroed().norm(), F(0.0));
}

#[test]
fn normalized_divides_by_the_norm() {
    let v = vector([3.0, 4.0]);
    let unit = v.normalized().unwrap();
    assert_eq!(unit.get(0, 0), F(0.6));
    assert_eq!(unit.get(1, 0), F(0.8));
    let mut w = vector([0.0, -2.0]);
    assert_eq!(w.normalize(), Ok(()));
    assert_eq!(w.get(0, 0), F(0.0));
    assert_eq!(w.get(1, 0), F(-1.0));
}

#[test]
fn a_vanishing_vector_is_not_normalized() {
    let zero_vector = vector([0.0, 0.0, 0.0]);
    match zero_vector.normalized() {
        Err(e) => assert_eq!(e, KernelError::DegenerateVector),
        Ok(_) => panic!("the zero vector has no direction"),
    }
    let mut tiny = vector([6e-11, 8e-11]);
    assert_eq!(tiny.normalize(), Err(KernelError::DegenerateVector));
    assert_eq!(tiny.get(0, 0), F(6e-11));
    assert_eq!(tiny.get(1, 0), F(8e-11));
    let mut small = vector([6e-10, 8e-10]);
    assert_eq!(small.normalize(), Ok(()));
    assert!((small.get(0, 0).0 - 0.6).abs() < 1e-12);
}

#[test]
fn matrices_are_made_from_rows_and_vectors_from_slices() {
    let m = Matrix::from([[F(1.0), F(2.0), F(3.0)], [F(4.0), F(5.0), F(6.0)]]);
    assert_entries(&m, [[1.0, 2.0, 3.0], [4.0, 5.0, 6.0]]);
    let v = Vector::<F, 3>::from_entries(&[F(7.0), F(8.0), F(9.0)]).unwrap();
    assert_entries(&v, [[7.0], [8.0], [9.0]]);
    assert!(Vector::<F, 3>::from_entries(&[F(7.0), F(8.0)]).is_none());
    assert!(Vector::<F, 3>::from_entries(&[F(7.0), F(8.0), F(9.0), F(10.0)]).is_none());
    assert!(Vector::<F, 0>::from_entries(&[]).is_some());
}
