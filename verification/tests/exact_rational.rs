use dense_kernel::elimination::do_gaussian_elimination;
use dense_kernel::elimination::solve_by_gaussian_elimination;
use dense_kernel::error::KernelError;
use dense_kernel::lu::lu_decomposition;
use dense_kernel::lu::solve_by_lu_decomposition;
use dense_kernel::matrix::Matrix;
use dense_kernel::matrix::Vector;
use dense_kernel::scalar::Scalar;
use dense_kernel::triangular::back_substitution;
use dense_kernel::triangular::forward_substitution;

/// A fraction in lowest terms with a positive denominator: arithmetic
/// without rounding, as long as the numbers stay small.
#[derive(Clone, Copy, Debug, PartialEq)]
struct Q {
    n: i128,
    d: i128,
}

fn gcd(a: i128, b: i128) -> i128 {
    if b == 0 {
        a.abs()
    } else {
        gcd(b, a % b)
    }
}

fn q(n: i128, d: i128) -> Q {
    if d == 0 {
        return Q { n: 0, d: 1 };
    }
    let g = gcd(n, d);
    let s = if d < 0 { -1 } else { 1 };
    Q { n: s * n / g, d: s * d / g }
}

impl Scalar for Q {
    fn from_int(n: i64) -> Self {
        q(n as i128, 1)
    }

    fn plus(self, rhs: Self) -> Self {
        q(self.n * rhs.d + rhs.n * self.d, self.d * rhs.d)
    }

    fn minus(self, rhs: Self) -> Self {
        q(self.n * rhs.d - rhs.n * self.d, self.d * rhs.d)
    }

    fn times(self, rhs: Self) -> Self {
        q(self.n * rhs.n, self.d * rhs.d)
    }

    fn over(self, rhs: Self) -> Self {
        q(self.n * rhs.d, self.d * rhs.n)
    }

    fn sqrt(self) -> Self {
        q(0, 1)
    }

    fn signum(self) -> Self {
        if self.n < 0 {
            q(-1, 1)
        } else {
            q(1, 1)
        }
    }

    fn magnitude(self) -> u64 {
        // The magnitude in units of 2^-40, which tells apart all the
        // fractions of these tests.
        ((self.n.abs() << 40) / self.d).min(u64::MAX as i128) as u64
    }
}

fn matrix<const N: usize, const M: usize>(rows: [[i128; M]; N]) -> Matrix<Q, N, M> {
    Matrix::from_fn(|i, j| q(rows[i][j], 1))
}

fn vector<const N: usize>(entries: [i128; N]) -> Vector<Q, N> {
    Vector::from_fn(|i, _| q(entries[i], 1))
}

#[test]
fn elimination_is_exact_on_fractions() {
    let mut ab = matrix([[2, 1, -1, 8], [-3, -1, 2, -11], [-2, 1, 2, -3]]);
    assert_eq!(do_gaussian_elimination(&mut ab), Ok(()));
    let expected = [
        [q(-3, 1), q(-1, 1), q(2, 1), q(-11, 1)],
        [q(0, 1), q(5, 3), q(2, 3), q(13, 3)],
        [q(0, 1), q(0, 1), q(1, 5), q(-1, 5)],
    ];
    for i in 0..3 {
        for j in 0..4 {
            assert_eq!(ab.get(i, j), expected[i][j], "at ({i}, {j})");
        }
    }
}

fn check_exact_factorization<const N: usize>(a: &Matrix<Q, N, N>) {
    let d = lu_decomposition(a).unwrap();
    let product = d.l.times(&d.u);
    for i in 0..N {
        for j in 0..N {
            // P * A = L * U, to the last digit.
            assert_eq!(product.get(i, j), a.get(d.pi[i], j));
            if j < i {
                assert_eq!(d.u.get(i, j), q(0, 1));
            }
        }
        assert!(d.u.get(i, i) != q(0, 1));
    }
}

#[test]
fn factors_multiply_back_exactly_on_fractions() {
    check_exact_factorization(&matrix([[2, 1, -1], [-3, -1, 2], [-2, 1, 2]]));
    check_exact_factorization(&matrix([[0, 1], [1, 0]]));
    check_exact_factorization(&matrix([[1, 2, 3, 4], [2, 4, 7, 1], [-8, 1, 5, 2], [3, -1, 9, 6]]));
}

#[test]
fn solutions_are_exact_on_fractions() {
    let a = matrix([[1, 2, 3, 4], [2, 4, 7, 1], [-8, 1, 5, 2], [3, -1, 9, 6]]);
    let b = vector([3, -2, 7, 1]);
    let by_lu = solve_by_lu_decomposition(&a, &b).unwrap();
    let by_elimination = solve_by_gaussian_elimination::<Q, 4, 5>(&a, &b).unwrap();
    let product = a.times(&by_lu);
    for i in 0..4 {
        assert_eq!(product.get(i, 0), b.get(i, 0));
        assert_eq!(by_lu.get(i, 0), by_elimination.get(i, 0));
    }
}

#[test]
fn triangular_solvers_undo_the_product_exactly_on_fractions() {
    let l = matrix([[2, 0, 0], [-1, 3, 0], [4, 5, -7]]);
    let y = Vector::<Q, 3>::from_fn(|i, _| q([1, -2, 5][i], [3, 7, 11][i]));
    let solved = forward_substitution(&l, &l.times(&y)).unwrap();
    let u = l.transpose();
    let solved_back = back_substitution(&u, &u.times(&y)).unwrap();
    for i in 0..3 {
        assert_eq!(solved.get(i, 0), y.get(i, 0));
        assert_eq!(solved_back.get(i, 0), y.get(i, 0));
    }
}

#[test]
fn identical_rows_are_singular_on_fractions() {
    let a = matrix([[1, 2, 3], [4, 5, 6], [1, 2, 3]]);
    match lu_decomposition(&a) {
        Err(e) => assert_eq!(e, KernelError::SingularMatrix { column: 2 }),
        Ok(_) => panic!("identical rows went unnoticed"),
    }
}
