use dense_kernel::elimination::do_gaussian_elimination;
use dense_kernel::elimination::find_pivot;
use dense_kernel::elimination::solve_by_gaussian_elimination;
use dense_kernel::error::KernelError;
use dense_kernel::lu::lu_decomposition;
use dense_kernel::lu::solve_by_lu_decomposition;
use dense_kernel::matrix::Matrix;
use dense_kernel::matrix::Vector;
use dense_kernel::power::solve_by_power_iteration;
use dense_kernel::power::MAX_ITERATIONS;
use dense_kernel::scalar::Scalar;
use dense_kernel::triangular::back_substitution;
use dense_kernel::triangular::forward_substitution;

const EPSILON: f64 = 1e-10;

/// Double-precision entries for the kernels.
#[derive(Clone, Copy, Debug, PartialEq)]
struct F(f64);

impl Scalar for F {
    fn from_int(n: i64) -> Self {
        F(n as f64)
    }

    fn plus(self, rhs: Self) -> Self {
        F(self.0 + rhs.0)
    }

    fn minus(self, rhs: Self) -> Self {
        F(self.0 - rhs.0)
    }

    fn times(self, rhs: Self) -> Self {
        F(self.0 * rhs.0)
    }

    fn over(self, rhs: Self) -> Self {
        F(self.0 / rhs.0)
    }

    fn sqrt(self) -> Self {
        F(self.0.sqrt())
    }

    fn signum(self) -> Self {
        F(self.0.signum())
    }

    fn magnitude(self) -> u64 {
        if self.0.is_nan() {
            0
        } else {
            self.0.abs().to_bits()
        }
    }
}

fn matrix<const N: usize, const M: usize>(rows: [[f64; M]; N]) -> Matrix<F, N, M> {
    Matrix::from_fn(|i, j| F(rows[i][j]))
}

fn vector<const N: usize>(entries: [f64; N]) -> Vector<F, N> {
    Vector::from_fn(|i, _| F(entries[i]))
}

#[test]
fn test_do_gaussian_elimination() {
    let mut ab = matrix([
        [2.0, 1.0, -1.0, 8.0],
        [-3.0, -1.0, 2.0, -11.0],
        [-2.0, 1.0, 2.0, -3.0],
    ]);

    assert_eq!(do_gaussian_elimination(&mut ab), Ok(()));

    let expected = nalgebra::DMatrix::from_row_slice(3, 4, &[
        -3.0, -1.0, 2.0, -11.0,
        0.0, 5./3., 2./3., 13./3.,
        0.0, 0.0, 1./5., -1./5.,
    ]);

    for i in 0..3 {
        for j in 0..4 {
            assert!(
                (ab.get(i, j).0 - expected[(i, j)]).abs() < EPSILON,
                "ab[{i}, {j}] = {}, expected[{i}, {j}] = {}", ab.get(i, j).0, expected[(i, j)]
            );
        }
    }
}

#[test]
fn test_lu_decomposition() {
    let a = matrix([
        [2.0, 1.0, -1.0],
        [-3.0, -1.0, 2.0],
        [-2.0, 1.0, 2.0],
    ]);

    let my_decomposition = lu_decomposition(&a).unwrap();

    let reference_decomposition = nalgebra::SMatrix::<_, 3, 3>::from_fn(|i, j| a.get(i, j).0).lu();

    assert!(reference_decomposition.l().shape() == (3, 3));
    for i in 0..3 {
        for j in 0..3 {
            assert!(
                (my_decomposition.l.get(i, j).0 - reference_decomposition.l()[(i, j)]).abs() < EPSILON,
                "L matrix differs at ({i}, {j}): {} vs {}",
                my_decomposition.l.get(i, j).0,
                reference_decomposition.l()[(i, j)]
            );
        }
    }

    assert!(reference_decomposition.u().shape() == (3, 3));
    for i in 0..3 {
        for j in 0..3 {
            assert!(
                (my_decomposition.u.get(i, j).0 - reference_decomposition.u()[(i, j)]).abs() < EPSILON,
                "U matrix differs at ({i}, {j}): {} vs {}",
                my_decomposition.u.get(i, j).0,
                reference_decomposition.u()[(i, j)]
            );
        }
    }
}

#[test]
fn test_solve_by_power_iteration() {
    let a = matrix([
        [2.0, 1.0, 0.0],
        [1.0, 2.0, 1.0],
        [0.0, 1.0, 2.0],
    ]);

    let solution = solve_by_power_iteration(&a).unwrap();

    assert!((solution.eigenvalue.0 - (f64::sqrt(2.) + 2.)).abs() < EPSILON);
    assert!(
        solution.eigenvector.normalized().unwrap().minus(
            &vector([1., f64::sqrt(2.), 1.]).normalized().unwrap()
        ).norm().0 < EPSILON
    );
}

#[test]
fn power_iteration_counts_its_steps() {
    let a = matrix([[3.0, 0.0], [0.0, 3.0]]);
    let solution = solve_by_power_iteration(&a).unwrap();
    // The first step has no estimate to compare with; the second agrees with it.
    assert_eq!(solution.iteration_count, 2);
    assert_eq!(solution.eigenvalue, F(3.0));
    let s = 1.0 / f64::sqrt(2.0);
    assert!((solution.eigenvector.get(0, 0).0 - s).abs() < EPSILON);
    assert!((solution.eigenvector.get(1, 0).0 - s).abs() < EPSILON);
}

#[test]
fn power_iteration_accepts_an_estimate_that_changes_sign() {
    // The eigenvalues are 1 and -1; from the start vector the estimate
    // alternates in sign but not in magnitude.
    let a = matrix([[0.0, 1.0], [1.0, 0.0]]);
    let start_is_eigenvector = solve_by_power_iteration(&a).unwrap();
    assert_eq!(start_is_eigenvector.iteration_count, 2);
    assert_eq!(start_is_eigenvector.eigenvalue.0.abs(), 1.0);
}

#[test]
fn power_iteration_reports_non_convergence() {
    // The estimate alternates between 2 and 1/2 for ever.
    let a = matrix([[0.0, 2.0], [0.5, 0.0]]);
    match solve_by_power_iteration(&a) {
        Err(e) => assert_eq!(e, KernelError::NonConvergence { iterations: MAX_ITERATIONS - 1 }),
        Ok(_) => panic!("the estimate cannot settle"),
    }
    assert_eq!(MAX_ITERATIONS, 1_000_000);
}

#[test]
fn power_iteration_reports_a_vanishing_iterate() {
    let a = matrix([[0.0, 0.0], [0.0, 0.0]]);
    match solve_by_power_iteration(&a) {
        Err(e) => assert_eq!(e, KernelError::DegenerateVector),
        Ok(_) => panic!("the zero matrix has no dominant eigenvalue"),
    }
    let empty = Matrix::<F, 0, 0>::zeroed();
    match solve_by_power_iteration(&empty) {
        Err(e) => assert_eq!(e, KernelError::DegenerateVector),
        Ok(_) => panic!("there is no iterate"),
    }
}

#[test]
fn pivot_is_first_of_the_largest() {
    let m = matrix([[1.0, 0.0], [-4.0, 0.0], [4.0, 1e-11], [2.0, -1e-12]]);
    assert_eq!(find_pivot(&m, 0), Some(1));
    // Column 1 from row 1 down holds nothing above the threshold.
    assert_eq!(find_pivot(&m, 1), None);
    let tie = matrix([[5.0], [-5.0], [5.0]]);
    assert_eq!(find_pivot(&tie, 0), Some(0));
    let at_threshold = matrix([[1e-10], [0.0]]);
    assert_eq!(find_pivot(&at_threshold, 0), None);
    let above_threshold = matrix([[0.0], [1.1e-10]]);
    assert_eq!(find_pivot(&above_threshold, 0), Some(1));
}

#[test]
fn elimination_rejects_a_zero_column() {
    let mut first = matrix([[0.0, 1.0, 2.0, 1.0], [0.0, 3.0, 4.0, 1.0], [0.0, 5.0, 7.0, 1.0]]);
    assert_eq!(do_gaussian_elimination(&mut first), Err(KernelError::SingularMatrix { column: 0 }));
    // Nothing was done to the matrix.
    assert_eq!(first.get(1, 1), F(3.0));

    let mut second = matrix([[1.0, 0.0, 2.0, 1.0], [2.0, 0.0, 4.5, 1.0], [3.0, 0.0, 7.0, 1.0]]);
    assert_eq!(do_gaussian_elimination(&mut second), Err(KernelError::SingularMatrix { column: 1 }));
    // The first column was cleared before the second was found empty.
    assert_eq!(second.get(0, 0), F(3.0));
    assert_eq!(second.get(1, 0).0.abs() < EPSILON, true);
}

#[test]
fn elimination_rejects_identical_rows() {
    // Three rows of the coefficients are the same: after the first two
    // pivots nothing is left in the third column.
    let mut ab = matrix([
        [1.0, 2.0, 3.0, 4.0, 1.0],
        [1.0, 2.0, 3.0, 4.0, 1.0],
        [1.0, 2.0, 3.0, 4.0, 1.0],
        [7.0, 1.0, 1.0, 5.0, 3.0],
    ]);
    assert_eq!(do_gaussian_elimination(&mut ab), Err(KernelError::SingularMatrix { column: 2 }));
    // Two identical rows show at the last pivot, which the factorization visits.
    let a = matrix([
        [1.0, 2.0, 3.0, 1.0],
        [1.0, 2.0, 3.0, 1.0],
        [4.0, 5.0, 6.0, 2.0],
        [7.0, 1.0, 1.0, 3.0],
    ]);
    match lu_decomposition(&a) {
        Err(e) => assert_eq!(e, KernelError::SingularMatrix { column: 3 }),
        Ok(_) => panic!("identical rows went unnoticed"),
    }
}

#[test]
fn elimination_does_not_visit_the_last_column() {
    // The rows are identical, which only the last pivot would show.
    let mut ab = matrix([[1.0, 1.0, 2.0], [1.0, 1.0, 2.0]]);
    assert_eq!(do_gaussian_elimination(&mut ab), Ok(()));
    assert_eq!(ab.get(1, 1), F(0.0));
    let one_row = matrix([[0.0, 5.0]]);
    let mut untouched = one_row.clone();
    assert_eq!(do_gaussian_elimination(&mut untouched), Ok(()));
    assert_eq!(untouched.get(0, 1), F(5.0));
}

#[test]
fn lu_rejects_singular_matrices() {
    let zero_column = matrix([[1.0, 0.0, 2.0], [2.0, 0.0, 4.5], [3.0, 0.0, 7.0]]);
    match lu_decomposition(&zero_column) {
        Err(e) => assert_eq!(e, KernelError::SingularMatrix { column: 1 }),
        Ok(_) => panic!("a zero column went unnoticed"),
    }
    let identical_rows = matrix([[1.0, 1.0], [1.0, 1.0]]);
    match lu_decomposition(&identical_rows) {
        Err(e) => assert_eq!(e, KernelError::SingularMatrix { column: 1 }),
        Ok(_) => panic!("identical rows went unnoticed"),
    }
    match solve_by_lu_decomposition(&identical_rows, &vector([1.0, 2.0])) {
        Err(e) => assert_eq!(e, KernelError::SingularMatrix { column: 1 }),
        Ok(_) => panic!("identical rows went unnoticed"),
    }
}

fn check_factorization<const N: usize>(a: &Matrix<F, N, N>) {
    let d = lu_decomposition(a).unwrap();
    // The permutation is a bijection.
    let mut seen = vec![false; N];
    assert_eq!(d.pi.len(), N);
    for &p in d.pi.iter() {
        assert!(p < N);
        assert!(!seen[p]);
        seen[p] = true;
    }
    // L is unit lower triangular, exactly.
    for i in 0..N {
        assert_eq!(d.l.get(i, i), F(1.0));
        for j in (i + 1)..N {
            assert_eq!(d.l.get(i, j), F(0.0));
        }
    }
    // P * A = L * U.
    let product = d.l.times(&d.u);
    for i in 0..N {
        for j in 0..N {
            assert!((product.get(i, j).0 - a.get(d.pi[i], j).0).abs() < EPSILON);
        }
    }
}

#[test]
fn lu_factors_multiply_back() {
    check_factorization(&matrix([[2.0, 1.0, -1.0], [-3.0, -1.0, 2.0], [-2.0, 1.0, 2.0]]));
    check_factorization(&matrix([[4.0]]));
    check_factorization(&matrix([[0.0, 1.0], [1.0, 0.0]]));
    check_factorization(&matrix([
        [1.0, 2.0, 3.0, 4.0],
        [2.0, 4.0, 6.5, 1.0],
        [-8.0, 0.5, 0.25, 2.0],
        [3.0, -1.0, 9.0, 0.125],
    ]));
    check_factorization(&Matrix::<F, 0, 0>::zeroed());
}

#[test]
fn lu_records_the_row_exchanges() {
    let d = lu_decomposition(&matrix([[2.0, 1.0, -1.0], [-3.0, -1.0, 2.0], [-2.0, 1.0, 2.0]])).unwrap();
    assert_eq!(d.pi, vec![1, 2, 0]);
    assert!((d.l.get(1, 0).0 - 2.0 / 3.0).abs() < EPSILON);
    assert!((d.l.get(2, 0).0 + 2.0 / 3.0).abs() < EPSILON);
    assert!((d.l.get(2, 1).0 - 0.2).abs() < EPSILON);
    assert!((d.u.get(1, 1).0 - 5.0 / 3.0).abs() < EPSILON);
    assert!((d.u.get(2, 2).0 - 0.2).abs() < EPSILON);
}

#[test]
fn both_solvers_solve_a_known_system() {
    let a = matrix([[2.0, 1.0, -1.0], [-3.0, -1.0, 2.0], [-2.0, 1.0, 2.0]]);
    let b = vector([8.0, -11.0, -3.0]);
    let expected = [2.0, 3.0, -1.0];
    let by_elimination = solve_by_gaussian_elimination::<F, 3, 4>(&a, &b).unwrap();
    let by_lu = solve_by_lu_decomposition(&a, &b).unwrap();
    for i in 0..3 {
        assert!((by_elimination.get(i, 0).0 - expected[i]).abs() < EPSILON);
        assert!((by_lu.get(i, 0).0 - expected[i]).abs() < EPSILON);
    }
    let residual = b.minus(&a.times(&by_lu)).norm();
    assert!(residual.0 < 10.0 * EPSILON);
}

#[test]
fn solvers_report_singular_systems() {
    let a = matrix([[1.0, 0.0, 2.0], [2.0, 0.0, 4.5], [3.0, 0.0, 7.0]]);
    let b = vector([1.0, 1.0, 1.0]);
    match solve_by_gaussian_elimination::<F, 3, 4>(&a, &b) {
        Err(e) => assert_eq!(e, KernelError::SingularMatrix { column: 1 }),
        Ok(_) => panic!("a zero column went unnoticed"),
    }
}

#[test]
fn forward_substitution_follows_the_formula() {
    let l = matrix([[2.0, 0.0, 0.0], [1.0, 4.0, 0.0], [3.0, -2.0, 5.0]]);
    let b = vector([4.0, 10.0, 7.0]);
    let y = forward_substitution(&l, &b).unwrap();
    assert_eq!(y.get(0, 0), F(2.0));
    assert_eq!(y.get(1, 0), F(2.0));
    assert_eq!(y.get(2, 0), F(1.0));
}

#[test]
fn back_substitution_follows_the_formula() {
    let u = matrix([[2.0, 1.0, -1.0], [0.0, 4.0, 2.0], [0.0, 0.0, 5.0]]);
    let b = vector([3.0, 10.0, 5.0]);
    let x = back_substitution(&u, &b).unwrap();
    assert_eq!(x.get(2, 0), F(1.0));
    assert_eq!(x.get(1, 0), F(2.0));
    assert_eq!(x.get(0, 0), F(1.0));
}

#[test]
fn triangular_solvers_undo_the_product() {
    let l = matrix([
        [0.5, 0.0, 0.0, 0.0],
        [-0.25, 1.5, 0.0, 0.0],
        [0.75, 0.125, -2.0, 0.0],
        [1.0, -1.0, 0.5, 0.25],
    ]);
    let y = vector([0.3, -0.7, 0.9, 0.1]);
    let solved = forward_substitution(&l, &l.times(&y)).unwrap();
    let u = l.transpose();
    let solved_back = back_substitution(&u, &u.times(&y)).unwrap();
    for i in 0..4 {
        assert!((solved.get(i, 0).0 - y.get(i, 0).0).abs() < EPSILON);
        assert!((solved_back.get(i, 0).0 - y.get(i, 0).0).abs() < EPSILON);
    }
}

#[test]
fn triangular_solvers_refuse_other_matrices() {
    let full = matrix([[1.0, 2.0], [3.0, 4.0]]);
    let b = vector([1.0, 1.0]);
    match forward_substitution(&full, &b) {
        Err(e) => assert_eq!(e, KernelError::PreconditionViolation),
        Ok(_) => panic!("not lower triangular"),
    }
    match back_substitution(&full, &b) {
        Err(e) => assert_eq!(e, KernelError::PreconditionViolation),
        Ok(_) => panic!("not upper triangular"),
    }
    // An entry at the threshold still counts as zero, one above it does not.
    let nearly = matrix([[1.0, 1e-10], [0.0, 1.0]]);
    assert!(forward_substitution(&nearly, &b).is_ok());
    let not_quite = matrix([[1.0, 1.1e-10], [0.0, 1.0]]);
    assert!(forward_substitution(&not_quite, &b).is_err());
    let nearly_upper = matrix([[1.0, 0.0], [-1e-10, 1.0]]);
    assert!(back_substitution(&nearly_upper, &b).is_ok());
    let not_quite_upper = matrix([[1.0, 0.0], [-1.1e-10, 1.0]]);
    assert!(back_substitution(&not_quite_upper, &b).is_err());
}
