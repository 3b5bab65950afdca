use dense_kernel::elimination::solve_by_gaussian_elimination;
use dense_kernel::error::KernelError;
use dense_kernel::harness::compare_outcomes;
use dense_kernel::harness::dominant_stat;
use dense_kernel::harness::equation_stat;
use dense_kernel::harness::random_matrix;
use dense_kernel::harness::random_value;
use dense_kernel::harness::sample;
use dense_kernel::harness::with_elapsed;
use dense_kernel::harness::DominantEigenvalueSolver;
use dense_kernel::harness::EquationSolver;
use dense_kernel::harness::RANDOM_STEPS;
use dense_kernel::lu::solve_by_lu_decomposition;
use dense_kernel::matrix::Matrix;
use dense_kernel::matrix::Vector;
use dense_kernel::power::solve_by_power_iteration;
use dense_kernel::power::DominantEigenvalueSolution;
use dense_kernel::scalar::Scalar;
use std::time::Duration;

/// Double-precision entries for the kernels.
#[derive(Clone, Copy, Debug, PartialEq)]
struct F(f64);

impl Scalar for F {
    fn from_int(n: i64) -> Self {
        F(n as f64)
    }

    fn plus(self, rhs: Self) -> Self {
        F(self.0 + rhs.0)
    }

    fn minus(self, rhs: Self) -> Self {
        F(self.0 - rhs.0)
    }

    fn times(self, rhs: Self) -> Self {
        F(self.0 * rhs.0)
    }

    fn over(self, rhs: Self) -> Self {
        F(self.0 / rhs.0)
    }

    fn sqrt(self) -> Self {
        F(self.0.sqrt())
    }

    fn signum(self) -> Self {
        F(self.0.signum())
    }

    fn magnitude(self) -> u64 {
        if self.0.is_nan() {
            0
        } else {
            self.0.abs().to_bits()
        }
    }
}

fn matrix<const N: usize, const M: usize>(rows: [[f64; M]; N]) -> Matrix<F, N, M> {
    Matrix::from_fn(|i, j| F(rows[i][j]))
}

fn vector<const N: usize>(entries: [f64; N]) -> Vector<F, N> {
    Vector::from_fn(|i, _| F(entries[i]))
}

/// Solves `a * x = b` with the LU decomposition of nalgebra.
fn reference_solve<const N: usize>(a: &Matrix<F, N, N>, b: &Vector<F, N>) -> Result<Vector<F, N>, KernelError> {
    let solved = nalgebra::DMatrix::from_fn(N, N, |i, j| a.get(i, j).0)
        .lu()
        .solve(&nalgebra::DVector::from_fn(N, |i, _| b.get(i, 0).0));
    match solved {
        Some(x) => Ok(Vector::from_fn(|i, _| F(x[i]))),
        None => Err(KernelError::SingularMatrix { column: 0 }),
    }
}

/// The largest singular value of `a` and its left singular vector, by nalgebra.
fn reference_dominant<const N: usize>(a: &Matrix<F, N, N>) -> Result<DominantEigenvalueSolution<F, N>, KernelError> {
    let svd = nalgebra::DMatrix::from_fn(N, N, |i, j| a.get(i, j).0).svd(true, true);
    let u = match svd.u {
        Some(u) => u,
        None => return Err(KernelError::NonConvergence { iterations: 0 }),
    };
    Ok(DominantEigenvalueSolution {
        eigenvalue: F(svd.singular_values[0]),
        eigenvector: Vector::from_fn(|i, _| F(u[(i, 0)])),
        iteration_count: 0,
    })
}

fn always_singular<const N: usize>(_a: &Matrix<F, N, N>, _b: &Vector<F, N>) -> Result<Vector<F, N>, KernelError> {
    Err(KernelError::SingularMatrix { column: 3 })
}

#[test]
fn samples_lie_on_the_grid() {
    assert_eq!(RANDOM_STEPS, 1_048_576);
    assert_eq!(sample::<F>(0), F(0.0));
    assert_eq!(sample::<F>(524_288), F(0.5));
    assert_eq!(sample::<F>(-1_048_576), F(-1.0));
    assert_eq!(sample::<F>(1), F(1.0 / 1_048_576.0));
}

#[test]
fn random_values_lie_between_minus_one_and_one() {
    let mut smallest = 2.0;
    let mut largest = -2.0;
    for _ in 0..2000 {
        let x = random_value::<F>().0;
        assert!(-1.0 <= x && x <= 1.0);
        assert_eq!((x * RANDOM_STEPS as f64).fract(), 0.0);
        if x < smallest {
            smallest = x;
        }
        if x > largest {
            largest = x;
        }
    }
    // Two thousand draws do not all fall on one half of the range.
    assert!(smallest < 0.0);
    assert!(largest > 0.0);
    let m = random_matrix::<F, 4, 5>();
    for i in 0..4 {
        for j in 0..5 {
            assert!(m.get(i, j).0.abs() <= 1.0);
        }
    }
}

#[test]
fn with_elapsed_hands_back_the_result() {
    let (value, elapsed) = with_elapsed(|| 6 * 7);
    assert_eq!(value, 42);
    assert!(elapsed < Duration::from_secs(10));
}

#[test]
fn outcomes_are_paired_or_refused() {
    let ok: Result<u8, KernelError> = Ok(1);
    let other: Result<u8, KernelError> = Ok(2);
    let singular: Result<u8, KernelError> = Err(KernelError::SingularMatrix { column: 4 });
    let diverged: Result<u8, KernelError> = Err(KernelError::NonConvergence { iterations: 9 });
    assert_eq!(compare_outcomes(ok, other), Ok((1, 2)));
    assert_eq!(compare_outcomes(singular, diverged), Err(KernelError::SingularMatrix { column: 4 }));
    assert_eq!(compare_outcomes(ok, diverged), Err(KernelError::ReferenceMismatch));
    assert_eq!(compare_outcomes(singular, other), Err(KernelError::ReferenceMismatch));
}

#[test]
fn equation_measures() {
    let a = Matrix::<F, 2, 2>::identity();
    let b = vector([3.0, 4.0]);
    let stat = equation_stat(&a, &b, vector([0.0, 0.0]), vector([3.0, 4.0]), Duration::from_millis(5));
    assert_eq!(stat.residual_norm, F(5.0));
    assert_eq!(stat.relative_error, F(1.0));
    assert_eq!(stat.elapsed, Duration::from_millis(5));
    assert_eq!(stat.solution.get(1, 0), F(0.0));
    assert_eq!(stat.reference_solution.get(1, 0), F(4.0));
    let exact = equation_stat(&a, &b, vector([3.0, 4.0]), vector([3.0, 4.0]), Duration::from_millis(5));
    assert_eq!(exact.residual_norm, F(0.0));
    assert_eq!(exact.relative_error, F(0.0));
}

#[test]
fn eigenpair_measures() {
    let a = matrix([[2.0, 0.0], [0.0, 1.0]]);
    let solution = DominantEigenvalueSolution {
        eigenvalue: F(-2.0),
        eigenvector: vector([1.0, 0.0]),
        iteration_count: 12,
    };
    let reference = DominantEigenvalueSolution {
        eigenvalue: F(4.0),
        eigenvector: vector([-2.0, 0.0]),
        iteration_count: 0,
    };
    let stat = dominant_stat(&a, solution, reference, Duration::from_millis(1));
    // The reference takes the sign of the candidate's eigenvalue and the
    // side of the candidate's eigenvector.
    assert_eq!(stat.reference_solution.0, F(-4.0));
    assert_eq!(stat.reference_solution.1.get(0, 0), F(2.0));
    assert_eq!(stat.solution.0, F(-2.0));
    assert_eq!(stat.iteration_count, 12);
    // |-2 * (1, 0) - (2, 0)| = 4, |-2 - -4| / 4 = 1/2, |(1, 0) - (2, 0)| / 2 = 1/2.
    assert_eq!(stat.residual_norm, F(4.0));
    assert_eq!(stat.eigenvalue_relative_error, F(0.5));
    assert_eq!(stat.eigenvector_relative_error, F(0.5));
}

#[test]
fn random_systems_are_solved_to_a_small_residual() {
    let by_lu = EquationSolver::<F, 20, _>::new(solve_by_lu_decomposition::<F, 20>);
    let by_elimination = EquationSolver::<F, 20, _>::new(solve_by_gaussian_elimination::<F, 20, 21>);
    let reference = EquationSolver::<F, 20, _>::new(reference_solve::<20>);
    for _ in 0..10 {
        let stat = by_lu.experiment_randomly(&reference).unwrap();
        assert!(stat.residual_norm.0 < 1e-8);
        assert!(stat.relative_error.0 < 1e-6);
        let stat = by_elimination.experiment_randomly(&reference).unwrap();
        assert!(stat.residual_norm.0 < 1e-8);
        assert!(stat.relative_error.0 < 1e-6);
    }
}

#[test]
fn a_trial_reports_what_it_measured() {
    let a = matrix([[2.0, 1.0, -1.0], [-3.0, -1.0, 2.0], [-2.0, 1.0, 2.0]]);
    let b = vector([8.0, -11.0, -3.0]);
    let solver = EquationSolver::<F, 3, _>::new(solve_by_lu_decomposition::<F, 3>);
    let reference = EquationSolver::<F, 3, _>::new(reference_solve::<3>);
    let stat = solver.experiment_on(&reference, &a, &b).unwrap();
    let expected = [2.0, 3.0, -1.0];
    for i in 0..3 {
        assert!((stat.solution.get(i, 0).0 - expected[i]).abs() < 1e-10);
        assert!((stat.reference_solution.get(i, 0).0 - expected[i]).abs() < 1e-10);
    }
    assert_eq!(stat.residual_norm, b.minus(&a.times(&stat.solution)).norm());
    assert!(stat.relative_error.0 < 1e-10);
    let plain = solver.solve(&a, &b).unwrap();
    assert_eq!(plain.get(0, 0), stat.solution.get(0, 0));
}

#[test]
fn a_trial_is_lost_when_only_one_side_fails() {
    let singular = matrix([[1.0, 1.0], [1.0, 1.0]]);
    let regular = matrix([[1.0, 0.0], [0.0, 1.0]]);
    let b = vector([1.0, 2.0]);
    let solver = EquationSolver::<F, 2, _>::new(solve_by_lu_decomposition::<F, 2>);
    let failing = EquationSolver::<F, 2, _>::new(always_singular::<2>);
    match solver.experiment_on(&failing, &regular, &b) {
        Err(e) => assert_eq!(e, KernelError::ReferenceMismatch),
        Ok(_) => panic!("the reference failed"),
    }
    match solver.experiment_on(&failing, &singular, &b) {
        Err(e) => assert_eq!(e, KernelError::SingularMatrix { column: 1 }),
        Ok(_) => panic!("both sides failed"),
    }
    match failing.experiment_on(&solver, &regular, &b) {
        Err(e) => assert_eq!(e, KernelError::ReferenceMismatch),
        Ok(_) => panic!("the candidate failed"),
    }
}

#[test]
fn power_iteration_agrees_with_the_reference() {
    let a = matrix([[2.0, 1.0, 0.0], [1.0, 2.0, 1.0], [0.0, 1.0, 2.0]]);
    let solver = DominantEigenvalueSolver::<F, 3, _>::new(solve_by_power_iteration::<F, 3>);
    let reference = DominantEigenvalueSolver::<F, 3, _>::new(reference_dominant::<3>);
    let stat = solver.experiment_on(&reference, &a).unwrap();
    assert!((stat.solution.0 .0 - (2.0 + f64::sqrt(2.0))).abs() < 1e-10);
    assert!(stat.eigenvalue_relative_error.0 < 1e-9);
    assert!(stat.eigenvector_relative_error.0 < 1e-4);
    assert!(stat.residual_norm.0 < 1e-4);
    assert!(stat.iteration_count > 1);

    // With the signs turned, the reference is turned with them.
    let negated = a.scaled(F(-1.0));
    let stat = solver.experiment_on(&reference, &negated).unwrap();
    assert!((stat.solution.0 .0 + (2.0 + f64::sqrt(2.0))).abs() < 1e-10);
    assert!(stat.reference_solution.0 .0 < 0.0);
    assert!(stat.eigenvalue_relative_error.0 < 1e-9);
    assert!(stat.eigenvector_relative_error.0 < 1e-4);
}

#[test]
fn random_symmetric_matrices_are_tried() {
    let solver = DominantEigenvalueSolver::<F, 4, _>::new(solve_by_power_iteration::<F, 4>);
    let reference = DominantEigenvalueSolver::<F, 4, _>::new(reference_dominant::<4>);
    for _ in 0..3 {
        match solver.experiment_randomly(&reference) {
            Ok(stat) => {
                assert!(stat.iteration_count >= 2);
                assert!(stat.reference_solution.0 .0.abs() <= 8.0);
                assert!(stat.residual_norm.0 >= 0.0);
            }
            Err(e) => assert!(matches!(e, KernelError::NonConvergence { .. } | KernelError::DegenerateVector)),
        }
    }
}
