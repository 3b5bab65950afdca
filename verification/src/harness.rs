//! Trials of a solver against a reference on random inputs.

use vstd::prelude::*;
use std::marker::PhantomData;
use std::time::Duration;
use std::time::Instant;
use rand::Rng;
use rand::rngs::ThreadRng;
use crate::error::KernelError;
use crate::matrix::Matrix;
use crate::matrix::Vector;
use crate::matrix::column;
use crate::matrix::grid_difference;
use crate::matrix::grid_product;
use crate::matrix::spec_norm;
use crate::matrix::dot_range;
use crate::matrix::grid_scaled;
use crate::matrix::grid_sum;
use crate::matrix::grid_transposed;
use crate::power::DominantEigenvalueSolution;
use crate::scalar::Scalar;
use crate::scalar::abs;
use crate::scalar::spec_abs;

verus! {

/// Makes `std::time::Instant` known as a type of which nothing is seen.
#[verifier::external_type_specification]
#[verifier::external_body]
pub struct ExInstant(Instant);

/// Reads the monotonic clock through `Instant::now`. Nothing is promised
/// of the reading.
#[verifier::external_body]
fn clock_now() -> (t: Instant) {
    Instant::now()
}

/// The time since `t` was read, through `Instant::elapsed`. Nothing is
/// promised of the duration.
#[verifier::external_body]
fn clock_elapsed(t: &Instant) -> (d: Duration) {
    t.elapsed()
}

/// Makes `rand::rngs::ThreadRng` known as a type of which nothing is seen.
#[verifier::external_type_specification]
#[verifier::external_body]
pub struct ExThreadRng(ThreadRng);

/// A handle to the generator of the current thread, through `rand::rng`.
/// Nothing is promised of its state. The generator is seeded by the
/// operating system when a thread first asks for it, and `rand` panics
/// where that fails.
#[verifier::external_body]
fn thread_generator() -> (generator: ThreadRng) {
    rand::rng()
}

/// Draws an integer from `low..=high` through `Rng::random_range`. The
/// draw lies in the range; which integer it is depends on the generator's
/// state. An empty range would make the generator panic and is left out.
#[verifier::external_body]
fn draw_between(generator: &mut ThreadRng, low: i64, high: i64) -> (n: i64)
    requires
        low <= high,
    ensures
        low <= n <= high,
{
    generator.random_range(low..=high)
}

/// Random entries lie on a grid of this many steps to either side of zero.
pub const RANDOM_STEPS: i64 = 1_048_576;

/// The scalar `n / RANDOM_STEPS`.
pub open spec fn spec_sample<T: Scalar>(n: i64) -> T {
    T::spec_from_int(n).spec_over(T::spec_from_int(RANDOM_STEPS))
}

/// `x` is one of the scalars `n / RANDOM_STEPS` between minus one and one.
pub open spec fn is_sample<T: Scalar>(x: T) -> bool {
    exists|n: i64| -RANDOM_STEPS <= n <= RANDOM_STEPS && x == #[trigger] spec_sample::<T>(n)
}

/// Every entry of the grid is a sample.
pub open spec fn all_samples<T: Scalar>(m: Seq<Seq<T>>) -> bool {
    forall|i: int, j: int| 0 <= i < m.len() && 0 <= j < m[i].len() ==> is_sample(#[trigger] m[i][j])
}

/// The scalar `n / RANDOM_STEPS`.
pub fn sample<T: Scalar>(n: i64) -> (r: T)
    ensures
        r == spec_sample::<T>(n),
{
    T::from_int(n).over(T::from_int(RANDOM_STEPS))
}

/// A scalar drawn uniformly from the grid of samples between minus one and one.
pub fn random_value<T: Scalar>() -> (r: T)
    ensures
        is_sample(r),
{
    let mut generator = thread_generator();
    let n = draw_between(&mut generator, -RANDOM_STEPS, RANDOM_STEPS);
    let r = sample::<T>(n);
    assert(r == spec_sample::<T>(n));
    r
}

/// A matrix of random entries.
pub fn random_matrix<T: Scalar, const N: usize, const M: usize>() -> (r: Matrix<T, N, M>)
    ensures
        all_samples(r@),
{
    let r = Matrix::<T, N, M>::from_fn(|i: usize, j: usize| -> (v: T)
        ensures
            is_sample(v),
        { random_value::<T>() });
    assert forall|i: int, j: int| 0 <= i < r@.len() && 0 <= j < r@[i].len() implies is_sample(#[trigger] r@[i][j]) by {
        let _ = r@[i as usize as int][j as usize as int];
    }
    r
}

/// Runs `f` once and hands back its result with the time that the call
/// took on the monotonic clock.
pub fn with_elapsed<F, R>(f: F) -> (r: (R, Duration)) where F: FnOnce() -> R
    requires
        f.requires(()),
    ensures
        f.ensures((), r.0),
{
    let t = clock_now();
    let result = f();
    let elapsed = clock_elapsed(&t);
    (result, elapsed)
}

/// What is handed on when a candidate and a reference have both run on
/// one input: both results where both succeeded, the candidate's error
/// where both failed, and a mismatch where exactly one failed.
pub open spec fn spec_compare_outcomes<V>(candidate: Result<V, KernelError>, reference: Result<V, KernelError>) -> Result<
    (V, V),
    KernelError,
> {
    match (candidate, reference) {
        (Ok(c), Ok(x)) => Ok((c, x)),
        (Err(e), Err(_)) => Err(e),
        _ => Err(KernelError::ReferenceMismatch),
    }
}

/// Pairs the results of a candidate and a reference, or says why the
/// trial is lost.
pub fn compare_outcomes<V>(candidate: Result<V, KernelError>, reference: Result<V, KernelError>) -> (r: Result<
    (V, V),
    KernelError,
>)
    ensures
        r == spec_compare_outcomes(candidate, reference),
{
    match candidate {
        Ok(c) => match reference {
            Ok(x) => Ok((c, x)),
            Err(_) => Err(KernelError::ReferenceMismatch),
        },
        Err(e) => match reference {
            Ok(_) => Err(KernelError::ReferenceMismatch),
            Err(_) => Err(e),
        },
    }
}

/// A solver of `a * x = b` under test: `f` takes `a` and `b` and hands
/// back `x`, or the reason why it found none.
pub struct EquationSolver<T, const N: usize, F> {
    pub f: F,
    pub scalar: PhantomData<T>,
}

/// What one trial of an equation solver measured.
#[derive(Debug)]
pub struct EquationExperimentStat<T, const N: usize> {
    pub solution: Vector<T, N>,
    pub elapsed: Duration,
    pub reference_solution: Vector<T, N>,
    pub residual_norm: T,
    pub relative_error: T,
}

/// The norm of `b - a * x`.
pub open spec fn spec_residual_norm<T: Scalar>(a: Seq<Seq<T>>, b: Seq<Seq<T>>, x: Seq<Seq<T>>) -> T {
    spec_norm(column(grid_difference(b, grid_product(a, x, 1)), 0))
}

/// The norm of `x - reference` over the norm of `reference`.
pub open spec fn spec_relative_error<T: Scalar>(x: Seq<Seq<T>>, reference: Seq<Seq<T>>) -> T {
    spec_norm(column(grid_difference(x, reference), 0)).spec_over(spec_norm(column(reference, 0)))
}

/// The measures of a trial on `a` and `b`: the residual norm of the
/// solution and its error relative to the reference solution.
pub fn equation_stat<T: Scalar, const N: usize>(
    a: &Matrix<T, N, N>,
    b: &Vector<T, N>,
    solution: Vector<T, N>,
    reference_solution: Vector<T, N>,
    elapsed: Duration,
) -> (stat: EquationExperimentStat<T, N>)
    ensures
        stat.solution == solution,
        stat.reference_solution == reference_solution,
        stat.elapsed == elapsed,
        stat.residual_norm == spec_residual_norm(a@, b@, solution@),
        stat.relative_error == spec_relative_error(solution@, reference_solution@),
{
    let residual_norm = b.minus(&a.times(&solution)).norm();
    let relative_error = solution.minus(&reference_solution).norm().over(reference_solution.norm());
    EquationExperimentStat { solution, elapsed, reference_solution, residual_norm, relative_error }
}

/// `r` is what a trial on `a` and `b` reports when the candidate returned
/// `candidate` and the reference returned `reference`.
pub open spec fn is_equation_outcome<T: Scalar, const N: usize>(
    a: Seq<Seq<T>>,
    b: Seq<Seq<T>>,
    candidate: Result<Vector<T, N>, KernelError>,
    reference: Result<Vector<T, N>, KernelError>,
    r: Result<EquationExperimentStat<T, N>, KernelError>,
) -> bool {
    match spec_compare_outcomes(candidate, reference) {
        Err(e) => r is Err && r->Err_0 == e,
        Ok((x, y)) => {
            &&& r is Ok
            &&& r->Ok_0.solution == x
            &&& r->Ok_0.reference_solution == y
            &&& r->Ok_0.residual_norm == spec_residual_norm(a, b, x@)
            &&& r->Ok_0.relative_error == spec_relative_error(x@, y@)
        },
    }
}

impl<T: Scalar, const N: usize, F> EquationSolver<T, N, F> where
    F: Fn(&Matrix<T, N, N>, &Vector<T, N>) -> Result<Vector<T, N>, KernelError>,
 {
    /// `f` should solve `a * x = b` for `x`.
    pub fn new(f: F) -> (r: Self)
        ensures
            r.f == f,
    {
        EquationSolver { f, scalar: PhantomData }
    }

    /// What `f` returns for `a` and `b`.
    pub fn solve(&self, a: &Matrix<T, N, N>, b: &Vector<T, N>) -> (r: Result<Vector<T, N>, KernelError>)
        requires
            self.f.requires((a, b)),
        ensures
            self.f.ensures((a, b), r),
    {
        (self.f)(a, b)
    }

    /// One trial on `a` and `b`: the solver is timed, the reference
    /// solves the same system, and the two results are measured against
    /// each other.
    pub fn experiment_on<R>(&self, reference: &EquationSolver<T, N, R>, a: &Matrix<T, N, N>, b: &Vector<T, N>) -> (r:
        Result<EquationExperimentStat<T, N>, KernelError>) where
        R: Fn(&Matrix<T, N, N>, &Vector<T, N>) -> Result<Vector<T, N>, KernelError>,

        requires
            self.f.requires((a, b)),
            reference.f.requires((a, b)),
        ensures
            exists|candidate: Result<Vector<T, N>, KernelError>, expected: Result<Vector<T, N>, KernelError>|
                {
                    &&& self.f.ensures((a, b), candidate)
                    &&& reference.f.ensures((a, b), expected)
                    &&& #[trigger] is_equation_outcome(a@, b@, candidate, expected, r)
                },
    {
        let (candidate, elapsed) = with_elapsed(|| -> (res: Result<Vector<T, N>, KernelError>)
            ensures
                self.f.ensures((a, b), res),
            { self.solve(a, b) });
        let expected = reference.solve(a, b);
        let ghost candidate0 = candidate;
        let ghost expected0 = expected;
        let r = match compare_outcomes(candidate, expected) {
            Err(e) => Err(e),
            Ok((solution, reference_solution)) => Ok(equation_stat(a, b, solution, reference_solution, elapsed)),
        };
        assert(is_equation_outcome(a@, b@, candidate0, expected0, r));
        r
    }

    /// One trial on a random system: the entries of `a` and `b` are
    /// drawn between minus one and one, and the trial runs on them.
    pub fn experiment_randomly<R>(&self, reference: &EquationSolver<T, N, R>) -> (r: Result<
        EquationExperimentStat<T, N>,
        KernelError,
    >) where R: Fn(&Matrix<T, N, N>, &Vector<T, N>) -> Result<Vector<T, N>, KernelError>
        requires
            forall|a: Matrix<T, N, N>, b: Vector<T, N>| #[trigger] self.f.requires((&a, &b)),
            forall|a: Matrix<T, N, N>, b: Vector<T, N>| #[trigger] reference.f.requires((&a, &b)),
        ensures
            exists|
                a: Matrix<T, N, N>,
                b: Vector<T, N>,
                candidate: Result<Vector<T, N>, KernelError>,
                expected: Result<Vector<T, N>, KernelError>,
            |
                {
                    &&& all_samples(a@)
                    &&& all_samples(b@)
                    &&& self.f.ensures((&a, &b), candidate)
                    &&& reference.f.ensures((&a, &b), expected)
                    &&& #[trigger] is_equation_outcome(a@, b@, candidate, expected, r)
                },
    {
        let a = random_matrix::<T, N, N>();
        let b = random_matrix::<T, N, 1>();
        self.experiment_on(reference, &a, &b)
    }
}

/// A finder of the dominant eigenvalue under test: `f` takes a matrix
/// and hands back its dominant eigenvalue with an eigenvector, or the
/// reason why it found none.
pub struct DominantEigenvalueSolver<T, const N: usize, F> {
    pub f: F,
    pub scalar: PhantomData<T>,
}

/// What one trial of an eigenvalue finder measured. The reference
/// solution is given as it was compared: with the sign of the candidate's
/// eigenvalue, and turned to the side of the candidate's eigenvector.
#[derive(Debug)]
pub struct DominantEigenvalueExperimentStat<T, const N: usize> {
    pub solution: (T, Vector<T, N>),
    pub iteration_count: usize,
    pub elapsed: Duration,
    pub reference_solution: (T, Vector<T, N>),
    pub residual_norm: T,
    pub eigenvalue_relative_error: T,
    pub eigenvector_relative_error: T,
}

/// The reference eigenvalue with the sign of the candidate's.
pub open spec fn spec_aligned_eigenvalue<T: Scalar>(candidate: T, reference: T) -> T {
    reference.spec_times(candidate.spec_signum())
}

/// The reference eigenvector turned to the side of the candidate's: it
/// is scaled by the sign of the inner product of the two.
pub open spec fn spec_aligned_eigenvector<T: Scalar>(candidate: Seq<Seq<T>>, reference: Seq<Seq<T>>) -> Seq<Seq<T>> {
    grid_scaled(
        reference,
        dot_range(column(reference, 0), column(candidate, 0), 0, reference.len() as int).spec_signum(),
    )
}

/// The norm of `lambda * x - a * x`.
pub open spec fn spec_eigen_residual_norm<T: Scalar>(a: Seq<Seq<T>>, lambda: T, x: Seq<Seq<T>>) -> T {
    spec_norm(column(grid_difference(grid_scaled(x, lambda), grid_product(a, x, 1)), 0))
}

/// The distance of `value` from `reference` over the magnitude of `reference`.
pub open spec fn spec_scalar_relative_error<T: Scalar>(value: T, reference: T) -> T {
    spec_abs(value.spec_minus(reference)).spec_over(spec_abs(reference))
}

/// `stat` holds the measures of a trial on `a` in which the candidate
/// found `solution` and the reference found `reference`.
pub open spec fn is_dominant_stat<T: Scalar, const N: usize>(
    a: Seq<Seq<T>>,
    solution: DominantEigenvalueSolution<T, N>,
    reference: DominantEigenvalueSolution<T, N>,
    stat: DominantEigenvalueExperimentStat<T, N>,
) -> bool {
    &&& stat.solution.0 == solution.eigenvalue
    &&& stat.solution.1 == solution.eigenvector
    &&& stat.iteration_count == solution.iteration_count
    &&& stat.reference_solution.0 == spec_aligned_eigenvalue(solution.eigenvalue, reference.eigenvalue)
    &&& stat.reference_solution.1@ == spec_aligned_eigenvector(solution.eigenvector@, reference.eigenvector@)
    &&& stat.residual_norm == spec_eigen_residual_norm(a, solution.eigenvalue, solution.eigenvector@)
    &&& stat.eigenvalue_relative_error == spec_scalar_relative_error(
        solution.eigenvalue,
        stat.reference_solution.0,
    )
    &&& stat.eigenvector_relative_error == spec_relative_error(solution.eigenvector@, stat.reference_solution.1@)
}

/// The measures of a trial on `a`: the residual norm of the eigenpair,
/// and the errors of eigenvalue and eigenvector relative to the
/// reference, which is first brought to the candidate's sign.
pub fn dominant_stat<T: Scalar, const N: usize>(
    a: &Matrix<T, N, N>,
    solution: DominantEigenvalueSolution<T, N>,
    reference: DominantEigenvalueSolution<T, N>,
    elapsed: Duration,
) -> (stat: DominantEigenvalueExperimentStat<T, N>)
    ensures
        is_dominant_stat(a@, solution, reference, stat),
        stat.elapsed == elapsed,
{
    let eigenvalue = solution.eigenvalue;
    let reference_eigenvalue = reference.eigenvalue.times(eigenvalue.signum());
    let side = reference.eigenvector.dot(&solution.eigenvector).signum();
    let reference_eigenvector = reference.eigenvector.scaled(side);
    let residual_norm = solution.eigenvector.scaled(eigenvalue).minus(&a.times(&solution.eigenvector)).norm();
    let eigenvalue_relative_error = abs(eigenvalue.minus(reference_eigenvalue)).over(abs(reference_eigenvalue));
    let eigenvector_relative_error = solution.eigenvector.minus(&reference_eigenvector).norm().over(
        reference_eigenvector.norm(),
    );
    DominantEigenvalueExperimentStat {
        solution: (eigenvalue, solution.eigenvector),
        iteration_count: solution.iteration_count,
        elapsed,
        reference_solution: (reference_eigenvalue, reference_eigenvector),
        residual_norm,
        eigenvalue_relative_error,
        eigenvector_relative_error,
    }
}

/// `r` is what a trial on `a` reports when the candidate returned
/// `candidate` and the reference returned `reference`.
pub open spec fn is_dominant_outcome<T: Scalar, const N: usize>(
    a: Seq<Seq<T>>,
    candidate: Result<DominantEigenvalueSolution<T, N>, KernelError>,
    reference: Result<DominantEigenvalueSolution<T, N>, KernelError>,
    r: Result<DominantEigenvalueExperimentStat<T, N>, KernelError>,
) -> bool {
    match spec_compare_outcomes(candidate, reference) {
        Err(e) => r is Err && r->Err_0 == e,
        Ok((x, y)) => r is Ok && is_dominant_stat(a, x, y, r->Ok_0),
    }
}

/// `a` is `m` plus its transpose for a grid `m` of samples.
pub open spec fn is_symmetric_sample<T: Scalar>(a: Seq<Seq<T>>) -> bool {
    exists|m: Seq<Seq<T>>| all_samples(m) && a == #[trigger] grid_sum(m, grid_transposed(m, m.len()))
}

impl<T: Scalar, const N: usize, F> DominantEigenvalueSolver<T, N, F> where
    F: Fn(&Matrix<T, N, N>) -> Result<DominantEigenvalueSolution<T, N>, KernelError>,
 {
    /// `f` should find the eigenvalue of largest magnitude of a matrix,
    /// and an eigenvector for it.
    pub fn new(f: F) -> (r: Self)
        ensures
            r.f == f,
    {
        DominantEigenvalueSolver { f, scalar: PhantomData }
    }

    /// What `f` returns for `a`.
    pub fn solve(&self, a: &Matrix<T, N, N>) -> (r: Result<DominantEigenvalueSolution<T, N>, KernelError>)
        requires
            self.f.requires((a,)),
        ensures
            self.f.ensures((a,), r),
    {
        (self.f)(a)
    }

    /// One trial on `a`: the finder is timed, the reference works on the
    /// same matrix, and the two results are measured against each other.
    pub fn experiment_on<R>(&self, reference: &DominantEigenvalueSolver<T, N, R>, a: &Matrix<T, N, N>) -> (r: Result<
        DominantEigenvalueExperimentStat<T, N>,
        KernelError,
    >) where R: Fn(&Matrix<T, N, N>) -> Result<DominantEigenvalueSolution<T, N>, KernelError>
        requires
            self.f.requires((a,)),
            reference.f.requires((a,)),
        ensures
            exists|
                candidate: Result<DominantEigenvalueSolution<T, N>, KernelError>,
                expected: Result<DominantEigenvalueSolution<T, N>, KernelError>,
            |
                {
                    &&& self.f.ensures((a,), candidate)
                    &&& reference.f.ensures((a,), expected)
                    &&& #[trigger] is_dominant_outcome(a@, candidate, expected, r)
                },
    {
        let (candidate, elapsed) = with_elapsed(|| -> (res: Result<DominantEigenvalueSolution<T, N>, KernelError>)
            ensures
                self.f.ensures((a,), res),
            { self.solve(a) });
        let expected = reference.solve(a);
        let ghost candidate0 = candidate;
        let ghost expected0 = expected;
        let r = match compare_outcomes(candidate, expected) {
            Err(e) => Err(e),
            Ok((solution, reference_solution)) => Ok(dominant_stat(a, solution, reference_solution, elapsed)),
        };
        assert(is_dominant_outcome(a@, candidate0, expected0, r));
        r
    }

    /// One trial on a random symmetric matrix: a matrix of entries drawn
    /// between minus one and one is added to its transpose, and the trial
    /// runs on the sum.
    pub fn experiment_randomly<R>(&self, reference: &DominantEigenvalueSolver<T, N, R>) -> (r: Result<
        DominantEigenvalueExperimentStat<T, N>,
        KernelError,
    >) where R: Fn(&Matrix<T, N, N>) -> Result<DominantEigenvalueSolution<T, N>, KernelError>
        requires
            forall|a: Matrix<T, N, N>| #[trigger] self.f.requires((&a,)),
            forall|a: Matrix<T, N, N>| #[trigger] reference.f.requires((&a,)),
        ensures
            exists|
                a: Matrix<T, N, N>,
                candidate: Result<DominantEigenvalueSolution<T, N>, KernelError>,
                expected: Result<DominantEigenvalueSolution<T, N>, KernelError>,
            |
                {
                    &&& is_symmetric_sample(a@)
                    &&& self.f.ensures((&a,), candidate)
                    &&& reference.f.ensures((&a,), expected)
                    &&& #[trigger] is_dominant_outcome(a@, candidate, expected, r)
                },
    {
        let random = random_matrix::<T, N, N>();
        let a = random.plus(&random.transpose());
        assert(a@ == grid_sum(random@, grid_transposed(random@, random@.len())));
        self.experiment_on(reference, &a)
    }
}

/// A finder of all eigenvalues under test.
pub struct AllEigenvaluesSolver<T, const N: usize, F> {
    pub f: F,
    pub scalar: PhantomData<T>,
}

/// All eigenvalues of a matrix, with an eigenvector for each as a column
/// of `eigenvectors`.
#[derive(Debug)]
pub struct AllEigenvaluesSolution<T, const N: usize> {
    pub eigenvalues: Vector<T, N>,
    pub eigenvectors: Matrix<T, N, N>,
    pub iteration_count: usize,
}

/// What one trial of a finder of all eigenvalues measured.
#[derive(Debug)]
pub struct AllEigenvaluesExperimentStat<T, const N: usize> {
    pub solution: (Vector<T, N>, Matrix<T, N, N>),
    pub iteration_count: usize,
    pub elapsed: Duration,
    pub reference_solution: (Vector<T, N>, Matrix<T, N, N>),
    pub max_eigenvalue_residual_norm: T,
    pub max_eigenvalues_relative_error: T,
}

} // verus!
