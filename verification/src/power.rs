//! Power iteration for the dominant eigenvalue.

use vstd::prelude::*;
use crate::elimination::find_pivot;
use crate::elimination::pivot_row;
use crate::error::KernelError;
use crate::matrix::Matrix;
use crate::matrix::Vector;
use crate::matrix::grid_product;
use crate::matrix::spec_normalized;
use crate::scalar::Scalar;
use crate::scalar::abs;
use crate::scalar::below_epsilon;
use crate::scalar::epsilon;
use crate::scalar::one;
use crate::scalar::spec_abs;
use crate::scalar::spec_one;

verus! {

/// The iteration gives up before it reaches this count.
pub const MAX_ITERATIONS: usize = 1_000_000;

/// The dominant eigenvalue of a matrix, an eigenvector that belongs to
/// it, and the count of the step at which the estimate settled.
#[derive(Debug)]
pub struct DominantEigenvalueSolution<T, const N: usize> {
    pub eigenvalue: T,
    pub eigenvector: Vector<T, N>,
    pub iteration_count: usize,
}

/// What the iteration found: the views of an eigenvalue solution.
pub ghost struct Dominant<T> {
    pub eigenvalue: T,
    pub eigenvector: Seq<Seq<T>>,
    pub iteration_count: int,
}

/// Two successive estimates agree: their absolute values differ by less
/// than the zero threshold.
pub open spec fn estimates_agree<T: Scalar>(previous: T, current: T) -> bool {
    below_epsilon(spec_abs(previous).spec_minus(spec_abs(current)))
}

/// The one-column grid of `n` ones, with which the iteration starts.
pub open spec fn all_ones<T: Scalar>(n: nat) -> Seq<Seq<T>> {
    Seq::new(n, |i: int| Seq::new(1, |j: int| spec_one::<T>()))
}

/// Power iteration on `a` from the iterate `x` at step `count`, where
/// `previous` is the estimate of the step before, if there was one.
///
/// A step multiplies `a` by `x` and takes as estimate the product's entry
/// over that of `x`, both at the first place where `x` is largest in
/// magnitude. Where the estimate agrees with the one before, the step
/// ends the iteration with this estimate, `x` and `count`; else the
/// product, normalized, is the next iterate. An iterate with no entry
/// above the zero threshold, or a product that cannot be normalized, is
/// degenerate. The step whose count would be `MAX_ITERATIONS` is not
/// taken: the iteration has not converged.
pub open spec fn power_iterated<T: Scalar>(a: Seq<Seq<T>>, x: Seq<Seq<T>>, previous: Option<T>, count: nat) -> Result<
    Dominant<T>,
    KernelError,
>
    decreases MAX_ITERATIONS - count,
{
    if count >= MAX_ITERATIONS {
        Err(KernelError::NonConvergence { iterations: (MAX_ITERATIONS - 1) as usize })
    } else {
        let y = grid_product(a, x, 1);
        match pivot_row(x, 0) {
            None => Err(KernelError::DegenerateVector),
            Some(i) => {
                let mu = y[i][0].spec_over(x[i][0]);
                if previous is Some && estimates_agree(previous->Some_0, mu) {
                    Ok(Dominant { eigenvalue: mu, eigenvector: x, iteration_count: count as int })
                } else {
                    match spec_normalized(y) {
                        Err(e) => Err(e),
                        Ok(next) => power_iterated(a, next, Some(mu), count + 1),
                    }
                }
            },
        }
    }
}

/// The estimate of the dominant eigenvalue that the iterate `x` gives:
/// the entry of `a * x` over the entry of `x`, both at the first place
/// where `x` is largest in magnitude.
pub open spec fn estimate<T: Scalar>(a: Seq<Seq<T>>, x: Seq<Seq<T>>) -> T {
    let i = pivot_row(x, 0)->Some_0;
    grid_product(a, x, 1)[i][0].spec_over(x[i][0])
}

/// Whatever the iteration finds, the eigenvalue is the estimate that the
/// eigenvector gives, the eigenvector has an entry above the zero
/// threshold, and the count is that of a step that was taken: not before
/// `count`, after it where there was no estimate to compare with, and
/// below `MAX_ITERATIONS`.
pub proof fn lemma_power_iterated_result<T: Scalar>(a: Seq<Seq<T>>, x: Seq<Seq<T>>, previous: Option<T>, count: nat)
    requires
        power_iterated(a, x, previous, count) is Ok,
    ensures
        pivot_row(power_iterated(a, x, previous, count)->Ok_0.eigenvector, 0) is Some,
        power_iterated(a, x, previous, count)->Ok_0.eigenvalue == estimate(
            a,
            power_iterated(a, x, previous, count)->Ok_0.eigenvector,
        ),
        count <= power_iterated(a, x, previous, count)->Ok_0.iteration_count < MAX_ITERATIONS,
        previous is None ==> count < power_iterated(a, x, previous, count)->Ok_0.iteration_count,
    decreases MAX_ITERATIONS - count,
{
    if count < MAX_ITERATIONS {
        let y = grid_product(a, x, 1);
        let i = pivot_row(x, 0)->Some_0;
        let mu = y[i][0].spec_over(x[i][0]);
        if !(previous is Some && estimates_agree(previous->Some_0, mu)) {
            lemma_power_iterated_result(a, spec_normalized(y)->Ok_0, Some(mu), count + 1);
        }
    }
}

/// Finds the eigenvalue of largest magnitude of `a`, and an eigenvector
/// for it, by power iteration from the vector of ones. The matrix is
/// taken to be symmetric; this is not checked.
pub fn solve_by_power_iteration<T: Scalar, const N: usize>(a: &Matrix<T, N, N>) -> (r: Result<
    DominantEigenvalueSolution<T, N>,
    KernelError,
>)
    ensures
        match power_iterated(a@, all_ones::<T>(N as nat), None, 1) {
            Ok(d) => {
                &&& r is Ok
                &&& r->Ok_0.eigenvalue == d.eigenvalue
                &&& r->Ok_0.eigenvector@ == d.eigenvector
                &&& r->Ok_0.iteration_count == d.iteration_count
                &&& r->Ok_0.eigenvalue == estimate(a@, r->Ok_0.eigenvector@)
                &&& 2 <= r->Ok_0.iteration_count < MAX_ITERATIONS
            },
            Err(e) => r is Err && r->Err_0 == e,
        },
{
    let threshold = epsilon::<T>().magnitude();
    let mut x = Vector::<T, N>::filled_with(one::<T>());
    let mut previous: Option<T> = None;
    let mut count: usize = 1;
    assert(x@ =~~= all_ones::<T>(N as nat));
    while count < MAX_ITERATIONS
        invariant
            1 <= count <= MAX_ITERATIONS,
            threshold == crate::scalar::spec_epsilon::<T>().spec_magnitude(),
            power_iterated(a@, x@, previous, count as nat) == power_iterated(a@, all_ones::<T>(N as nat), None, 1),
        decreases MAX_ITERATIONS - count,
    {
        if N == 0 {
            return Err(KernelError::DegenerateVector);
        }
        let y = a.times(&x);
        match find_pivot(&x, 0) {
            None => {
                return Err(KernelError::DegenerateVector);
            },
            Some(i) => {
                let mu = y.get(i, 0).over(x.get(i, 0));
                let settled = match previous {
                    Some(p) => abs(p).minus(abs(mu)).magnitude() < threshold,
                    None => false,
                };
                if settled {
                    proof {
                        lemma_power_iterated_result(a@, all_ones::<T>(N as nat), None, 1);
                    }
                    return Ok(DominantEigenvalueSolution { eigenvalue: mu, eigenvector: x, iteration_count: count });
                }
                match y.normalized() {
                    Err(e) => {
                        return Err(e);
                    },
                    Ok(next) => {
                        x = next;
                        previous = Some(mu);
                    },
                }
            },
        }
        count += 1;
    }
    Err(KernelError::NonConvergence { iterations: MAX_ITERATIONS - 1 })
}

} // verus!
