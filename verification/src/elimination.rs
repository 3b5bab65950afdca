//! Gaussian elimination with partial pivoting.

use vstd::prelude::*;
use crate::error::KernelError;
use crate::matrix::Matrix;
use crate::matrix::Vector;
use crate::matrix::column;
use crate::matrix::grid_concat;
use crate::matrix::rows_swapped;
use crate::scalar::Scalar;
use crate::scalar::epsilon;
use crate::scalar::exceeds_epsilon;
use crate::scalar::spec_zero;
use crate::triangular::back_solved;
use crate::triangular::back_substitution;
use crate::triangular::is_upper_triangular;

verus! {

/// No entry of column `k` from row `k` down exceeds the zero threshold.
pub open spec fn column_negligible<T: Scalar>(m: Seq<Seq<T>>, k: int) -> bool {
    forall|i: int| k <= i < m.len() ==> !exceeds_epsilon((#[trigger] m[i])[k])
}

/// Row `p` is the pivot row of column `k`: among the rows from `k` down it
/// is the first whose entry in column `k` is largest in magnitude, and
/// that entry exceeds the zero threshold.
pub open spec fn is_pivot_row<T: Scalar>(m: Seq<Seq<T>>, k: int, p: int) -> bool {
    &&& k <= p < m.len()
    &&& exceeds_epsilon(m[p][k])
    &&& forall|i: int| k <= i < m.len() ==> (#[trigger] m[i])[k].spec_magnitude() <= m[p][k].spec_magnitude()
    &&& forall|i: int| k <= i < p ==> (#[trigger] m[i])[k].spec_magnitude() < m[p][k].spec_magnitude()
}

/// The pivot row of column `k`, or `None` where the column is negligible.
pub open spec fn pivot_row<T: Scalar>(m: Seq<Seq<T>>, k: int) -> Option<int> {
    if column_negligible(m, k) {
        None
    } else {
        Some(choose|p: int| is_pivot_row(m, k, p))
    }
}

/// A column has at most one pivot row.
pub proof fn lemma_pivot_row_unique<T: Scalar>(m: Seq<Seq<T>>, k: int, p: int, q: int)
    requires
        is_pivot_row(m, k, p),
        is_pivot_row(m, k, q),
    ensures
        p == q,
{
    if p < q {
        assert(m[p][k].spec_magnitude() < m[q][k].spec_magnitude());
        assert(m[q][k].spec_magnitude() <= m[p][k].spec_magnitude());
    } else if q < p {
        assert(m[q][k].spec_magnitude() < m[p][k].spec_magnitude());
        assert(m[p][k].spec_magnitude() <= m[q][k].spec_magnitude());
    }
}

/// Among the rows from `k` up to `upto`, some row is the first with the
/// largest entry in column `k`.
proof fn lemma_first_largest<T: Scalar>(m: Seq<Seq<T>>, k: int, upto: int) -> (p: int)
    requires
        0 <= k < upto <= m.len(),
    ensures
        k <= p < upto,
        forall|i: int| k <= i < upto ==> (#[trigger] m[i])[k].spec_magnitude() <= m[p][k].spec_magnitude(),
        forall|i: int| k <= i < p ==> (#[trigger] m[i])[k].spec_magnitude() < m[p][k].spec_magnitude(),
    decreases upto - k,
{
    if upto == k + 1 {
        k
    } else {
        let q = lemma_first_largest(m, k, upto - 1);
        if m[upto - 1][k].spec_magnitude() > m[q][k].spec_magnitude() {
            upto - 1
        } else {
            q
        }
    }
}

/// A column that is not negligible has a pivot row, and `pivot_row` names it.
pub proof fn lemma_pivot_row_exists<T: Scalar>(m: Seq<Seq<T>>, k: int)
    requires
        0 <= k < m.len(),
        !column_negligible(m, k),
    ensures
        pivot_row(m, k) is Some,
        is_pivot_row(m, k, pivot_row(m, k)->Some_0),
{
    let p = lemma_first_largest(m, k, m.len() as int);
    let i = choose|i: int| k <= i < m.len() && exceeds_epsilon((#[trigger] m[i])[k]);
    assert(m[i][k].spec_magnitude() <= m[p][k].spec_magnitude());
    assert(is_pivot_row(m, k, p));
}

/// Row `row` less the multiple of `pivot` that clears its entry in column
/// `k`: the factor is `row[k] / pivot[k]`, and the columns from `k` on
/// are reduced by the factor times the pivot row's entry.
pub open spec fn row_reduced<T: Scalar>(row: Seq<T>, pivot: Seq<T>, k: int) -> Seq<T> {
    let factor = row[k].spec_over(pivot[k]);
    Seq::new(
        row.len(),
        |j: int|
            if j < k {
                row[j]
            } else {
                row[j].spec_minus(factor.spec_times(pivot[j]))
            },
    )
}

/// The grid `m` with every row below row `k` reduced by row `k`, the rows
/// below `bound` only.
pub open spec fn rows_reduced_upto<T: Scalar>(m: Seq<Seq<T>>, k: int, bound: int) -> Seq<Seq<T>> {
    Seq::new(
        m.len(),
        |i: int|
            if k < i < bound {
                row_reduced(m[i], m[k], k)
            } else {
                m[i]
            },
    )
}

/// One step of elimination on column `k`: the pivot row is brought to row
/// `k` and every row below is reduced by it. `None` where the column has
/// no pivot.
pub open spec fn elimination_step<T: Scalar>(m: Seq<Seq<T>>, k: int) -> Option<Seq<Seq<T>>> {
    match pivot_row(m, k) {
        None => None,
        Some(p) => Some(rows_reduced_upto(rows_swapped(m, p, k), k, m.len() as int)),
    }
}

/// How far elimination came: the grid as it stands, and the column that
/// had no pivot, if one was met.
pub ghost struct Elimination<T> {
    pub grid: Seq<Seq<T>>,
    pub singular_at: Option<int>,
}

/// Elimination on the columns `0` to `steps - 1` of `m`, in this order,
/// stopping at the first column without a pivot.
pub open spec fn eliminated<T: Scalar>(m: Seq<Seq<T>>, steps: nat) -> Elimination<T>
    decreases steps,
{
    if steps == 0 {
        Elimination { grid: m, singular_at: None }
    } else {
        let before = eliminated(m, (steps - 1) as nat);
        if before.singular_at is Some {
            before
        } else {
            match elimination_step(before.grid, steps - 1) {
                None => Elimination { grid: before.grid, singular_at: Some(steps - 1) },
                Some(g) => Elimination { grid: g, singular_at: None },
            }
        }
    }
}

/// Once a column without a pivot is met, further steps change nothing.
pub proof fn lemma_eliminated_stops<T: Scalar>(m: Seq<Seq<T>>, reached: nat, steps: nat)
    requires
        reached <= steps,
        eliminated(m, reached).singular_at is Some,
    ensures
        eliminated(m, steps) == eliminated(m, reached),
    decreases steps,
{
    if reached < steps {
        lemma_eliminated_stops(m, reached, (steps - 1) as nat);
    }
}

/// Every row of the grid has `width` entries.
pub open spec fn has_width<T>(m: Seq<Seq<T>>, width: int) -> bool {
    forall|i: int| 0 <= i < m.len() ==> (#[trigger] m[i]).len() == width
}

/// Every entry of column `c` is the scalar zero.
pub open spec fn column_is_zero<T: Scalar>(m: Seq<Seq<T>>, c: int) -> bool {
    forall|i: int| 0 <= i < m.len() ==> (#[trigger] m[i])[c] == spec_zero::<T>()
}

/// The scalar zero behaves as a zero under row reduction: it does not
/// exceed the zero threshold, and zero less any multiple of zero is zero.
pub open spec fn zero_is_absorbing<T: Scalar>() -> bool {
    &&& !exceeds_epsilon(spec_zero::<T>())
    &&& forall|f: T| spec_zero::<T>().spec_minus(#[trigger] f.spec_times(spec_zero::<T>())) == spec_zero::<T>()
}

/// A step of elimination on a column to the left of a zero column keeps
/// the shape of the grid and leaves the zero column zero.
pub proof fn lemma_step_keeps_zero_column<T: Scalar>(m: Seq<Seq<T>>, k: int, c: int, width: int)
    requires
        zero_is_absorbing::<T>(),
        0 <= k < c < width,
        k < m.len(),
        has_width(m, width),
        column_is_zero(m, c),
        elimination_step(m, k) is Some,
    ensures
        elimination_step(m, k)->Some_0.len() == m.len(),
        has_width(elimination_step(m, k)->Some_0, width),
        column_is_zero(elimination_step(m, k)->Some_0, c),
{
    lemma_pivot_row_exists(m, k);
    let p = pivot_row(m, k)->Some_0;
    let s = rows_swapped(m, p, k);
    let h = rows_reduced_upto(s, k, m.len() as int);
    assert(elimination_step(m, k)->Some_0 == h);
    assert forall|i: int| 0 <= i < h.len() implies (#[trigger] h[i]).len() == width && h[i][c] == spec_zero::<T>() by {
        assert(s[i].len() == width);
        assert(s[i][c] == spec_zero::<T>());
        assert(s[k][c] == spec_zero::<T>());
        if i > k {
            let factor = s[i][k].spec_over(s[k][k]);
            assert(h[i][c] == s[i][c].spec_minus(factor.spec_times(s[k][c])));
        }
    }
}

/// Elimination that reaches a column of zeros reports the matrix
/// singular, at that column or before it, whenever the scalar zero
/// behaves as a zero.
pub proof fn lemma_zero_column_is_singular<T: Scalar>(m: Seq<Seq<T>>, c: int, width: int, steps: nat)
    requires
        zero_is_absorbing::<T>(),
        0 <= c < steps <= m.len(),
        c < width,
        has_width(m, width),
        column_is_zero(m, c),
    ensures
        eliminated(m, steps).singular_at is Some,
        0 <= eliminated(m, steps).singular_at->Some_0 <= c,
{
    lemma_zero_column_survives(m, c, width, c as nat);
    let before = eliminated(m, c as nat);
    if before.singular_at is None {
        assert(column_negligible(before.grid, c));
        assert(eliminated(m, (c + 1) as nat).singular_at == Some(c));
    }
    lemma_eliminated_stops(m, (c + 1) as nat, steps);
}

/// Up to a column of zeros, elimination either has stopped or has left
/// the column zero.
pub proof fn lemma_zero_column_survives<T: Scalar>(m: Seq<Seq<T>>, c: int, width: int, steps: nat)
    requires
        zero_is_absorbing::<T>(),
        0 <= steps <= c < width,
        c < m.len(),
        has_width(m, width),
        column_is_zero(m, c),
    ensures
        eliminated(m, steps).grid.len() == m.len(),
        has_width(eliminated(m, steps).grid, width),
        column_is_zero(eliminated(m, steps).grid, c),
        eliminated(m, steps).singular_at is Some ==> 0 <= eliminated(m, steps).singular_at->Some_0 < steps,
    decreases steps,
{
    if steps > 0 {
        lemma_zero_column_survives(m, c, width, (steps - 1) as nat);
        let before = eliminated(m, (steps - 1) as nat);
        if before.singular_at is None && elimination_step(before.grid, steps - 1) is Some {
            lemma_step_keeps_zero_column(before.grid, steps - 1, c, width);
        }
    }
}

/// The number of pivot columns that elimination visits on `n` rows: all but the last.
pub open spec fn pivot_columns(n: nat) -> nat {
    if n == 0 {
        0
    } else {
        (n - 1) as nat
    }
}

/// The pivot row of column `k`, if the column has one.
pub fn find_pivot<T: Scalar, const N: usize, const M: usize>(m: &Matrix<T, N, M>, k: usize) -> (r: Option<usize>)
    requires
        k < N,
        k < M,
    ensures
        match r {
            Some(p) => pivot_row(m@, k as int) == Some(p as int) && is_pivot_row(m@, k as int, p as int),
            None => pivot_row(m@, k as int) is None && column_negligible(m@, k as int),
        },
{
    let threshold = epsilon::<T>().magnitude();
    let mut best: usize = k;
    let mut best_key: u64 = m.get(k, k).magnitude();
    let mut i: usize = k + 1;
    while i < N
        invariant
            k < i <= N,
            k < M,
            k <= best < i,
            best_key == m@[best as int][k as int].spec_magnitude(),
            forall|r: int| k <= r < i ==> (#[trigger] m@[r])[k as int].spec_magnitude() <= best_key,
            forall|r: int| k <= r < best ==> (#[trigger] m@[r])[k as int].spec_magnitude() < best_key,
        decreases N - i,
    {
        let key: u64 = m.get(i, k).magnitude();
        if key > best_key {
            best = i;
            best_key = key;
        }
        i += 1;
    }
    if best_key > threshold {
        proof {
            assert(exceeds_epsilon((m@[best as int])[k as int]));
            assert(is_pivot_row(m@, k as int, best as int));
            let q = choose|p: int| is_pivot_row(m@, k as int, p);
            lemma_pivot_row_unique(m@, k as int, best as int, q);
        }
        Some(best)
    } else {
        None
    }
}

/// Reduces row `i` by row `k` from column `k` on, and hands back the factor used.
pub fn reduce_row<T: Scalar, const N: usize, const M: usize>(m: &mut Matrix<T, N, M>, i: usize, k: usize) -> (factor: T)
    requires
        i < N,
        k < N,
        k < M,
        i != k,
    ensures
        factor == old(m)@[i as int][k as int].spec_over(old(m)@[k as int][k as int]),
        final(m)@ == old(m)@.update(i as int, row_reduced(old(m)@[i as int], old(m)@[k as int], k as int)),
{
    let factor = m.get(i, k).over(m.get(k, k));
    let mut j: usize = k;
    while j < M
        invariant
            k <= j <= M,
            i < N,
            k < N,
            i != k,
            factor == old(m)@[i as int][k as int].spec_over(old(m)@[k as int][k as int]),
            forall|r: int, c: int|
                0 <= r < N && 0 <= c < M ==> m@[r][c] == (if r == i && k <= c < j {
                    old(m)@[r][c].spec_minus(factor.spec_times(old(m)@[k as int][c]))
                } else {
                    old(m)@[r][c]
                }),
        decreases M - j,
    {
        let reduced = m.get(i, j).minus(factor.times(m.get(k, j)));
        m.set(i, j, reduced);
        j += 1;
    }
    assert(m@ =~~= old(m)@.update(i as int, row_reduced(old(m)@[i as int], old(m)@[k as int], k as int)));
    factor
}

/// Gaussian elimination with partial pivoting, in place, on an augmented
/// matrix of `N` rows and `N + 1` columns. The pivot columns are visited
/// from the first to the last but one. At the first column without a
/// pivot the matrix is left as it stands and reported singular.
pub fn do_gaussian_elimination<T: Scalar, const N: usize, const M: usize>(ab: &mut Matrix<T, N, M>) -> (r: Result<
    (),
    KernelError,
>)
    requires
        M == N + 1,
    ensures
        final(ab)@ == eliminated(old(ab)@, pivot_columns(N as nat)).grid,
        match eliminated(old(ab)@, pivot_columns(N as nat)).singular_at {
            None => r is Ok,
            Some(c) => r is Err && r->Err_0 == (KernelError::SingularMatrix { column: c as usize }) && 0 <= c < N,
        },
{
    let steps: usize = if N == 0 {
        0
    } else {
        N - 1
    };
    let mut k: usize = 0;
    while k < steps
        invariant
            k <= steps,
            steps == pivot_columns(N as nat),
            M == N + 1,
            eliminated(old(ab)@, k as nat) == (Elimination { grid: ab@, singular_at: None }),
        decreases steps - k,
    {
        match find_pivot(ab, k) {
            None => {
                proof {
                    assert(eliminated(old(ab)@, (k + 1) as nat) == (Elimination {
                        grid: ab@,
                        singular_at: Some(k as int),
                    }));
                    lemma_eliminated_stops(old(ab)@, (k + 1) as nat, steps as nat);
                }
                return Err(KernelError::SingularMatrix { column: k });
            },
            Some(p) => {
                let ghost start = ab@;
                if p != k {
                    ab.swap_rows(p, k);
                }
                let ghost swapped = ab@;
                assert(swapped =~~= rows_swapped(start, p as int, k as int));
                let mut i: usize = k + 1;
                assert(ab@ =~~= rows_reduced_upto(swapped, k as int, i as int));
                while i < N
                    invariant
                        k < i <= N,
                        M == N + 1,
                        swapped.len() == N,
                        ab@ == rows_reduced_upto(swapped, k as int, i as int),
                    decreases N - i,
                {
                    let _ = reduce_row(ab, i, k);
                    i += 1;
                    assert(ab@ =~~= rows_reduced_upto(swapped, k as int, i as int));
                }
            },
        }
        k += 1;
    }
    Ok(())
}

/// The first `n` columns of the grid `m`.
pub open spec fn leading_columns<T>(m: Seq<Seq<T>>, n: nat) -> Seq<Seq<T>> {
    Seq::new(m.len(), |i: int| m[i].take(n as int))
}

/// What solving `a * x = b` by elimination gives: the augmented grid is
/// eliminated, and the triangular system that is left is solved by back
/// substitution.
pub open spec fn gaussian_solution<T: Scalar>(a: Seq<Seq<T>>, b: Seq<Seq<T>>) -> Result<Seq<T>, KernelError> {
    let done = eliminated(grid_concat(a, b), pivot_columns(a.len()));
    match done.singular_at {
        Some(c) => Err(KernelError::SingularMatrix { column: c as usize }),
        None => {
            let u = leading_columns(done.grid, a.len());
            if is_upper_triangular(u) {
                Ok(back_solved(u, column(done.grid, a.len() as int), 0))
            } else {
                Err(KernelError::PreconditionViolation)
            }
        },
    }
}

/// Solves `a * x = b` by Gaussian elimination with partial pivoting on the
/// augmented matrix, which has `K = N + 1` columns, and back substitution.
pub fn solve_by_gaussian_elimination<T: Scalar, const N: usize, const K: usize>(
    a: &Matrix<T, N, N>,
    b: &Vector<T, N>,
) -> (r: Result<Vector<T, N>, KernelError>)
    requires
        K == N + 1,
    ensures
        match gaussian_solution(a@, b@) {
            Ok(x) => r is Ok && r->Ok_0.entries() == x,
            Err(e) => r is Err && r->Err_0 == e,
        },
{
    let mut augmented: Matrix<T, N, K> = Matrix::concat(a, b);
    match do_gaussian_elimination(&mut augmented) {
        Err(e) => Err(e),
        Ok(()) => {
            let u = Matrix::<T, N, N>::from_fn(|i: usize, j: usize| -> (v: T)
                requires
                    i < N,
                    j < N,
                ensures
                    v == augmented@[i as int][j as int],
                { augmented.get(i, j) });
            let c = Vector::<T, N>::from_fn(|i: usize, j: usize| -> (v: T)
                requires
                    i < N,
                ensures
                    v == augmented@[i as int][N as int],
                { augmented.get(i, N) });
            proof {
                assert(u@ =~~= leading_columns(augmented@, N as nat)) by {
                    assert forall|i: int, j: int| 0 <= i < N && 0 <= j < N implies u@[i][j] == augmented@[i][j] by {
                        let _ = u@[i as usize as int][j as usize as int];
                    }
                }
                assert(c.entries() =~= column(augmented@, N as int)) by {
                    assert forall|i: int| 0 <= i < N implies c@[i][0] == augmented@[i][N as int] by {
                        let _ = c@[i as usize as int][0usize as int];
                    }
                }
            }
            back_substitution(&u, &c)
        },
    }
}

} // verus!
