//! What elimination computes where the arithmetic is exact.

use vstd::prelude::*;
use crate::elimination::eliminated;
use crate::elimination::elimination_step;
use crate::elimination::gaussian_solution;
use crate::elimination::has_width;
use crate::elimination::is_pivot_row;
use crate::elimination::leading_columns;
use crate::elimination::lemma_pivot_row_exists;
use crate::elimination::pivot_columns;
use crate::elimination::pivot_row;
use crate::elimination::row_reduced;
use crate::elimination::rows_reduced_upto;
use crate::exact::is_exact;
use crate::exact::is_exactly_upper;
use crate::exact::lemma_back_solves;
use crate::exact::lemma_distribute;
use crate::exact::lemma_divide_back;
use crate::exact::lemma_minus_plus;
use crate::exact::lemma_pivot_not_zero;
use crate::exact::lemma_plus_zero;
use crate::exact::lemma_shuffle;
use crate::exact::lemma_times_regroup;
use crate::exact::lemma_times_zero_one;
use crate::exact::solves;
use crate::lu::is_square;
use crate::matrix::column;
use crate::matrix::dot_range;
use crate::matrix::grid_concat;
use crate::matrix::lemma_dot_range_local;
use crate::matrix::rows_swapped;
use crate::scalar::Scalar;
use crate::scalar::spec_zero;
use crate::triangular::back_solved;

verus! {

/// The equation that a row of an augmented grid stands for holds of `x`:
/// the first `n` entries of the row times `x` give the entry at `n`.
pub open spec fn row_holds<T: Scalar>(row: Seq<T>, x: Seq<T>, n: int) -> bool {
    dot_range(row, x, 0, n) == row[n]
}

/// Every row of the augmented grid holds of `x`.
pub open spec fn rows_hold<T: Scalar>(g: Seq<Seq<T>>, x: Seq<T>, n: int) -> bool {
    forall|i: int| 0 <= i < g.len() ==> row_holds(#[trigger] g[i], x, n)
}

/// The columns before `upto` are cleared below the diagonal, and their
/// diagonal entries are not zero.
pub open spec fn is_reduced_upto<T: Scalar>(g: Seq<Seq<T>>, upto: int) -> bool {
    &&& forall|i: int, j: int| 0 <= j < upto && j < i < g.len() ==> #[trigger] g[i][j] == spec_zero::<T>()
    &&& forall|j: int| 0 <= j < upto && j < g.len() ==> (#[trigger] g[j])[j] != spec_zero::<T>()
}

/// A row and the row it was reduced by, taken together again: up to any
/// place, the reduced row's products plus the factor times the pivot row's
/// products are the products of the row as it was.
proof fn lemma_reduced_row_sums<T: Scalar>(row: Seq<T>, pivot: Seq<T>, k: int, x: Seq<T>, upto: int)
    requires
        is_exact::<T>(),
        0 <= k,
        0 <= upto <= row.len(),
        forall|j: int| 0 <= j < k ==> pivot[j] == spec_zero::<T>(),
    ensures
        dot_range(row_reduced(row, pivot, k), x, 0, upto).spec_plus(
            row[k].spec_over(pivot[k]).spec_times(dot_range(pivot, x, 0, upto)),
        ) == dot_range(row, x, 0, upto),
    decreases upto,
{
    let f = row[k].spec_over(pivot[k]);
    let reduced = row_reduced(row, pivot, k);
    if upto == 0 {
        lemma_times_zero_one(f);
        lemma_plus_zero(spec_zero::<T>());
    } else {
        let m = upto - 1;
        lemma_reduced_row_sums(row, pivot, k, x, m);
        let dh = dot_range(reduced, x, 0, m);
        let dq = dot_range(pivot, x, 0, m);
        let dr = dot_range(row, x, 0, m);
        let hx = reduced[m].spec_times(x[m]);
        let qx = pivot[m].spec_times(x[m]);
        // f * (dq + qx) = f * dq + f * qx
        lemma_distribute(f, dq, qx);
        // (dh + hx) + (f * dq + f * qx) = (dh + f * dq) + (hx + f * qx)
        lemma_shuffle(dh, hx, f.spec_times(dq), f.spec_times(qx));
        // f * (q * x) = (f * q) * x
        lemma_times_regroup(f, pivot[m], x[m]);
        // h * x + (f * q) * x = (h + f * q) * x
        lemma_distribute(x[m], reduced[m], f.spec_times(pivot[m]));
        // h + f * q = r
        if m >= k {
            assert(reduced[m] == row[m].spec_minus(f.spec_times(pivot[m])));
            lemma_minus_plus(row[m], f.spec_times(pivot[m]));
        } else {
            assert(reduced[m] == row[m]);
            lemma_times_zero_one(f);
            lemma_plus_zero(row[m]);
        }
        assert(reduced[m].spec_plus(f.spec_times(pivot[m])) == row[m]);
    }
}

/// Where the reduced row and the pivot row hold of `x`, the row as it
/// was before the reduction holds of `x` too.
proof fn lemma_reduced_row_holds<T: Scalar>(row: Seq<T>, pivot: Seq<T>, k: int, x: Seq<T>, n: int)
    requires
        is_exact::<T>(),
        0 <= k < n < row.len(),
        forall|j: int| 0 <= j < k ==> pivot[j] == spec_zero::<T>(),
        row_holds(row_reduced(row, pivot, k), x, n),
        row_holds(pivot, x, n),
    ensures
        row_holds(row, x, n),
{
    let f = row[k].spec_over(pivot[k]);
    lemma_reduced_row_sums(row, pivot, k, x, n);
    assert(row_reduced(row, pivot, k)[n] == row[n].spec_minus(f.spec_times(pivot[n])));
    lemma_minus_plus(row[n], f.spec_times(pivot[n]));
}

/// Under exact arithmetic, a step of elimination on a grid that is
/// reduced up to column `k` keeps its shape and leaves it reduced up to
/// the next column.
pub proof fn lemma_step_reduces<T: Scalar>(g: Seq<Seq<T>>, k: int, width: int)
    requires
        is_exact::<T>(),
        0 <= k < g.len(),
        k < width,
        has_width(g, width),
        is_reduced_upto(g, k),
        elimination_step(g, k) is Some,
    ensures
        elimination_step(g, k)->Some_0.len() == g.len(),
        has_width(elimination_step(g, k)->Some_0, width),
        is_reduced_upto(elimination_step(g, k)->Some_0, k + 1),
{
    lemma_pivot_row_exists(g, k);
    let p = pivot_row(g, k)->Some_0;
    assert(is_pivot_row(g, k, p));
    let s = rows_swapped(g, p, k);
    let h = rows_reduced_upto(s, k, g.len() as int);
    assert(elimination_step(g, k)->Some_0 == h);
    assert(s[k] == g[p]);
    lemma_pivot_not_zero(s[k][k]);
    assert forall|i: int| 0 <= i < h.len() implies (#[trigger] h[i]).len() == width by {
        assert(s[i].len() == width);
    }
    assert forall|i: int, j: int| 0 <= j < k + 1 && j < i < h.len() implies #[trigger] h[i][j] == spec_zero::<T>() by {
        let src = if i == k {
            p
        } else if i == p {
            k
        } else {
            i
        };
        assert(s[i] == g[src]);
        if i <= k {
            assert(h[i] == s[i]);
            assert(g[src][j] == spec_zero::<T>());
        } else if j < k {
            assert(h[i][j] == s[i][j]);
            assert(g[src][j] == spec_zero::<T>());
        } else {
            lemma_divide_back(s[i][k], s[k][k]);
        }
    }
    assert forall|j: int| 0 <= j < k + 1 && j < h.len() implies (#[trigger] h[j])[j] != spec_zero::<T>() by {
        assert(h[j] == s[j]);
        if j < k {
            assert(s[j] == g[j]);
        }
    }
}

/// Under exact arithmetic, whatever holds of all rows after a step of
/// elimination, on a grid reduced up to column `k`, held of all rows
/// before it.
proof fn lemma_step_is_sound<T: Scalar>(g: Seq<Seq<T>>, k: int, width: int, x: Seq<T>, n: int)
    requires
        is_exact::<T>(),
        0 <= k < g.len(),
        k < n < width,
        has_width(g, width),
        is_reduced_upto(g, k),
        elimination_step(g, k) is Some,
        rows_hold(elimination_step(g, k)->Some_0, x, n),
    ensures
        rows_hold(g, x, n),
{
    lemma_pivot_row_exists(g, k);
    let p = pivot_row(g, k)->Some_0;
    assert(is_pivot_row(g, k, p));
    let s = rows_swapped(g, p, k);
    let h = rows_reduced_upto(s, k, g.len() as int);
    assert(elimination_step(g, k)->Some_0 == h);
    assert(s[k] == g[p]);
    assert(h[k] == s[k]);
    assert(row_holds(s[k], x, n));
    assert forall|j: int| 0 <= j < k implies s[k][j] == spec_zero::<T>() by {
        assert(g[p][j] == spec_zero::<T>());
    }
    assert forall|i: int| 0 <= i < g.len() implies row_holds(#[trigger] s[i], x, n) by {
        if i > k {
            assert(h[i] == row_reduced(s[i], s[k], k));
            assert(row_holds(h[i], x, n));
            assert(s[i].len() == width);
            lemma_reduced_row_holds(s[i], s[k], k, x, n);
        } else {
            assert(h[i] == s[i]);
        }
    }
    assert forall|i: int| 0 <= i < g.len() implies row_holds(#[trigger] g[i], x, n) by {
        let dst = if i == k {
            p
        } else if i == p {
            k
        } else {
            i
        };
        assert(s[dst] == g[i]);
        assert(row_holds(s[dst], x, n));
    }
}

/// Under exact arithmetic, elimination that found all its pivots keeps
/// the shape of the grid and leaves it reduced up to the last column it
/// visited.
pub proof fn lemma_elimination_reduces<T: Scalar>(g: Seq<Seq<T>>, steps: nat, width: int)
    requires
        is_exact::<T>(),
        steps <= g.len(),
        steps <= width,
        has_width(g, width),
        eliminated(g, steps).singular_at is None,
    ensures
        eliminated(g, steps).grid.len() == g.len(),
        has_width(eliminated(g, steps).grid, width),
        is_reduced_upto(eliminated(g, steps).grid, steps as int),
    decreases steps,
{
    if steps > 0 {
        let before = eliminated(g, (steps - 1) as nat);
        lemma_elimination_reduces(g, (steps - 1) as nat, width);
        lemma_step_reduces(before.grid, steps - 1, width);
    }
}

/// Under exact arithmetic, whatever holds of all rows after an
/// elimination that found all its pivots held of all rows of the grid
/// it began with: elimination keeps the solutions.
pub proof fn lemma_elimination_is_sound<T: Scalar>(g: Seq<Seq<T>>, steps: nat, width: int, x: Seq<T>, n: int)
    requires
        is_exact::<T>(),
        steps <= g.len(),
        steps <= n < width,
        has_width(g, width),
        eliminated(g, steps).singular_at is None,
        rows_hold(eliminated(g, steps).grid, x, n),
    ensures
        rows_hold(g, x, n),
    decreases steps,
{
    if steps > 0 {
        let before = eliminated(g, (steps - 1) as nat);
        lemma_elimination_reduces(g, (steps - 1) as nat, width);
        lemma_step_is_sound(before.grid, steps - 1, width, x, n);
        lemma_elimination_is_sound(g, (steps - 1) as nat, width, x, n);
    }
}

/// Under exact arithmetic, solving by elimination solves the system:
/// where it hands back `x`, and the last diagonal entry left by the
/// elimination, which no pivot search looks at, is not zero, `a * x = b`.
pub proof fn lemma_gaussian_solution_solves<T: Scalar>(a: Seq<Seq<T>>, b: Seq<Seq<T>>)
    requires
        is_exact::<T>(),
        is_square(a),
        a.len() > 0,
        b.len() == a.len(),
        has_width(b, 1),
        gaussian_solution(a, b) is Ok,
        eliminated(grid_concat(a, b), pivot_columns(a.len())).grid[a.len() - 1][a.len() - 1] != spec_zero::<T>(),
    ensures
        solves(a, gaussian_solution(a, b)->Ok_0, column(b, 0)),
{
    let n = a.len() as int;
    let g = grid_concat(a, b);
    let steps = pivot_columns(a.len());
    let done = eliminated(g, steps);
    let u = leading_columns(done.grid, a.len());
    let c = column(done.grid, n);
    let x = back_solved(u, c, 0);
    assert(has_width(g, n + 1)) by {
        assert forall|i: int| 0 <= i < g.len() implies (#[trigger] g[i]).len() == n + 1 by {
            assert(a[i].len() == n);
            assert(b[i].len() == 1);
        }
    }
    lemma_elimination_reduces(g, steps, n + 1);
    assert(is_exactly_upper(u)) by {
        assert forall|i: int, j: int| 0 <= j < i < u.len() implies #[trigger] u[i][j] == spec_zero::<T>() by {
            assert(done.grid[i].len() == n + 1);
            assert(u[i][j] == done.grid[i][j]);
        }
        assert forall|i: int| 0 <= i < u.len() implies (#[trigger] u[i])[i] != spec_zero::<T>() by {
            assert(done.grid[i].len() == n + 1);
            assert(u[i][i] == done.grid[i][i]);
        }
    }
    lemma_back_solves(u, c);
    assert forall|i: int| 0 <= i < done.grid.len() implies row_holds(#[trigger] done.grid[i], x, n) by {
        assert(done.grid[i].len() == n + 1);
        assert forall|t: int| 0 <= t < n implies u[i][t] == done.grid[i][t] by {}
        lemma_dot_range_local(u[i], x, done.grid[i], x, 0, n);
        assert(dot_range(u[i], x, 0, n) == c[i]);
    }
    assert(rows_hold(done.grid, x, n));
    lemma_elimination_is_sound(g, steps, n + 1, x, n);
    assert forall|i: int| 0 <= i < a.len() implies dot_range(#[trigger] a[i], x, 0, n) == column(b, 0)[i] by {
        assert(row_holds(g[i], x, n));
        assert(a[i].len() == n);
        assert forall|t: int| 0 <= t < n implies g[i][t] == a[i][t] by {}
        lemma_dot_range_local(g[i], x, a[i], x, 0, n);
        assert(g[i][n] == b[i][0]);
    }
}

} // verus!
