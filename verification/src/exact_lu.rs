//! What the factorization computes where the arithmetic is exact.

use vstd::prelude::*;
use crate::elimination::column_negligible;
use crate::elimination::has_width;
use crate::elimination::is_pivot_row;
use crate::elimination::lemma_pivot_row_exists;
use crate::elimination::pivot_row;
use crate::elimination::rows_reduced_upto;
use crate::exact::is_exact;
use crate::exact::is_exactly_lower;
use crate::exact::is_exactly_upper;
use crate::exact::lemma_back_solves;
use crate::exact::lemma_cancel;
use crate::exact::lemma_distribute;
use crate::exact::lemma_divide_back;
use crate::exact::lemma_dot_range_zero_tail;
use crate::exact::lemma_forward_solves;
use crate::exact::lemma_pivot_not_zero;
use crate::exact::lemma_plus_zero;
use crate::exact::lemma_shuffle;
use crate::exact::lemma_times_regroup;
use crate::exact::lemma_times_zero_one;
use crate::exact::solves;
use crate::exact_elimination::lemma_elimination_reduces;
use crate::lu::entries_swapped;
use crate::lu::is_square;
use crate::lu::lemma_lu_follows_elimination;
use crate::lu::lemma_lu_structure;
use crate::lu::lu_factored;
use crate::lu::lu_solution;
use crate::lu::occurs_in;
use crate::lu::permuted;
use crate::lu::with_factor_column;
use crate::matrix::column;
use crate::matrix::dot_range;
use crate::matrix::grid_product;
use crate::matrix::lemma_dot_range_local;
use crate::matrix::rows_swapped;
use crate::scalar::Scalar;
use crate::scalar::exceeds_epsilon;
use crate::scalar::spec_one;
use crate::scalar::spec_zero;
use crate::triangular::back_solved;
use crate::triangular::forward_solved;
use crate::triangular::is_lower_triangular;
use crate::triangular::is_upper_triangular;
use crate::triangular::lemma_forward_solved_len;

verus! {

/// Row `i`, column `j` of `l * u` as far as the first `k` columns of `l`
/// are set, plus what is still left in `u` of the rows from `k` on.
pub open spec fn partial_product<T: Scalar>(l: Seq<Seq<T>>, u: Seq<Seq<T>>, i: int, j: int, k: int) -> T {
    let sum = dot_range(l[i], column(u, j), 0, k);
    if i >= k {
        sum.spec_plus(u[i][j])
    } else {
        sum
    }
}

/// After `k` steps the factors account for the permuted matrix, and the
/// first `k` columns of `u` are zero below the diagonal.
pub open spec fn factors_agree<T: Scalar>(a: Seq<Seq<T>>, l: Seq<Seq<T>>, u: Seq<Seq<T>>, pi: Seq<usize>, k: int) -> bool {
    &&& forall|i: int, j: int|
        0 <= i < a.len() && 0 <= j < a.len() ==> a[pi[i] as int][j] == #[trigger] partial_product(l, u, i, j, k)
    &&& forall|i: int, j: int| 0 <= j < k && j < i < a.len() ==> #[trigger] u[i][j] == spec_zero::<T>()
}

/// The grid has `n` rows of `n` entries.
pub open spec fn has_size<T>(m: Seq<Seq<T>>, n: int) -> bool {
    &&& m.len() == n
    &&& forall|i: int| 0 <= i < n ==> (#[trigger] m[i]).len() == n
}

/// Exchanging two rows that are still to be reduced, in both factors and
/// in the permutation, keeps the factors in agreement with the matrix.
proof fn lemma_swap_keeps_agreement<T: Scalar>(
    a: Seq<Seq<T>>,
    l: Seq<Seq<T>>,
    u: Seq<Seq<T>>,
    pi: Seq<usize>,
    k: int,
    p: int,
)
    requires
        has_size(a, a.len() as int),
        has_size(l, a.len() as int),
        has_size(u, a.len() as int),
        pi.len() == a.len(),
        0 <= k <= p < a.len(),
        factors_agree(a, l, u, pi, k),
    ensures
        factors_agree(a, rows_swapped(l, p, k), rows_swapped(u, p, k), entries_swapped(pi, p, k), k),
{
    let n = a.len() as int;
    let l1 = rows_swapped(l, p, k);
    let u1 = rows_swapped(u, p, k);
    let pi1 = entries_swapped(pi, p, k);
    assert forall|i: int, j: int| 0 <= i < n && 0 <= j < n implies a[pi1[i] as int][j] == #[trigger] partial_product(
        l1,
        u1,
        i,
        j,
        k,
    ) by {
        let src = if i == k {
            p
        } else if i == p {
            k
        } else {
            i
        };
        assert(l1[i] == l[src]);
        assert(u1[i] == u[src]);
        assert(pi1[i] == pi[src]);
        assert forall|t: int| 0 <= t < k implies column(u1, j)[t] == column(u, j)[t] by {
            assert(u1[t] == u[t]);
        }
        lemma_dot_range_local(l1[i], column(u1, j), l[src], column(u, j), 0, k);
        assert(a[pi[src] as int][j] == partial_product(l, u, src, j, k));
    }
    assert forall|i: int, j: int| 0 <= j < k && j < i < n implies #[trigger] u1[i][j] == spec_zero::<T>() by {
        let src = if i == k {
            p
        } else if i == p {
            k
        } else {
            i
        };
        assert(u1[i] == u[src]);
        assert(u[src][j] == spec_zero::<T>());
    }
}

/// Reducing the rows below row `k` by a pivot that is not zero, and
/// setting column `k` of `l`, keeps the factors in agreement with the
/// matrix and clears column `k` of `u` below the diagonal.
proof fn lemma_reduction_keeps_agreement<T: Scalar>(
    a: Seq<Seq<T>>,
    l: Seq<Seq<T>>,
    u: Seq<Seq<T>>,
    pi: Seq<usize>,
    k: int,
)
    requires
        is_exact::<T>(),
        has_size(a, a.len() as int),
        has_size(l, a.len() as int),
        has_size(u, a.len() as int),
        pi.len() == a.len(),
        0 <= k < a.len(),
        u[k][k] != spec_zero::<T>(),
        factors_agree(a, l, u, pi, k),
    ensures
        factors_agree(a, with_factor_column(l, u, k), rows_reduced_upto(u, k, a.len() as int), pi, k + 1),
{
    let n = a.len() as int;
    let l2 = with_factor_column(l, u, k);
    let u2 = rows_reduced_upto(u, k, n);
    assert forall|i: int, j: int| 0 <= i < n && 0 <= j < n implies a[pi[i] as int][j] == #[trigger] partial_product(
        l2,
        u2,
        i,
        j,
        k + 1,
    ) by {
        let sum = dot_range(l[i], column(u, j), 0, k);
        assert forall|t: int| 0 <= t < k implies l2[i][t] == l[i][t] && column(u2, j)[t] == column(u, j)[t] by {
            assert(u2[t] == u[t]);
        }
        lemma_dot_range_local(l2[i], column(u2, j), l[i], column(u, j), 0, k);
        assert(u2[k] == u[k]);
        assert(column(u2, j)[k] == u[k][j]);
        assert(dot_range(l2[i], column(u2, j), 0, k + 1) == sum.spec_plus(l2[i][k].spec_times(u[k][j])));
        assert(a[pi[i] as int][j] == partial_product(l, u, i, j, k));
        if i > k {
            let factor = u[i][k].spec_over(u[k][k]);
            assert(l2[i][k] == factor);
            if j >= k {
                assert(u2[i][j] == u[i][j].spec_minus(factor.spec_times(u[k][j])));
                lemma_cancel(sum, factor.spec_times(u[k][j]), u[i][j]);
            } else {
                assert(u2[i][j] == u[i][j]);
                assert(u[k][j] == spec_zero::<T>());
                lemma_times_zero_one(factor);
                lemma_plus_zero(sum);
            }
        } else if i == k {
            assert(l2[i][k] == spec_one::<T>());
            lemma_times_zero_one(u[k][j]);
        } else {
            assert(l2[i][k] == spec_zero::<T>());
            lemma_times_zero_one(u[k][j]);
            lemma_plus_zero(sum);
        }
    }
    assert forall|i: int, j: int| 0 <= j < k + 1 && j < i < n implies #[trigger] u2[i][j] == spec_zero::<T>() by {
        if i <= k {
            assert(u2[i] == u[i]);
        } else if j < k {
            assert(u2[i][j] == u[i][j]);
        } else {
            lemma_divide_back(u[i][k], u[k][k]);
        }
    }
}

/// Under exact arithmetic the factors agree with the matrix after every
/// step that found a pivot.
pub proof fn lemma_factors_agree<T: Scalar>(a: Seq<Seq<T>>, steps: nat)
    requires
        is_exact::<T>(),
        is_square(a),
        a.len() <= usize::MAX,
        steps <= a.len(),
        lu_factored(a, steps).singular_at is None,
    ensures
        factors_agree(a, lu_factored(a, steps).l, lu_factored(a, steps).u, lu_factored(a, steps).pi, steps as int),
    decreases steps,
{
    let n = a.len() as int;
    let f = lu_factored(a, steps);
    if steps == 0 {
        assert forall|i: int, j: int| 0 <= i < n && 0 <= j < n implies a[f.pi[i] as int][j] == #[trigger] partial_product(
            f.l,
            f.u,
            i,
            j,
            0,
        ) by {
            lemma_plus_zero(a[i][j]);
        }
    } else {
        let k = steps - 1;
        let before = lu_factored(a, k as nat);
        lemma_lu_structure(a, k as nat);
        lemma_factors_agree(a, k as nat);
        assert(!column_negligible(before.u, k));
        lemma_pivot_row_exists(before.u, k);
        let p = pivot_row(before.u, k)->Some_0;
        assert(is_pivot_row(before.u, k, p));
        let l1 = rows_swapped(before.l, p, k);
        let u1 = rows_swapped(before.u, p, k);
        let pi1 = entries_swapped(before.pi, p, k);
        lemma_swap_keeps_agreement(a, before.l, before.u, before.pi, k, p);
        assert(u1[k] == before.u[p]);
        lemma_pivot_not_zero(u1[k][k]);
        assert(has_size(l1, n));
        assert(has_size(u1, n));
        lemma_reduction_keeps_agreement(a, l1, u1, pi1, k);
    }
}

/// The rows of `a` in the order that `pi` gives: row `pi[i]` stands at place `i`.
pub open spec fn rows_permuted<T>(a: Seq<Seq<T>>, pi: Seq<usize>) -> Seq<Seq<T>> {
    Seq::new(pi.len(), |i: int| a[pi[i] as int])
}

/// Under exact arithmetic a factorization that found all its pivots
/// satisfies `P * A = L * U`: the product of the factors is the matrix
/// with its rows in the order of the permutation. And `u` is upper
/// triangular: every entry below its diagonal is zero.
pub proof fn lemma_lu_reconstructs<T: Scalar>(a: Seq<Seq<T>>)
    requires
        is_exact::<T>(),
        is_square(a),
        a.len() <= usize::MAX,
        lu_factored(a, a.len()).singular_at is None,
    ensures
        grid_product(lu_factored(a, a.len()).l, lu_factored(a, a.len()).u, a.len()) == rows_permuted(
            a,
            lu_factored(a, a.len()).pi,
        ),
        forall|i: int, j: int| 0 <= j < i < a.len() ==> #[trigger] lu_factored(a, a.len()).u[i][j] == spec_zero::<T>(),
{
    let n = a.len() as int;
    let f = lu_factored(a, a.len());
    lemma_lu_structure(a, a.len());
    lemma_factors_agree(a, a.len());
    let product = grid_product(f.l, f.u, a.len());
    let permuted = rows_permuted(a, f.pi);
    assert forall|i: int| 0 <= i < n implies #[trigger] product[i] == permuted[i] by {
        assert forall|j: int| 0 <= j < n implies product[i][j] == permuted[i][j] by {
            assert(a[f.pi[i] as int][j] == partial_product(f.l, f.u, i, j, n));
        }
        assert(f.pi[i] < n);
        assert(product[i] =~= permuted[i]);
    }
    assert(product =~= permuted);
}

/// The products of one row with the columns of `u`, each added up over
/// the first `inner` places.
pub open spec fn row_products<T: Scalar>(row: Seq<T>, u: Seq<Seq<T>>, inner: int) -> Seq<T> {
    Seq::new(u.len(), |j: int| dot_range(row, column(u, j), 0, inner))
}

/// The products of the rows of `u` with `x`, each added up over the first
/// `outer` places.
pub open spec fn rows_times<T: Scalar>(u: Seq<Seq<T>>, x: Seq<T>, outer: int) -> Seq<T> {
    Seq::new(u.len(), |m: int| dot_range(u[m], x, 0, outer))
}

/// One more place of the row adds that entry times the matching row of
/// `u * x`.
proof fn lemma_row_products_grow<T: Scalar>(row: Seq<T>, u: Seq<Seq<T>>, x: Seq<T>, inner: int, outer: int)
    requires
        is_exact::<T>(),
        0 <= inner < u.len(),
        0 <= outer <= u.len(),
    ensures
        dot_range(row_products(row, u, inner + 1), x, 0, outer) == dot_range(
            row_products(row, u, inner),
            x,
            0,
            outer,
        ).spec_plus(row[inner].spec_times(rows_times(u, x, outer)[inner])),
    decreases outer,
{
    let wide = row_products(row, u, inner + 1);
    let narrow = row_products(row, u, inner);
    let l = row[inner];
    if outer == 0 {
        lemma_times_zero_one(l);
        lemma_plus_zero(spec_zero::<T>());
    } else {
        let j = outer - 1;
        lemma_row_products_grow(row, u, x, inner, j);
        let a = dot_range(narrow, x, 0, j);
        let b = l.spec_times(rows_times(u, x, j)[inner]);
        let c = narrow[j];
        let e = u[inner][j];
        assert(column(u, j)[inner] == e);
        assert(wide[j] == c.spec_plus(l.spec_times(e)));
        // (c + l * e) * x = c * x + (l * e) * x
        lemma_distribute(x[j], c, l.spec_times(e));
        // (a + b) + (c * x + (l * e) * x) = (a + c * x) + (b + (l * e) * x)
        lemma_shuffle(a, b, c.spec_times(x[j]), l.spec_times(e).spec_times(x[j]));
        // (l * e) * x = l * (e * x)
        lemma_times_regroup(l, e, x[j]);
        // l * r + l * (e * x) = l * (r + e * x)
        lemma_distribute(l, rows_times(u, x, j)[inner], e.spec_times(x[j]));
        assert(rows_times(u, x, outer)[inner] == rows_times(u, x, j)[inner].spec_plus(e.spec_times(x[j])));
    }
}

/// Under exact arithmetic a row of `l * u` times `x` is the row of `l`
/// times `u * x`.
pub proof fn lemma_product_regroups<T: Scalar>(row: Seq<T>, u: Seq<Seq<T>>, x: Seq<T>, inner: int)
    requires
        is_exact::<T>(),
        0 <= inner <= u.len(),
    ensures
        dot_range(row_products(row, u, inner), x, 0, u.len() as int) == dot_range(
            row,
            rows_times(u, x, u.len() as int),
            0,
            inner,
        ),
    decreases inner,
{
    let n = u.len() as int;
    if inner == 0 {
        let none = row_products(row, u, 0);
        assert forall|t: int| 0 <= t < n implies none[t] == spec_zero::<T>() by {}
        lemma_dot_range_zero_tail(none, x, 0, 0, n);
    } else {
        lemma_product_regroups(row, u, x, inner - 1);
        lemma_row_products_grow(row, u, x, inner - 1, n);
    }
}

/// Under exact arithmetic one is not zero as soon as any scalar is not zero.
pub proof fn lemma_one_not_zero<T: Scalar>(witness: T)
    requires
        is_exact::<T>(),
        witness != spec_zero::<T>(),
    ensures
        spec_one::<T>() != spec_zero::<T>(),
{
    reveal(is_exact);
    if spec_one::<T>() == spec_zero::<T>() {
        assert(witness.spec_times(spec_one::<T>()) == witness);
        assert(witness.spec_times(spec_zero::<T>()) == spec_zero::<T>());
    }
}

/// Under exact arithmetic, solving through the factorization solves the
/// system: where it hands back `x`, `a * x = b`.
pub proof fn lemma_lu_solution_solves<T: Scalar>(a: Seq<Seq<T>>, b: Seq<Seq<T>>)
    requires
        is_exact::<T>(),
        is_square(a),
        a.len() <= usize::MAX,
        b.len() == a.len(),
        lu_solution(a, b) is Ok,
    ensures
        solves(a, lu_solution(a, b)->Ok_0, column(b, 0)),
{
    let n = a.len() as int;
    let f = lu_factored(a, a.len());
    let pb = permuted(b, f.pi);
    let y = forward_solved(f.l, pb, n);
    let x = back_solved(f.u, y, 0);
    assert(lu_solution(a, b)->Ok_0 == x);
    if n > 0 {
        lemma_lu_structure(a, a.len());
        lemma_lu_reconstructs(a);
        lemma_lu_follows_elimination(a, a.len());
        assert(has_width(a, n));
        lemma_elimination_reduces(a, a.len(), n);
        assert(is_exactly_upper(f.u));
        lemma_one_not_zero(f.u[0][0]);
        assert(is_exactly_lower(f.l)) by {
            assert forall|i: int, j: int| 0 <= i < j < n implies #[trigger] f.l[i][j] == spec_zero::<T>() by {}
            assert forall|i: int| 0 <= i < n implies (#[trigger] f.l[i])[i] != spec_zero::<T>() by {
                assert(f.l[i][i] == spec_one::<T>());
            }
        }
        lemma_forward_solves(f.l, pb);
        lemma_forward_solved_len(f.l, pb, n);
        lemma_back_solves(f.u, y);
        let ux = rows_times(f.u, x, n);
        assert(ux =~= y) by {
            assert forall|m: int| 0 <= m < n implies ux[m] == y[m] by {
                assert(dot_range(f.u[m], x, 0, n) == y[m]);
            }
        }
        let product = grid_product(f.l, f.u, a.len());
        assert forall|r: int| 0 <= r < n implies dot_range(#[trigger] a[r], x, 0, n) == column(b, 0)[r] by {
            assert(occurs_in(f.pi, r));
            let i = choose|i: int| 0 <= i < f.pi.len() && #[trigger] f.pi[i] == r;
            assert(product[i] == a[r]);
            assert(product[i] =~= row_products(f.l[i], f.u, n));
            lemma_product_regroups(f.l[i], f.u, x, n);
            assert(dot_range(f.l[i], y, 0, n) == pb[i]);
            assert(pb[i] == b[r][0]);
        }
    }
}

/// Under exact arithmetic a square matrix with two identical rows is
/// reported singular: were all pivots found, the system whose right-hand
/// side is one in the first of the two rows and zero in the other would
/// have a solution.
pub proof fn lemma_identical_rows_are_singular<T: Scalar>(a: Seq<Seq<T>>, first: int, second: int)
    requires
        is_exact::<T>(),
        is_square(a),
        a.len() <= usize::MAX,
        0 <= first < second < a.len(),
        a[first] == a[second],
    ensures
        lu_factored(a, a.len()).singular_at is Some,
{
    let n = a.len() as int;
    let f = lu_factored(a, a.len());
    if f.singular_at is None {
        let b = Seq::new(
            a.len(),
            |i: int|
                seq![if i == first {
                    spec_one::<T>()
                } else {
                    spec_zero::<T>()
                }],
        );
        lemma_lu_structure(a, a.len());
        lemma_lu_follows_elimination(a, a.len());
        assert(has_width(a, n));
        lemma_elimination_reduces(a, a.len(), n);
        lemma_one_not_zero(f.u[0][0]);
        assert(!exceeds_epsilon(spec_zero::<T>())) by {
            reveal(is_exact);
        }
        assert(is_lower_triangular(f.l));
        assert(is_upper_triangular(f.u));
        assert(lu_solution(a, b) is Ok);
        lemma_lu_solution_solves(a, b);
        let x = lu_solution(a, b)->Ok_0;
        assert(dot_range(a[first], x, 0, n) == column(b, 0)[first]);
        assert(dot_range(a[second], x, 0, n) == column(b, 0)[second]);
        assert(b[first][0] == spec_one::<T>());
        assert(b[second][0] == spec_zero::<T>());
        assert(false);
    }
}

} // verus!
