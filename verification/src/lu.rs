//! LU decomposition with partial pivoting.

use vstd::prelude::*;
use crate::elimination::column_is_zero;
use crate::elimination::column_negligible;
use crate::elimination::eliminated;
use crate::elimination::has_width;
use crate::elimination::lemma_zero_column_is_singular;
use crate::elimination::zero_is_absorbing;
use crate::elimination::find_pivot;
use crate::elimination::is_pivot_row;
use crate::elimination::lemma_pivot_row_exists;
use crate::elimination::pivot_row;
use crate::elimination::reduce_row;
use crate::elimination::rows_reduced_upto;
use crate::error::KernelError;
use crate::matrix::Matrix;
use crate::matrix::Vector;
use crate::matrix::grid_identity;
use crate::matrix::rows_swapped;
use crate::scalar::Scalar;
use crate::scalar::one;
use crate::scalar::spec_one;
use crate::scalar::spec_zero;
use crate::scalar::zero;
use crate::triangular::back_solved;
use crate::triangular::back_substitution;
use crate::triangular::forward_solved;
use crate::triangular::forward_substitution;
use crate::triangular::is_lower_triangular;
use crate::triangular::is_upper_triangular;

verus! {

/// A factorization `P * A = L * U` with partial pivoting: `l` is unit
/// lower triangular, `u` is what elimination left of `A`, and `pi[i]` is
/// the row of `A` that stands at row `i` of `P * A`.
#[derive(Debug)]
pub struct LUDecomposition<T, const N: usize> {
    pub l: Matrix<T, N, N>,
    pub u: Matrix<T, N, N>,
    pub pi: Vec<usize>,
}

/// How far the factorization came: both factors and the permutation as
/// they stand, and the column that had no pivot, if one was met.
pub ghost struct Factors<T> {
    pub l: Seq<Seq<T>>,
    pub u: Seq<Seq<T>>,
    pub pi: Seq<usize>,
    pub singular_at: Option<int>,
}

/// The sequence `pi` with the entries at `i` and `k` exchanged.
pub open spec fn entries_swapped(pi: Seq<usize>, i: int, k: int) -> Seq<usize> {
    pi.update(i, pi[k]).update(k, pi[i])
}

/// The grid `l` with column `k` set for good: one on the diagonal, zero
/// above it, and below it the factors by which the rows of `u` are reduced.
pub open spec fn with_factor_column<T: Scalar>(l: Seq<Seq<T>>, u: Seq<Seq<T>>, k: int) -> Seq<Seq<T>> {
    Seq::new(
        l.len(),
        |i: int|
            Seq::new(
                l[i].len(),
                |j: int|
                    if j != k {
                        l[i][j]
                    } else if i > k {
                        u[i][k].spec_over(u[k][k])
                    } else if i == k {
                        spec_one::<T>()
                    } else {
                        spec_zero::<T>()
                    },
            ),
    )
}

/// One step of the factorization on column `k`: the pivot row is brought
/// to row `k` in both factors and in the permutation, the rows of `u`
/// below are reduced, and column `k` of `l` is set.
pub open spec fn lu_step<T: Scalar>(f: Factors<T>, k: int) -> Factors<T> {
    match pivot_row(f.u, k) {
        None => Factors { l: f.l, u: f.u, pi: f.pi, singular_at: Some(k) },
        Some(p) => {
            let u = rows_swapped(f.u, p, k);
            let l = rows_swapped(f.l, p, k);
            Factors {
                l: with_factor_column(l, u, k),
                u: rows_reduced_upto(u, k, f.u.len() as int),
                pi: entries_swapped(f.pi, p, k),
                singular_at: None,
            }
        },
    }
}

/// The factorization of `a` carried through the columns `0` to
/// `steps - 1`, stopping at the first column without a pivot.
pub open spec fn lu_factored<T: Scalar>(a: Seq<Seq<T>>, steps: nat) -> Factors<T>
    decreases steps,
{
    if steps == 0 {
        Factors {
            l: grid_identity::<T>(a.len()),
            u: a,
            pi: Seq::new(a.len(), |i: int| i as usize),
            singular_at: None,
        }
    } else {
        let before = lu_factored(a, (steps - 1) as nat);
        if before.singular_at is Some {
            before
        } else {
            lu_step(before, steps - 1)
        }
    }
}

/// Every row of the grid is as long as the grid has rows.
pub open spec fn is_square<T>(a: Seq<Seq<T>>) -> bool {
    forall|i: int| 0 <= i < a.len() ==> (#[trigger] a[i]).len() == a.len()
}

/// The index `v` stands at some place of `pi`.
pub open spec fn occurs_in(pi: Seq<usize>, v: int) -> bool {
    exists|i: int| 0 <= i < pi.len() && #[trigger] pi[i] == v
}

/// `pi` is a bijection on the indices below `n`: every entry is below `n`,
/// no index occurs twice, and none is missing.
pub open spec fn is_bijection(pi: Seq<usize>, n: nat) -> bool {
    &&& pi.len() == n
    &&& forall|i: int| 0 <= i < n ==> (#[trigger] pi[i]) < n
    &&& forall|i: int, j: int| 0 <= i < j < n ==> (#[trigger] pi[i]) != (#[trigger] pi[j])
    &&& forall|v: int| 0 <= v < n ==> #[trigger] occurs_in(pi, v)
}

/// The first `upto` columns of `l` are those of a unit lower triangular
/// matrix: one on the diagonal and zero above it.
pub open spec fn is_unit_lower_upto<T: Scalar>(l: Seq<Seq<T>>, upto: int) -> bool {
    forall|i: int, j: int|
        0 <= i <= j < upto && j < l.len() ==> (#[trigger] l[i][j]) == (if i == j {
            spec_one::<T>()
        } else {
            spec_zero::<T>()
        })
}

/// Exchanging two entries of a bijection gives a bijection.
pub proof fn lemma_swap_keeps_bijection(pi: Seq<usize>, n: nat, p: int, k: int)
    requires
        is_bijection(pi, n),
        0 <= p < n,
        0 <= k < n,
    ensures
        is_bijection(entries_swapped(pi, p, k), n),
{
    let s = entries_swapped(pi, p, k);
    assert forall|v: int| 0 <= v < n implies #[trigger] occurs_in(s, v) by {
        assert(occurs_in(pi, v));
        let i = choose|i: int| 0 <= i < pi.len() && #[trigger] pi[i] == v;
        let moved = if i == p {
            k
        } else if i == k {
            p
        } else {
            i
        };
        assert(s[moved] == v);
    }
    assert forall|i: int, j: int| 0 <= i < j < n implies (#[trigger] s[i]) != (#[trigger] s[j]) by {
        let a = if i == p {
            k
        } else if i == k {
            p
        } else {
            i
        };
        let b = if j == p {
            k
        } else if j == k {
            p
        } else {
            j
        };
        assert(s[i] == pi[a]);
        assert(s[j] == pi[b]);
        if a < b {
            assert(pi[a] != pi[b]);
        } else {
            assert(pi[b] != pi[a]);
        }
    }
    assert forall|i: int| 0 <= i < n implies (#[trigger] s[i]) < n by {
        let a = if i == p {
            k
        } else if i == k {
            p
        } else {
            i
        };
        assert(s[i] == pi[a]);
    }
}

/// Whatever the matrix and however the pivots fall, the factorization
/// keeps its shapes, its permutation is a bijection, and the columns of
/// `l` that are set are those of a unit lower triangular matrix.
pub proof fn lemma_lu_structure<T: Scalar>(a: Seq<Seq<T>>, steps: nat)
    requires
        is_square(a),
        a.len() <= usize::MAX,
        steps <= a.len(),
    ensures
        lu_factored(a, steps).l.len() == a.len(),
        lu_factored(a, steps).u.len() == a.len(),
        is_square(lu_factored(a, steps).l),
        is_square(lu_factored(a, steps).u),
        is_bijection(lu_factored(a, steps).pi, a.len()),
        lu_factored(a, steps).singular_at is None ==> is_unit_lower_upto(lu_factored(a, steps).l, steps as int),
        lu_factored(a, steps).singular_at is Some ==> 0 <= lu_factored(a, steps).singular_at->Some_0 < steps,
    decreases steps,
{
    let n = a.len();
    if steps == 0 {
        let pi = Seq::new(n, |i: int| i as usize);
        assert forall|v: int| 0 <= v < n implies #[trigger] occurs_in(pi, v) by {
            assert(pi[v] == v);
        }
    } else {
        let k = steps - 1;
        let before = lu_factored(a, k as nat);
        lemma_lu_structure(a, k as nat);
        if before.singular_at is None {
            if !column_negligible(before.u, k) {
                lemma_pivot_row_exists(before.u, k);
                let p = pivot_row(before.u, k)->Some_0;
                assert(is_pivot_row(before.u, k, p));
                lemma_swap_keeps_bijection(before.pi, n, p, k);
                let l1 = rows_swapped(before.l, p, k);
                let u1 = rows_swapped(before.u, p, k);
                let after = lu_factored(a, steps);
                assert(after.l == with_factor_column(l1, u1, k));
                assert(after.u == rows_reduced_upto(u1, k, before.u.len() as int));
                assert(is_square(after.l));
                assert(is_square(after.u)) by {
                    assert forall|i: int| 0 <= i < n implies (#[trigger] after.u[i]).len() == n by {
                        assert(u1[i].len() == n);
                    }
                }
                assert(is_unit_lower_upto(after.l, steps as int)) by {
                    assert forall|i: int, j: int| 0 <= i <= j < steps && j < after.l.len() implies (
                    #[trigger] after.l[i][j]) == (if i == j {
                        spec_one::<T>()
                    } else {
                        spec_zero::<T>()
                    }) by {
                        if j != k {
                            assert(l1[i] == before.l[i]);
                            assert(after.l[i][j] == before.l[i][j]);
                        }
                    }
                }
            }
        }
    }
}

/// Once a column without a pivot is met, further steps change nothing.
pub proof fn lemma_lu_stops<T: Scalar>(a: Seq<Seq<T>>, reached: nat, steps: nat)
    requires
        reached <= steps,
        lu_factored(a, reached).singular_at is Some,
    ensures
        lu_factored(a, steps) == lu_factored(a, reached),
    decreases steps,
{
    if reached < steps {
        lemma_lu_stops(a, reached, (steps - 1) as nat);
    }
}

/// The factor `u` goes the way of plain elimination on `a`, and the
/// factorization stops where elimination stops.
pub proof fn lemma_lu_follows_elimination<T: Scalar>(a: Seq<Seq<T>>, steps: nat)
    ensures
        lu_factored(a, steps).u == eliminated(a, steps).grid,
        lu_factored(a, steps).singular_at == eliminated(a, steps).singular_at,
    decreases steps,
{
    if steps > 0 {
        lemma_lu_follows_elimination(a, (steps - 1) as nat);
    }
}

/// A square matrix with a column of zeros is reported singular, at that
/// column or before it, whenever the scalar zero behaves as a zero.
pub proof fn lemma_lu_zero_column_is_singular<T: Scalar>(a: Seq<Seq<T>>, c: int)
    requires
        zero_is_absorbing::<T>(),
        is_square(a),
        0 <= c < a.len(),
        column_is_zero(a, c),
    ensures
        lu_factored(a, a.len()).singular_at is Some,
        0 <= lu_factored(a, a.len()).singular_at->Some_0 <= c,
{
    assert(has_width(a, a.len() as int));
    lemma_zero_column_is_singular(a, c, a.len() as int, a.len());
    lemma_lu_follows_elimination(a, a.len());
}

/// LU decomposition with partial pivoting. Every column is visited, the
/// last one too; at the first column without a pivot the matrix is
/// reported singular.
pub fn lu_decomposition<T: Scalar, const N: usize>(a: &Matrix<T, N, N>) -> (r: Result<LUDecomposition<T, N>, KernelError>)
    ensures
        match lu_factored(a@, N as nat).singular_at {
            Some(c) => r is Err && r->Err_0 == (KernelError::SingularMatrix { column: c as usize }) && 0 <= c < N,
            None => {
                &&& r is Ok
                &&& r->Ok_0.l@ == lu_factored(a@, N as nat).l
                &&& r->Ok_0.u@ == lu_factored(a@, N as nat).u
                &&& r->Ok_0.pi@ == lu_factored(a@, N as nat).pi
                &&& is_bijection(r->Ok_0.pi@, N as nat)
                &&& is_unit_lower_upto(r->Ok_0.l@, N as int)
            },
        },
{
    let mut pi: Vec<usize> = Vec::new();
    let mut t: usize = 0;
    while t < N
        invariant
            t <= N,
            pi@ == Seq::new(t as nat, |i: int| i as usize),
        decreases N - t,
    {
        pi.push(t);
        t += 1;
        assert(pi@ =~= Seq::new(t as nat, |i: int| i as usize));
    }
    let mut l = Matrix::<T, N, N>::identity();
    let mut u = a.clone();
    let mut k: usize = 0;
    proof {
        assert(is_square(a@));
    }
    while k < N
        invariant
            k <= N,
            is_square(a@),
            a@.len() == N,
            lu_factored(a@, k as nat) == (Factors { l: l@, u: u@, pi: pi@, singular_at: None }),
        decreases N - k,
    {
        proof {
            lemma_lu_structure(a@, k as nat);
        }
        match find_pivot(&u, k) {
            None => {
                proof {
                    assert(lu_factored(a@, (k + 1) as nat).singular_at == Some(k as int));
                    lemma_lu_stops(a@, (k + 1) as nat, N as nat);
                }
                return Err(KernelError::SingularMatrix { column: k });
            },
            Some(p) => {
                let ghost l0 = l@;
                let ghost u0 = u@;
                let ghost pi0 = pi@;
                if p != k {
                    u.swap_rows(p, k);
                    l.swap_rows(p, k);
                    let moved = pi[p];
                    pi[p] = pi[k];
                    pi[k] = moved;
                }
                let ghost l1 = l@;
                let ghost u1 = u@;
                proof {
                    assert(u1 =~~= rows_swapped(u0, p as int, k as int));
                    assert(l1 =~~= rows_swapped(l0, p as int, k as int));
                    assert(pi@ =~= entries_swapped(pi0, p as int, k as int));
                }
                let mut i: usize = k + 1;
                assert(u@ =~~= rows_reduced_upto(u1, k as int, i as int));
                while i < N
                    invariant
                        k < i <= N,
                        u1.len() == N,
                        u@ == rows_reduced_upto(u1, k as int, i as int),
                        forall|r: int, c: int|
                            0 <= r < N && 0 <= c < N ==> l@[r][c] == (if c == k && k < r < i {
                                u1[r][k as int].spec_over(u1[k as int][k as int])
                            } else {
                                l1[r][c]
                            }),
                    decreases N - i,
                {
                    let factor = reduce_row(&mut u, i, k);
                    l.set(i, k, factor);
                    i += 1;
                    assert(u@ =~~= rows_reduced_upto(u1, k as int, i as int));
                }
                l.set(k, k, one::<T>());
                let mut r: usize = 0;
                while r < k
                    invariant
                        r <= k < N,
                        forall|row: int, c: int|
                            0 <= row < N && 0 <= c < N ==> l@[row][c] == (if c != k {
                                l1[row][c]
                            } else if row > k {
                                u1[row][k as int].spec_over(u1[k as int][k as int])
                            } else if row == k {
                                spec_one::<T>()
                            } else if row < r {
                                spec_zero::<T>()
                            } else {
                                l1[row][c]
                            }),
                    decreases k - r,
                {
                    l.set(r, k, zero::<T>());
                    r += 1;
                }
                proof {
                    assert(l@ =~~= with_factor_column(l1, u1, k as int));
                }
            },
        }
        k += 1;
    }
    proof {
        lemma_lu_structure(a@, N as nat);
    }
    Ok(LUDecomposition { l, u, pi })
}

/// The entries of the one-column grid `b` in the order that `pi` gives:
/// at place `i` stands entry `pi[i]`.
pub open spec fn permuted<T>(b: Seq<Seq<T>>, pi: Seq<usize>) -> Seq<T> {
    Seq::new(pi.len(), |i: int| b[pi[i] as int][0])
}

/// What solving `a * x = b` through the factorization gives: `l * y = P * b`
/// is solved forward and `u * x = y` backward.
pub open spec fn lu_solution<T: Scalar>(a: Seq<Seq<T>>, b: Seq<Seq<T>>) -> Result<Seq<T>, KernelError> {
    let f = lu_factored(a, a.len());
    match f.singular_at {
        Some(c) => Err(KernelError::SingularMatrix { column: c as usize }),
        None => {
            if !is_lower_triangular(f.l) || !is_upper_triangular(f.u) {
                Err(KernelError::PreconditionViolation)
            } else {
                Ok(back_solved(f.u, forward_solved(f.l, permuted(b, f.pi), a.len() as int), 0))
            }
        },
    }
}

/// Solves `a * x = b` by LU decomposition with partial pivoting, forward
/// substitution and back substitution.
pub fn solve_by_lu_decomposition<T: Scalar, const N: usize>(a: &Matrix<T, N, N>, b: &Vector<T, N>) -> (r: Result<
    Vector<T, N>,
    KernelError,
>)
    ensures
        match lu_solution(a@, b@) {
            Ok(x) => r is Ok && r->Ok_0.entries() == x,
            Err(e) => r is Err && r->Err_0 == e,
        },
{
    match lu_decomposition(a) {
        Err(e) => Err(e),
        Ok(d) => {
            let pb = Vector::<T, N>::from_fn(|i: usize, j: usize| -> (v: T)
                requires
                    i < N,
                ensures
                    v == b@[d.pi@[i as int] as int][0],
                { b.get(d.pi[i], 0) });
            proof {
                assert(pb.entries() =~= permuted(b@, d.pi@)) by {
                    assert forall|i: int| 0 <= i < N implies pb@[i][0] == b@[d.pi@[i] as int][0] by {
                        let _ = pb@[i as usize as int][0usize as int];
                    }
                }
            }
            match forward_substitution(&d.l, &pb) {
                Err(e) => Err(e),
                Ok(y) => back_substitution(&d.u, &y),
            }
        },
    }
}

} // verus!
