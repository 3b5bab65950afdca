//! What the triangular solvers compute where the arithmetic is exact.

use vstd::prelude::*;
use crate::elimination::zero_is_absorbing;
use crate::matrix::column;
use crate::matrix::dot_range;
use crate::matrix::grid_product;
use crate::matrix::lemma_dot_range_local;
use crate::scalar::Scalar;
use crate::scalar::exceeds_epsilon;
use crate::scalar::spec_one;
use crate::scalar::spec_zero;
use crate::triangular::back_solved;
use crate::triangular::forward_solved;
use crate::triangular::lemma_back_solved_equations;
use crate::triangular::lemma_back_solved_len;
use crate::triangular::lemma_forward_solved_equations;
use crate::triangular::lemma_forward_solved_len;

verus! {

/// The arithmetic of `T` is exact: it obeys these identities, all of which
/// hold in a field, and its zero does not exceed the zero threshold.
///
/// Arithmetic that rounds does not obey them. The laws of this module say
/// what the kernels compute where it does: they show that the kernels are
/// the right algorithms, apart from rounding.
#[verifier::opaque]
pub open spec fn is_exact<T: Scalar>() -> bool {
    &&& forall|a: T, b: T| #[trigger] a.spec_plus(b) == b.spec_plus(a)
    &&& forall|a: T, b: T, c: T| #[trigger] a.spec_plus(b).spec_plus(c) == a.spec_plus(b.spec_plus(c))
    &&& forall|a: T| #[trigger] a.spec_plus(spec_zero::<T>()) == a
    &&& forall|a: T, b: T| #[trigger] a.spec_minus(b).spec_plus(b) == a
    &&& forall|a: T, b: T| #[trigger] a.spec_plus(b).spec_minus(b) == a
    &&& forall|a: T, b: T| #[trigger] a.spec_times(b) == b.spec_times(a)
    &&& forall|a: T| #[trigger] a.spec_times(spec_one::<T>()) == a
    &&& forall|a: T| #[trigger] a.spec_times(spec_zero::<T>()) == spec_zero::<T>()
    &&& forall|a: T, b: T, c: T| #[trigger] a.spec_times(b).spec_times(c) == a.spec_times(b.spec_times(c))
    &&& forall|a: T, b: T, c: T| #[trigger] a.spec_times(b.spec_plus(c)) == a.spec_times(b).spec_plus(a.spec_times(c))
    &&& forall|a: T, b: T| b != spec_zero::<T>() ==> #[trigger] a.spec_over(b).spec_times(b) == a
    &&& forall|a: T, b: T| b != spec_zero::<T>() ==> #[trigger] a.spec_times(b).spec_over(b) == a
    &&& !exceeds_epsilon(spec_zero::<T>())
}

/// Zero added on either side changes nothing.
pub proof fn lemma_plus_zero<T: Scalar>(a: T)
    requires
        is_exact::<T>(),
    ensures
        a.spec_plus(spec_zero::<T>()) == a,
        spec_zero::<T>().spec_plus(a) == a,
{
    reveal(is_exact);
    assert(a.spec_plus(spec_zero::<T>()) == spec_zero::<T>().spec_plus(a));
}

/// A product with zero is zero, and a product with one is the other factor.
pub proof fn lemma_times_zero_one<T: Scalar>(a: T)
    requires
        is_exact::<T>(),
    ensures
        a.spec_times(spec_zero::<T>()) == spec_zero::<T>(),
        spec_zero::<T>().spec_times(a) == spec_zero::<T>(),
        spec_one::<T>().spec_times(a) == a,
{
    reveal(is_exact);
    assert(a.spec_times(spec_zero::<T>()) == spec_zero::<T>().spec_times(a));
    assert(a.spec_times(spec_one::<T>()) == spec_one::<T>().spec_times(a));
}

/// Taking a summand away again leaves the other summand.
pub proof fn lemma_plus_minus<T: Scalar>(a: T, b: T)
    requires
        is_exact::<T>(),
    ensures
        a.spec_plus(b).spec_minus(b) == a,
        b.spec_plus(a).spec_minus(b) == a,
        a.spec_minus(a) == spec_zero::<T>(),
{
    reveal(is_exact);
    assert(a.spec_plus(b) == b.spec_plus(a));
    assert(spec_zero::<T>().spec_plus(a).spec_minus(a) == spec_zero::<T>());
    assert(spec_zero::<T>().spec_plus(a) == a.spec_plus(spec_zero::<T>()));
}

/// Sums may be regrouped.
pub proof fn lemma_plus_regroup<T: Scalar>(a: T, b: T, c: T)
    requires
        is_exact::<T>(),
    ensures
        a.spec_plus(b).spec_plus(c) == a.spec_plus(b.spec_plus(c)),
{
    reveal(is_exact);
}

/// Products may be regrouped.
pub proof fn lemma_times_regroup<T: Scalar>(a: T, b: T, c: T)
    requires
        is_exact::<T>(),
    ensures
        a.spec_times(b).spec_times(c) == a.spec_times(b.spec_times(c)),
{
    reveal(is_exact);
}

/// A product with a sum is the sum of the products, on either side.
pub proof fn lemma_distribute<T: Scalar>(a: T, b: T, c: T)
    requires
        is_exact::<T>(),
    ensures
        a.spec_times(b.spec_plus(c)) == a.spec_times(b).spec_plus(a.spec_times(c)),
        b.spec_plus(c).spec_times(a) == b.spec_times(a).spec_plus(c.spec_times(a)),
{
    reveal(is_exact);
    assert(b.spec_plus(c).spec_times(a) == a.spec_times(b.spec_plus(c)));
    assert(b.spec_times(a) == a.spec_times(b));
    assert(c.spec_times(a) == a.spec_times(c));
}

/// Taking away and adding the same leaves a scalar as it was.
pub proof fn lemma_minus_plus<T: Scalar>(a: T, b: T)
    requires
        is_exact::<T>(),
    ensures
        a.spec_minus(b).spec_plus(b) == a,
        b.spec_plus(a.spec_minus(b)) == a,
{
    reveal(is_exact);
    assert(b.spec_plus(a.spec_minus(b)) == a.spec_minus(b).spec_plus(b));
}

/// The middle summands of a sum of two sums may change places:
/// `(a + b) + (c + d) = (a + c) + (b + d)`.
pub proof fn lemma_shuffle<T: Scalar>(a: T, b: T, c: T, d: T)
    requires
        is_exact::<T>(),
    ensures
        a.spec_plus(b).spec_plus(c.spec_plus(d)) == a.spec_plus(c).spec_plus(b.spec_plus(d)),
{
    lemma_plus_regroup(a, b, c.spec_plus(d));
    lemma_plus_regroup(b, c, d);
    assert(b.spec_plus(c) == c.spec_plus(b)) by {
        reveal(is_exact);
    }
    lemma_plus_regroup(c, b, d);
    lemma_plus_regroup(a, c, b.spec_plus(d));
}

/// What is added and what is taken away cancel: `(s + t) + (x - t) = s + x`.
pub proof fn lemma_cancel<T: Scalar>(s: T, t: T, x: T)
    requires
        is_exact::<T>(),
    ensures
        s.spec_plus(t).spec_plus(x.spec_minus(t)) == s.spec_plus(x),
{
    reveal(is_exact);
    let d = x.spec_minus(t);
    assert(s.spec_plus(t).spec_plus(d) == s.spec_plus(t.spec_plus(d)));
    assert(t.spec_plus(d) == d.spec_plus(t));
    assert(d.spec_plus(t) == x);
}

/// Division by a scalar other than zero undoes multiplication by it.
pub proof fn lemma_divide_back<T: Scalar>(a: T, b: T)
    requires
        is_exact::<T>(),
        b != spec_zero::<T>(),
    ensures
        a.spec_over(b).spec_times(b) == a,
        b.spec_times(a).spec_over(b) == a,
        a.spec_minus(a.spec_over(b).spec_times(b)) == spec_zero::<T>(),
{
    reveal(is_exact);
    assert(b.spec_times(a) == a.spec_times(b));
    lemma_plus_minus(a, a);
}

/// A scalar above the zero threshold is not zero.
pub proof fn lemma_pivot_not_zero<T: Scalar>(a: T)
    requires
        is_exact::<T>(),
        exceeds_epsilon(a),
    ensures
        a != spec_zero::<T>(),
{
    reveal(is_exact);
}

/// Under exact arithmetic the zero behaves as a zero under row reduction.
pub proof fn lemma_exact_zero_is_absorbing<T: Scalar>()
    requires
        is_exact::<T>(),
    ensures
        zero_is_absorbing::<T>(),
{
    assert(!exceeds_epsilon(spec_zero::<T>())) by {
        reveal(is_exact);
    }
    assert forall|f: T| spec_zero::<T>().spec_minus(#[trigger] f.spec_times(spec_zero::<T>())) == spec_zero::<T>() by {
        lemma_times_zero_one(f);
        lemma_plus_minus(spec_zero::<T>(), spec_zero::<T>());
    }
}

/// Products with zero add nothing to a sum of products.
pub proof fn lemma_dot_range_zero_tail<T: Scalar>(a: Seq<T>, b: Seq<T>, lo: int, mid: int, hi: int)
    requires
        is_exact::<T>(),
        lo <= mid <= hi,
        forall|t: int| mid <= t < hi ==> a[t] == spec_zero::<T>(),
    ensures
        dot_range(a, b, lo, hi) == dot_range(a, b, lo, mid),
    decreases hi - mid,
{
    if mid < hi {
        lemma_dot_range_zero_tail(a, b, lo, mid, hi - 1);
        lemma_times_zero_one(b[hi - 1]);
        lemma_plus_zero(dot_range(a, b, lo, hi - 1));
    }
}

/// A sum of products that starts with products with zero is the sum of the rest.
pub proof fn lemma_dot_range_zero_head<T: Scalar>(a: Seq<T>, b: Seq<T>, lo: int, mid: int, hi: int)
    requires
        is_exact::<T>(),
        lo <= mid <= hi,
        forall|t: int| lo <= t < mid ==> a[t] == spec_zero::<T>(),
    ensures
        dot_range(a, b, lo, hi) == dot_range(a, b, mid, hi),
    decreases hi - mid,
{
    if mid < hi {
        lemma_dot_range_zero_head(a, b, lo, mid, hi - 1);
    } else {
        lemma_dot_range_zero_tail(a, b, lo, lo, hi);
    }
}

/// A sum of products is its first product plus the sum of the others.
pub proof fn lemma_dot_range_first<T: Scalar>(a: Seq<T>, b: Seq<T>, lo: int, hi: int)
    requires
        is_exact::<T>(),
        lo < hi,
    ensures
        dot_range(a, b, lo, hi) == a[lo].spec_times(b[lo]).spec_plus(dot_range(a, b, lo + 1, hi)),
    decreases hi - lo,
{
    let first = a[lo].spec_times(b[lo]);
    if hi == lo + 1 {
        assert(dot_range(a, b, lo, lo) == spec_zero::<T>());
        assert(dot_range(a, b, lo + 1, hi) == spec_zero::<T>());
        lemma_plus_zero(first);
    } else {
        lemma_dot_range_first(a, b, lo, hi - 1);
        lemma_plus_regroup(first, dot_range(a, b, lo + 1, hi - 1), a[hi - 1].spec_times(b[hi - 1]));
    }
}

/// Every entry above the diagonal is zero, and no entry on it.
pub open spec fn is_exactly_lower<T: Scalar>(l: Seq<Seq<T>>) -> bool {
    &&& forall|i: int, j: int| 0 <= i < j < l.len() ==> #[trigger] l[i][j] == spec_zero::<T>()
    &&& forall|i: int| 0 <= i < l.len() ==> (#[trigger] l[i])[i] != spec_zero::<T>()
}

/// Every entry below the diagonal is zero, and no entry on it.
pub open spec fn is_exactly_upper<T: Scalar>(u: Seq<Seq<T>>) -> bool {
    &&& forall|i: int, j: int| 0 <= j < i < u.len() ==> #[trigger] u[i][j] == spec_zero::<T>()
    &&& forall|i: int| 0 <= i < u.len() ==> (#[trigger] u[i])[i] != spec_zero::<T>()
}

/// The sequence `y` up to `upto`, and zero from there on.
pub open spec fn known_upto<T: Scalar>(y: Seq<T>, upto: int) -> Seq<T> {
    Seq::new(
        y.len(),
        |t: int|
            if t < upto {
                y[t]
            } else {
                spec_zero::<T>()
            },
    )
}

/// Zero up to `from`, and the sequence `x` from there on.
pub open spec fn known_from<T: Scalar>(x: Seq<T>, from: int) -> Seq<T> {
    Seq::new(
        x.len(),
        |t: int|
            if t >= from {
                x[t]
            } else {
                spec_zero::<T>()
            },
    )
}

/// Under exact arithmetic, forward substitution on the first `upto`
/// rows of `l * y` finds the first `upto` entries of `y`.
pub proof fn lemma_forward_finds_prefix<T: Scalar>(l: Seq<Seq<T>>, y: Seq<Seq<T>>, upto: int)
    requires
        is_exact::<T>(),
        is_exactly_lower(l),
        y.len() == l.len(),
        0 <= upto <= l.len(),
    ensures
        forward_solved(l, column(grid_product(l, y, 1), 0), upto) == known_upto(column(y, 0), upto),
    decreases upto,
{
    let n = l.len() as int;
    let b = column(grid_product(l, y, 1), 0);
    let v = column(y, 0);
    if upto <= 0 {
        assert(forward_solved(l, b, upto) =~= known_upto(v, upto));
    } else {
        let i = upto - 1;
        lemma_forward_finds_prefix(l, y, i);
        let before = forward_solved(l, b, i);
        let sum = dot_range(l[i], before, 0, i);
        let d = l[i][i];
        assert(b[i] == dot_range(l[i], v, 0, n));
        lemma_dot_range_zero_tail(l[i], v, 0, i + 1, n);
        lemma_dot_range_local(l[i], before, l[i], v, 0, i);
        assert(dot_range(l[i], v, 0, i + 1) == sum.spec_plus(d.spec_times(v[i])));
        lemma_plus_minus(d.spec_times(v[i]), sum);
        lemma_divide_back(v[i], d);
        assert(b[i].spec_minus(sum).spec_over(d) == v[i]);
        assert(forward_solved(l, b, upto) =~= known_upto(v, upto));
    }
}

/// Under exact arithmetic, back substitution on the rows of `u * x` from
/// `from` on finds the entries of `x` from `from` on.
pub proof fn lemma_back_finds_suffix<T: Scalar>(u: Seq<Seq<T>>, x: Seq<Seq<T>>, from: int)
    requires
        is_exact::<T>(),
        is_exactly_upper(u),
        x.len() == u.len(),
        0 <= from <= u.len(),
    ensures
        back_solved(u, column(grid_product(u, x, 1), 0), from) == known_from(column(x, 0), from),
    decreases u.len() - from,
{
    let n = u.len() as int;
    let b = column(grid_product(u, x, 1), 0);
    let v = column(x, 0);
    if from >= n {
        assert(back_solved(u, b, from) =~= known_from(v, from));
    } else {
        let i = from;
        lemma_back_finds_suffix(u, x, i + 1);
        let after = back_solved(u, b, i + 1);
        let sum = dot_range(u[i], after, i + 1, n);
        let d = u[i][i];
        assert(b[i] == dot_range(u[i], v, 0, n));
        lemma_dot_range_zero_head(u[i], v, 0, i, n);
        lemma_dot_range_first(u[i], v, i, n);
        lemma_dot_range_local(u[i], after, u[i], v, i + 1, n);
        assert(b[i] == d.spec_times(v[i]).spec_plus(sum));
        lemma_plus_minus(d.spec_times(v[i]), sum);
        lemma_divide_back(v[i], d);
        assert(b[i].spec_minus(sum).spec_over(d) == v[i]);
        assert(back_solved(u, b, from) =~= known_from(v, from));
    }
}

/// Under exact arithmetic, forward substitution undoes multiplication by
/// a lower triangular matrix with no zero on its diagonal: from `l * y`
/// it finds `y`.
pub proof fn lemma_forward_round_trip<T: Scalar>(l: Seq<Seq<T>>, y: Seq<Seq<T>>)
    requires
        is_exact::<T>(),
        is_exactly_lower(l),
        y.len() == l.len(),
    ensures
        forward_solved(l, column(grid_product(l, y, 1), 0), l.len() as int) == column(y, 0),
{
    lemma_forward_finds_prefix(l, y, l.len() as int);
    assert(known_upto(column(y, 0), l.len() as int) =~= column(y, 0));
}

/// Under exact arithmetic, back substitution undoes multiplication by an
/// upper triangular matrix with no zero on its diagonal: from `u * x` it
/// finds `x`.
pub proof fn lemma_back_round_trip<T: Scalar>(u: Seq<Seq<T>>, x: Seq<Seq<T>>)
    requires
        is_exact::<T>(),
        is_exactly_upper(u),
        x.len() == u.len(),
    ensures
        back_solved(u, column(grid_product(u, x, 1), 0), 0) == column(x, 0),
{
    lemma_back_finds_suffix(u, x, 0);
    assert(known_from(column(x, 0), 0) =~= column(x, 0));
}

/// `x` solves the system `a * x = b`: every row of `a` times `x` is the
/// entry of `b` in that row.
pub open spec fn solves<T: Scalar>(a: Seq<Seq<T>>, x: Seq<T>, b: Seq<T>) -> bool {
    forall|i: int| 0 <= i < a.len() ==> dot_range(#[trigger] a[i], x, 0, a.len() as int) == b[i]
}

/// Under exact arithmetic, what forward substitution finds solves the
/// system, where `l` is lower triangular with no zero on its diagonal.
pub proof fn lemma_forward_solves<T: Scalar>(l: Seq<Seq<T>>, b: Seq<T>)
    requires
        is_exact::<T>(),
        is_exactly_lower(l),
        b.len() == l.len(),
    ensures
        solves(l, forward_solved(l, b, l.len() as int), b),
{
    let n = l.len() as int;
    let y = forward_solved(l, b, n);
    lemma_forward_solved_len(l, b, n);
    lemma_forward_solved_equations(l, b, n);
    assert forall|i: int| 0 <= i < n implies dot_range(#[trigger] l[i], y, 0, n) == b[i] by {
        let sum = dot_range(l[i], y, 0, i);
        let d = l[i][i];
        assert(y[i] == b[i].spec_minus(sum).spec_over(d));
        lemma_divide_back(b[i].spec_minus(sum), d);
        assert(d.spec_times(y[i]) == y[i].spec_times(d)) by {
            reveal(is_exact);
        }
        lemma_dot_range_zero_tail(l[i], y, 0, i + 1, n);
        assert(dot_range(l[i], y, 0, i + 1) == sum.spec_plus(d.spec_times(y[i])));
        lemma_minus_plus(b[i], sum);
    }
}

/// Under exact arithmetic, what back substitution finds solves the
/// system, where `u` is upper triangular with no zero on its diagonal.
pub proof fn lemma_back_solves<T: Scalar>(u: Seq<Seq<T>>, b: Seq<T>)
    requires
        is_exact::<T>(),
        is_exactly_upper(u),
        b.len() == u.len(),
    ensures
        solves(u, back_solved(u, b, 0), b),
{
    let n = u.len() as int;
    let x = back_solved(u, b, 0);
    lemma_back_solved_len(u, b, 0);
    lemma_back_solved_equations(u, b, 0);
    assert forall|i: int| 0 <= i < n implies dot_range(#[trigger] u[i], x, 0, n) == b[i] by {
        let sum = dot_range(u[i], x, i + 1, n);
        let d = u[i][i];
        assert(x[i] == b[i].spec_minus(sum).spec_over(d));
        lemma_divide_back(b[i].spec_minus(sum), d);
        assert(d.spec_times(x[i]) == x[i].spec_times(d)) by {
            reveal(is_exact);
        }
        lemma_dot_range_zero_head(u[i], x, 0, i, n);
        lemma_dot_range_first(u[i], x, i, n);
        lemma_minus_plus(b[i], sum);
    }
}

} // verus!
