//! Forward and back substitution.

use vstd::prelude::*;
use crate::error::KernelError;
use crate::matrix::Matrix;
use crate::matrix::Vector;
use crate::matrix::dot_range;
use crate::matrix::lemma_dot_range_local;
use crate::scalar::Scalar;
use crate::scalar::spec_zero;
use crate::scalar::zero;
use crate::scalar::epsilon;
use crate::scalar::exceeds_epsilon;

verus! {

/// Every entry strictly above the diagonal is at most the zero threshold in magnitude.
pub open spec fn is_lower_triangular<T: Scalar>(m: Seq<Seq<T>>) -> bool {
    forall|i: int, j: int| 0 <= i < j < m.len() ==> !exceeds_epsilon(#[trigger] m[i][j])
}

/// Every entry strictly below the diagonal is at most the zero threshold in magnitude.
pub open spec fn is_upper_triangular<T: Scalar>(m: Seq<Seq<T>>) -> bool {
    forall|i: int, j: int| 0 <= j < i < m.len() ==> !exceeds_epsilon(#[trigger] m[i][j])
}

/// Forward substitution on `l` and `b`, carried through the first `upto`
/// unknowns: a sequence as long as `b` that holds the unknowns found so
/// far and zero at the others.
pub open spec fn forward_solved<T: Scalar>(l: Seq<Seq<T>>, b: Seq<T>, upto: int) -> Seq<T>
    decreases upto,
{
    if upto <= 0 {
        Seq::new(b.len(), |t: int| spec_zero::<T>())
    } else {
        let y = forward_solved(l, b, upto - 1);
        let i = upto - 1;
        y.update(i, b[i].spec_minus(dot_range(l[i], y, 0, i)).spec_over(l[i][i]))
    }
}

/// Back substitution on `u` and `b`, carried through the unknowns from
/// `from` on: a sequence as long as `b` that holds the unknowns found so
/// far and zero at the others.
pub open spec fn back_solved<T: Scalar>(u: Seq<Seq<T>>, b: Seq<T>, from: int) -> Seq<T>
    decreases b.len() - from,
{
    if from >= b.len() {
        Seq::new(b.len(), |t: int| spec_zero::<T>())
    } else {
        let x = back_solved(u, b, from + 1);
        x.update(from, b[from].spec_minus(dot_range(u[from], x, from + 1, b.len() as int)).spec_over(u[from][from]))
    }
}

/// The forward solution has the length of `b`.
pub proof fn lemma_forward_solved_len<T: Scalar>(l: Seq<Seq<T>>, b: Seq<T>, upto: int)
    requires
        upto <= b.len(),
    ensures
        forward_solved(l, b, upto).len() == b.len(),
    decreases upto,
{
    if upto > 0 {
        lemma_forward_solved_len(l, b, upto - 1);
    }
}

/// The back solution has the length of `b`.
pub proof fn lemma_back_solved_len<T: Scalar>(u: Seq<Seq<T>>, b: Seq<T>, from: int)
    requires
        0 <= from,
    ensures
        back_solved(u, b, from).len() == b.len(),
    decreases b.len() - from,
{
    if from < b.len() {
        lemma_back_solved_len(u, b, from + 1);
    }
}

/// Forward substitution solves `l * y = b` row by row: each unknown is the
/// right-hand side less the row's products with the unknowns before it,
/// over the diagonal entry.
pub proof fn lemma_forward_solved_equations<T: Scalar>(l: Seq<Seq<T>>, b: Seq<T>, upto: int)
    requires
        0 <= upto <= b.len(),
    ensures
        forall|i: int|
            #![trigger forward_solved(l, b, upto)[i]]
            0 <= i < upto ==> forward_solved(l, b, upto)[i] == b[i].spec_minus(
                dot_range(l[i], forward_solved(l, b, upto), 0, i),
            ).spec_over(l[i][i]),
    decreases upto,
{
    if upto > 0 {
        let y = forward_solved(l, b, upto - 1);
        let z = forward_solved(l, b, upto);
        lemma_forward_solved_len(l, b, upto - 1);
        lemma_forward_solved_equations(l, b, upto - 1);
        assert forall|i: int| 0 <= i < upto implies #[trigger] z[i] == b[i].spec_minus(dot_range(l[i], z, 0, i)).spec_over(
            l[i][i],
        ) by {
            lemma_dot_range_local(l[i], y, l[i], z, 0, i);
            if i < upto - 1 {
                assert(z[i] == y[i]);
            }
        }
    }
}

/// Back substitution solves `u * x = b` row by row: each unknown is the
/// right-hand side less the row's products with the unknowns after it,
/// over the diagonal entry.
pub proof fn lemma_back_solved_equations<T: Scalar>(u: Seq<Seq<T>>, b: Seq<T>, from: int)
    requires
        0 <= from <= b.len(),
    ensures
        forall|i: int|
            #![trigger back_solved(u, b, from)[i]]
            from <= i < b.len() ==> back_solved(u, b, from)[i] == b[i].spec_minus(
                dot_range(u[i], back_solved(u, b, from), i + 1, b.len() as int),
            ).spec_over(u[i][i]),
    decreases b.len() - from,
{
    if from < b.len() {
        let x = back_solved(u, b, from + 1);
        let z = back_solved(u, b, from);
        lemma_back_solved_len(u, b, from + 1);
        lemma_back_solved_equations(u, b, from + 1);
        assert forall|i: int| from <= i < b.len() implies #[trigger] z[i] == b[i].spec_minus(
            dot_range(u[i], z, i + 1, b.len() as int),
        ).spec_over(u[i][i]) by {
            lemma_dot_range_local(u[i], x, u[i], z, i + 1, b.len() as int);
            if i > from {
                assert(z[i] == x[i]);
            }
        }
    }
}

/// Whether `m` is lower triangular.
fn check_lower_triangular<T: Scalar, const N: usize>(m: &Matrix<T, N, N>) -> (ok: bool)
    ensures
        ok == is_lower_triangular(m@),
{
    let threshold = epsilon::<T>().magnitude();
    let mut j: usize = 0;
    while j < N
        invariant
            j <= N,
            threshold == crate::scalar::spec_epsilon::<T>().spec_magnitude(),
            forall|r: int, c: int| 0 <= r < c < j ==> !exceeds_epsilon(#[trigger] m@[r][c]),
        decreases N - j,
    {
        let mut i: usize = 0;
        while i < j
            invariant
                i <= j,
                j < N,
                threshold == crate::scalar::spec_epsilon::<T>().spec_magnitude(),
                forall|r: int, c: int| 0 <= r < c < j ==> !exceeds_epsilon(#[trigger] m@[r][c]),
                forall|r: int| 0 <= r < i ==> !exceeds_epsilon(#[trigger] m@[r][j as int]),
            decreases j - i,
        {
            if m.get(i, j).magnitude() > threshold {
                assert(exceeds_epsilon(m@[i as int][j as int]));
                return false;
            }
            i += 1;
        }
        j += 1;
    }
    true
}

/// Whether `m` is upper triangular.
fn check_upper_triangular<T: Scalar, const N: usize>(m: &Matrix<T, N, N>) -> (ok: bool)
    ensures
        ok == is_upper_triangular(m@),
{
    let threshold = epsilon::<T>().magnitude();
    let mut i: usize = 0;
    while i < N
        invariant
            i <= N,
            threshold == crate::scalar::spec_epsilon::<T>().spec_magnitude(),
            forall|r: int, c: int| 0 <= c < r < i ==> !exceeds_epsilon(#[trigger] m@[r][c]),
        decreases N - i,
    {
        let mut j: usize = 0;
        while j < i
            invariant
                j <= i,
                i < N,
                threshold == crate::scalar::spec_epsilon::<T>().spec_magnitude(),
                forall|r: int, c: int| 0 <= c < r < i ==> !exceeds_epsilon(#[trigger] m@[r][c]),
                forall|c: int| 0 <= c < j ==> !exceeds_epsilon(#[trigger] m@[i as int][c]),
            decreases i - j,
        {
            if m.get(i, j).magnitude() > threshold {
                assert(exceeds_epsilon(m@[i as int][j as int]));
                return false;
            }
            j += 1;
        }
        i += 1;
    }
    true
}

/// Solves `l * y = b` for a lower triangular `l`, from the first unknown to
/// the last. A matrix that is not lower triangular is refused. The
/// diagonal is divided by as it stands.
pub fn forward_substitution<T: Scalar, const N: usize>(l: &Matrix<T, N, N>, b: &Vector<T, N>) -> (r: Result<
    Vector<T, N>,
    KernelError,
>)
    ensures
        is_lower_triangular(l@) ==> r is Ok && r->Ok_0.entries() == forward_solved(l@, b.entries(), N as int),
        !is_lower_triangular(l@) ==> r is Err && r->Err_0 == KernelError::PreconditionViolation,
{
    if !check_lower_triangular(l) {
        return Err(KernelError::PreconditionViolation);
    }
    let mut y = Vector::<T, N>::zeroed();
    let mut i: usize = 0;
    assert(y.entries() =~= forward_solved(l@, b.entries(), 0));
    while i < N
        invariant
            i <= N,
            y.entries() == forward_solved(l@, b.entries(), i as int),
        decreases N - i,
    {
        let mut sum = zero::<T>();
        let mut j: usize = 0;
        while j < i
            invariant
                j <= i,
                i < N,
                sum == dot_range(l@[i as int], y.entries(), 0, j as int),
            decreases i - j,
        {
            sum = sum.plus(l.get(i, j).times(y.get(j, 0)));
            j += 1;
        }
        y.set(i, 0, b.get(i, 0).minus(sum).over(l.get(i, i)));
        i += 1;
        assert(y.entries() =~= forward_solved(l@, b.entries(), i as int));
    }
    Ok(y)
}

/// Solves `u * x = b` for an upper triangular `u`, from the last unknown to
/// the first. A matrix that is not upper triangular is refused. The
/// diagonal is divided by as it stands.
pub fn back_substitution<T: Scalar, const N: usize>(u: &Matrix<T, N, N>, b: &Vector<T, N>) -> (r: Result<
    Vector<T, N>,
    KernelError,
>)
    ensures
        is_upper_triangular(u@) ==> r is Ok && r->Ok_0.entries() == back_solved(u@, b.entries(), 0),
        !is_upper_triangular(u@) ==> r is Err && r->Err_0 == KernelError::PreconditionViolation,
{
    if !check_upper_triangular(u) {
        return Err(KernelError::PreconditionViolation);
    }
    let mut x = Vector::<T, N>::zeroed();
    let mut i: usize = N;
    assert(x.entries() =~= back_solved(u@, b.entries(), N as int));
    while i > 0
        invariant
            i <= N,
            x.entries() == back_solved(u@, b.entries(), i as int),
        decreases i,
    {
        i -= 1;
        let mut sum = zero::<T>();
        let mut j: usize = i + 1;
        while j < N
            invariant
                i < j <= N,
                sum == dot_range(u@[i as int], x.entries(), i as int + 1, j as int),
            decreases N - j,
        {
            sum = sum.plus(u.get(i, j).times(x.get(j, 0)));
            j += 1;
        }
        x.set(i, 0, b.get(i, 0).minus(sum).over(u.get(i, i)));
        assert(x.entries() =~= back_solved(u@, b.entries(), i as int));
    }
    Ok(x)
}

} // verus!
