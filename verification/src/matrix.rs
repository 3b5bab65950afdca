//! Matrices and vectors of fixed dimensions.

use vstd::prelude::*;
use crate::scalar::Scalar;
use crate::scalar::spec_zero;
use crate::scalar::spec_one;
use crate::scalar::zero;
use crate::scalar::one;
use crate::scalar::epsilon;
use crate::scalar::exceeds_epsilon;
use crate::error::KernelError;
use vstd::std_specs::convert::FromSpecImpl;

verus! {

/// Column `j` of the grid `m`, top to bottom.
pub open spec fn column<T>(m: Seq<Seq<T>>, j: int) -> Seq<T> {
    Seq::new(m.len(), |i: int| m[i][j])
}

/// The grid `m` with rows `i` and `k` exchanged.
pub open spec fn rows_swapped<T>(m: Seq<Seq<T>>, i: int, k: int) -> Seq<Seq<T>> {
    m.update(i, m[k]).update(k, m[i])
}

/// The grid `m` with `value` at row `i`, column `j`.
pub open spec fn with_entry<T>(m: Seq<Seq<T>>, i: int, j: int, value: T) -> Seq<Seq<T>> {
    m.update(i, m[i].update(j, value))
}

/// The sum of `a[t] * b[t]` for `t` from `lo` up to, not including, `hi`,
/// added up from zero in rising order of `t`.
pub open spec fn dot_range<T: Scalar>(a: Seq<T>, b: Seq<T>, lo: int, hi: int) -> T
    decreases hi - lo,
{
    if hi <= lo {
        spec_zero::<T>()
    } else {
        dot_range(a, b, lo, hi - 1).spec_plus(a[hi - 1].spec_times(b[hi - 1]))
    }
}

/// The identity grid of `n` rows.
pub open spec fn grid_identity<T: Scalar>(n: nat) -> Seq<Seq<T>> {
    Seq::new(n, |i: int| Seq::new(n, |j: int| if i == j { spec_one::<T>() } else { spec_zero::<T>() }))
}

/// The grid of `cols` rows that holds at `(i, j)` what `m` holds at `(j, i)`.
pub open spec fn grid_transposed<T>(m: Seq<Seq<T>>, cols: nat) -> Seq<Seq<T>> {
    Seq::new(cols, |i: int| Seq::new(m.len(), |j: int| m[j][i]))
}

/// Row by row, the entries of `a` followed by those of `b`.
pub open spec fn grid_concat<T>(a: Seq<Seq<T>>, b: Seq<Seq<T>>) -> Seq<Seq<T>> {
    Seq::new(a.len(), |i: int| a[i] + b[i])
}

/// The entrywise sum `a + b`.
pub open spec fn grid_sum<T: Scalar>(a: Seq<Seq<T>>, b: Seq<Seq<T>>) -> Seq<Seq<T>> {
    Seq::new(a.len(), |i: int| Seq::new(a[i].len(), |j: int| a[i][j].spec_plus(b[i][j])))
}

/// The entrywise difference `a - b`.
pub open spec fn grid_difference<T: Scalar>(a: Seq<Seq<T>>, b: Seq<Seq<T>>) -> Seq<Seq<T>> {
    Seq::new(a.len(), |i: int| Seq::new(a[i].len(), |j: int| a[i][j].spec_minus(b[i][j])))
}

/// The matrix product `a * b` for a grid `b` of `cols` columns: the entry at
/// `(i, j)` is row `i` of `a` times column `j` of `b`.
pub open spec fn grid_product<T: Scalar>(a: Seq<Seq<T>>, b: Seq<Seq<T>>, cols: nat) -> Seq<Seq<T>> {
    Seq::new(a.len(), |i: int| Seq::new(cols, |j: int| dot_range(a[i], column(b, j), 0, b.len() as int)))
}

/// Every entry of `a` times `s`.
pub open spec fn grid_scaled<T: Scalar>(a: Seq<Seq<T>>, s: T) -> Seq<Seq<T>> {
    Seq::new(a.len(), |i: int| Seq::new(a[i].len(), |j: int| a[i][j].spec_times(s)))
}

/// Every entry of `a` over `s`.
pub open spec fn grid_divided<T: Scalar>(a: Seq<Seq<T>>, s: T) -> Seq<Seq<T>> {
    Seq::new(a.len(), |i: int| Seq::new(a[i].len(), |j: int| a[i][j].spec_over(s)))
}

/// The Euclidean norm of `v`: the square root of the sum of its squares.
pub open spec fn spec_norm<T: Scalar>(v: Seq<T>) -> T {
    dot_range(v, v, 0, v.len() as int).spec_sqrt()
}

/// What normalizing the one-column grid `v` gives: `v` over its norm, or
/// the refusal of a vector whose norm does not exceed the zero threshold.
pub open spec fn spec_normalized<T: Scalar>(v: Seq<Seq<T>>) -> Result<Seq<Seq<T>>, KernelError> {
    let norm = spec_norm(column(v, 0));
    if exceeds_epsilon(norm) {
        Ok(grid_divided(v, norm))
    } else {
        Err(KernelError::DegenerateVector)
    }
}

/// `dot_range` reads only the entries from `lo` up to `hi`.
pub proof fn lemma_dot_range_local<T: Scalar>(a: Seq<T>, b: Seq<T>, c: Seq<T>, d: Seq<T>, lo: int, hi: int)
    requires
        forall|t: int| lo <= t < hi ==> a[t] == c[t] && b[t] == d[t],
    ensures
        dot_range(a, b, lo, hi) == dot_range(c, d, lo, hi),
    decreases hi - lo,
{
    if hi > lo {
        lemma_dot_range_local(a, b, c, d, lo, hi - 1);
    }
}

/// Writes `value` at place `i` of column `j`.
fn store<T>(columns: &mut Vec<Vec<T>>, i: usize, j: usize, value: T)
    requires
        j < old(columns)@.len(),
        i < old(columns)@[j as int]@.len(),
    ensures
        final(columns)@.len() == old(columns)@.len(),
        final(columns)@[j as int]@ == old(columns)@[j as int]@.update(i as int, value),
        forall|c: int| 0 <= c < old(columns)@.len() && c != j ==> final(columns)@[c] == old(columns)@[c],
    no_unwind
{
    columns[j][i] = value;
}

/// A dense matrix of `N` rows and `M` columns. The dimensions are part of
/// the type, so shapes that do not fit are refused when the caller is
/// compiled.
#[derive(Debug)]
pub struct Matrix<T, const N: usize, const M: usize> {
    columns: Vec<Vec<T>>,
}

/// A column vector of `N` entries.
pub type Vector<T, const N: usize> = Matrix<T, N, 1>;

impl<T, const N: usize, const M: usize> Matrix<T, N, M> {
    #[verifier::type_invariant]
    spec fn inv(self) -> bool {
        &&& self.columns@.len() == M
        &&& forall|j: int| 0 <= j < M ==> (#[trigger] self.columns@[j])@.len() == N
    }

    /// The entry at row `i`, column `j`.
    pub closed spec fn entry(&self, i: int, j: int) -> T {
        self.columns@[j]@[i]
    }

    /// The rows of the matrix, each a sequence of `M` entries.
    pub open spec fn view(&self) -> Seq<Seq<T>> {
        Seq::new(N as nat, |i: int| Seq::new(M as nat, |j: int| self.entry(i, j)))
    }
}

impl<T: Scalar, const N: usize, const M: usize> Matrix<T, N, M> {
    /// Wraps `M` columns of `N` entries each.
    fn from_columns(columns: Vec<Vec<T>>) -> (r: Self)
        requires
            columns@.len() == M,
            forall|j: int| 0 <= j < M ==> (#[trigger] columns@[j])@.len() == N,
        ensures
            forall|i: int, j: int| 0 <= i < N && 0 <= j < M ==> r@[i][j] == columns@[j]@[i],
    {
        Matrix { columns }
    }

    /// The matrix whose entry at `(i, j)` is what `f` returns for `(i, j)`.
    pub fn from_fn<F: Fn(usize, usize) -> T>(f: F) -> (r: Self)
        requires
            forall|i: usize, j: usize| i < N && j < M ==> f.requires((i, j)),
        ensures
            forall|i: usize, j: usize| i < N && j < M ==> f.ensures((i, j), #[trigger] r@[i as int][j as int]),
    {
        let mut columns: Vec<Vec<T>> = Vec::new();
        let mut j: usize = 0;
        while j < M
            invariant
                j <= M,
                columns@.len() == j,
                forall|i: usize, c: usize| i < N && c < M ==> f.requires((i, c)),
                forall|c: int| 0 <= c < j ==> (#[trigger] columns@[c])@.len() == N,
                forall|i: usize, c: usize| i < N && c < j ==> f.ensures((i, c), #[trigger] columns@[c as int]@[i as int]),
            decreases M - j,
        {
            let mut col: Vec<T> = Vec::new();
            let mut i: usize = 0;
            while i < N
                invariant
                    i <= N,
                    j < M,
                    col@.len() == i,
                    forall|r: usize, c: usize| r < N && c < M ==> f.requires((r, c)),
                    forall|r: usize| r < i ==> f.ensures((r, j), #[trigger] col@[r as int]),
                decreases N - i,
            {
                let value = f(i, j);
                col.push(value);
                i += 1;
            }
            columns.push(col);
            j += 1;
        }
        Self::from_columns(columns)
    }

    /// The matrix with `value` at every place.
    pub fn filled_with(value: T) -> (r: Self)
        ensures
            r@ == Seq::new(N as nat, |i: int| Seq::new(M as nat, |j: int| value)),
    {
        let r = Self::from_fn(|i: usize, j: usize| -> (v: T)
            ensures
                v == value,
            { value });
        assert(r@ =~~= Seq::new(N as nat, |i: int| Seq::new(M as nat, |j: int| value))) by {
            assert forall|i: int, j: int| 0 <= i < N && 0 <= j < M implies r@[i][j] == value by {
                let _ = r@[i as usize as int][j as usize as int];
            }
        }
        r
    }

    /// The matrix of zeros.
    pub fn zeroed() -> (r: Self)
        ensures
            r@ == Seq::new(N as nat, |i: int| Seq::new(M as nat, |j: int| spec_zero::<T>())),
    {
        Self::filled_with(zero::<T>())
    }

    /// The entry at row `i`, column `j`.
    pub fn get(&self, i: usize, j: usize) -> (r: T)
        requires
            i < N,
            j < M,
        ensures
            r == self@[i as int][j as int],
    {
        proof {
            use_type_invariant(self);
        }
        self.columns[j][i]
    }

    /// Puts `value` at row `i`, column `j`.
    pub fn set(&mut self, i: usize, j: usize, value: T)
        requires
            i < N,
            j < M,
        ensures
            final(self)@ == with_entry(old(self)@, i as int, j as int, value),
    {
        proof {
            use_type_invariant(&*self);
        }
        store(&mut self.columns, i, j, value);
        assert(self@ =~~= with_entry(old(self)@, i as int, j as int, value));
    }

    /// The matrix with rows and columns exchanged.
    pub fn transpose(&self) -> (r: Matrix<T, M, N>)
        ensures
            r@ == grid_transposed(self@, M as nat),
    {
        let r = Matrix::<T, M, N>::from_fn(|i: usize, j: usize| -> (v: T)
            requires
                i < M,
                j < N,
            ensures
                v == self@[j as int][i as int],
            { self.get(j, i) });
        assert(r@ =~~= grid_transposed(self@, M as nat)) by {
            assert forall|i: int, j: int| 0 <= i < M && 0 <= j < N implies r@[i][j] == self@[j][i] by {
                let _ = r@[i as usize as int][j as usize as int];
            }
        }
        r
    }

    /// The rows of `a`, each followed by the same row of `b`. The result has
    /// `K` columns, which must be the columns of `a` and of `b` together.
    pub fn concat<const L: usize, const K: usize>(a: &Matrix<T, N, M>, b: &Matrix<T, N, L>) -> (r: Matrix<T, N, K>)
        requires
            K == M + L,
        ensures
            r@ == grid_concat(a@, b@),
    {
        let r = Matrix::<T, N, K>::from_fn(|i: usize, j: usize| -> (v: T)
            requires
                i < N,
                j < K,
            ensures
                v == (a@[i as int] + b@[i as int])[j as int],
            {
                if j < M {
                    a.get(i, j)
                } else {
                    b.get(i, j - M)
                }
            });
        assert(r@ =~~= grid_concat(a@, b@)) by {
            assert forall|i: int, j: int| 0 <= i < N && 0 <= j < K implies r@[i][j] == (a@[i] + b@[i])[j] by {
                let _ = r@[i as usize as int][j as usize as int];
            }
        }
        r
    }

    /// Exchanges rows `i` and `k`.
    pub fn swap_rows(&mut self, i: usize, k: usize)
        requires
            i < N,
            k < N,
        ensures
            final(self)@ == rows_swapped(old(self)@, i as int, k as int),
    {
        let mut j: usize = 0;
        while j < M
            invariant
                j <= M,
                i < N,
                k < N,
                forall|r: int, c: int| 0 <= r < N && 0 <= c < M ==> self@[r][c] == (if c < j {
                    rows_swapped(old(self)@, i as int, k as int)[r][c]
                } else {
                    old(self)@[r][c]
                }),
            decreases M - j,
        {
            let upper = self.get(i, j);
            let lower = self.get(k, j);
            self.set(i, j, lower);
            self.set(k, j, upper);
            j += 1;
        }
        assert(self@ =~~= rows_swapped(old(self)@, i as int, k as int));
    }

    /// Row `i` of `self` times column `j` of `rhs`.
    fn row_times_column<const L: usize>(&self, rhs: &Matrix<T, M, L>, i: usize, j: usize) -> (r: T)
        requires
            i < N,
            j < L,
        ensures
            r == dot_range(self@[i as int], column(rhs@, j as int), 0, M as int),
    {
        let mut acc = zero::<T>();
        let mut t: usize = 0;
        while t < M
            invariant
                t <= M,
                i < N,
                j < L,
                acc == dot_range(self@[i as int], column(rhs@, j as int), 0, t as int),
            decreases M - t,
        {
            acc = acc.plus(self.get(i, t).times(rhs.get(t, j)));
            t += 1;
        }
        acc
    }

    /// The entrywise sum `self + rhs`.
    pub fn plus(&self, rhs: &Self) -> (r: Self)
        ensures
            r@ == grid_sum(self@, rhs@),
    {
        let r = Self::from_fn(|i: usize, j: usize| -> (v: T)
            requires
                i < N,
                j < M,
            ensures
                v == self@[i as int][j as int].spec_plus(rhs@[i as int][j as int]),
            { self.get(i, j).plus(rhs.get(i, j)) });
        assert(r@ =~~= grid_sum(self@, rhs@)) by {
            assert forall|i: int, j: int| 0 <= i < N && 0 <= j < M implies r@[i][j] == self@[i][j].spec_plus(rhs@[i][j]) by {
                let _ = r@[i as usize as int][j as usize as int];
            }
        }
        r
    }

    /// The entrywise difference `self - rhs`.
    pub fn minus(&self, rhs: &Self) -> (r: Self)
        ensures
            r@ == grid_difference(self@, rhs@),
    {
        let r = Self::from_fn(|i: usize, j: usize| -> (v: T)
            requires
                i < N,
                j < M,
            ensures
                v == self@[i as int][j as int].spec_minus(rhs@[i as int][j as int]),
            { self.get(i, j).minus(rhs.get(i, j)) });
        assert(r@ =~~= grid_difference(self@, rhs@)) by {
            assert forall|i: int, j: int| 0 <= i < N && 0 <= j < M implies r@[i][j] == self@[i][j].spec_minus(rhs@[i][j]) by {
                let _ = r@[i as usize as int][j as usize as int];
            }
        }
        r
    }

    /// The matrix product `self * rhs`.
    pub fn times<const L: usize>(&self, rhs: &Matrix<T, M, L>) -> (r: Matrix<T, N, L>)
        ensures
            r@ == grid_product(self@, rhs@, L as nat),
    {
        let r = Matrix::<T, N, L>::from_fn(|i: usize, j: usize| -> (v: T)
            requires
                i < N,
                j < L,
            ensures
                v == dot_range(self@[i as int], column(rhs@, j as int), 0, M as int),
            { self.row_times_column(rhs, i, j) });
        assert(r@ =~~= grid_product(self@, rhs@, L as nat)) by {
            assert forall|i: int, j: int| 0 <= i < N && 0 <= j < L implies r@[i][j] == dot_range(
                self@[i],
                column(rhs@, j),
                0,
                M as int,
            ) by {
                let _ = r@[i as usize as int][j as usize as int];
            }
        }
        r
    }

    /// Every entry times `s`.
    pub fn scaled(&self, s: T) -> (r: Self)
        ensures
            r@ == grid_scaled(self@, s),
    {
        let r = Self::from_fn(|i: usize, j: usize| -> (v: T)
            requires
                i < N,
                j < M,
            ensures
                v == self@[i as int][j as int].spec_times(s),
            { self.get(i, j).times(s) });
        assert(r@ =~~= grid_scaled(self@, s)) by {
            assert forall|i: int, j: int| 0 <= i < N && 0 <= j < M implies r@[i][j] == self@[i][j].spec_times(s) by {
                let _ = r@[i as usize as int][j as usize as int];
            }
        }
        r
    }

    /// Every entry over `s`.
    pub fn divided(&self, s: T) -> (r: Self)
        ensures
            r@ == grid_divided(self@, s),
    {
        let r = Self::from_fn(|i: usize, j: usize| -> (v: T)
            requires
                i < N,
                j < M,
            ensures
                v == self@[i as int][j as int].spec_over(s),
            { self.get(i, j).over(s) });
        assert(r@ =~~= grid_divided(self@, s)) by {
            assert forall|i: int, j: int| 0 <= i < N && 0 <= j < M implies r@[i][j] == self@[i][j].spec_over(s) by {
                let _ = r@[i as usize as int][j as usize as int];
            }
        }
        r
    }
}

impl<T: Scalar, const N: usize, const M: usize> Clone for Matrix<T, N, M> {
    /// A matrix with the same entries.
    fn clone(&self) -> (r: Self)
        ensures
            r@ == self@,
    {
        let r = Self::from_fn(|i: usize, j: usize| -> (v: T)
            requires
                i < N,
                j < M,
            ensures
                v == self@[i as int][j as int],
            { self.get(i, j) });
        assert(r@ =~~= self@) by {
            assert forall|i: int, j: int| 0 <= i < N && 0 <= j < M implies r@[i][j] == self@[i][j] by {
                let _ = r@[i as usize as int][j as usize as int];
            }
        }
        r
    }
}

impl<T: Scalar, const N: usize, const M: usize> From<[[T; M]; N]> for Matrix<T, N, M> {
    /// The matrix with the given rows.
    fn from(rows: [[T; M]; N]) -> (r: Self)
        ensures
            forall|i: int, j: int| 0 <= i < N && 0 <= j < M ==> r@[i][j] == rows@[i]@[j],
    {
        let r = Self::from_fn(|i: usize, j: usize| -> (v: T)
            requires
                i < N,
                j < M,
            ensures
                v == rows@[i as int]@[j as int],
            { rows[i][j] });
        assert forall|i: int, j: int| 0 <= i < N && 0 <= j < M implies r@[i][j] == rows@[i]@[j] by {
            let _ = r@[i as usize as int][j as usize as int];
        }
        r
    }
}

impl<T: Scalar, const N: usize, const M: usize> FromSpecImpl<[[T; M]; N]> for Matrix<T, N, M> {
    /// The conversion is stated by the contract of `from`, entry by entry.
    open spec fn obeys_from_spec() -> bool {
        false
    }

    /// Left open: see `obeys_from_spec`.
    open spec fn from_spec(rows: [[T; M]; N]) -> Self {
        arbitrary()
    }
}

impl<T: Scalar, const N: usize> Matrix<T, N, N> {
    /// The identity matrix: one on the diagonal, zero elsewhere.
    pub fn identity() -> (r: Self)
        ensures
            r@ == grid_identity::<T>(N as nat),
    {
        let r = Self::from_fn(|i: usize, j: usize| -> (v: T)
            ensures
                v == (if i == j { spec_one::<T>() } else { spec_zero::<T>() }),
            {
                if i == j {
                    one::<T>()
                } else {
                    zero::<T>()
                }
            });
        assert(r@ =~~= grid_identity::<T>(N as nat)) by {
            assert forall|i: int, j: int| 0 <= i < N && 0 <= j < N implies r@[i][j] == (if i == j {
                spec_one::<T>()
            } else {
                spec_zero::<T>()
            }) by {
                let _ = r@[i as usize as int][j as usize as int];
            }
        }
        r
    }
}

impl<T: Scalar, const N: usize> Matrix<T, N, 1> {
    /// The entries of the vector, first to last.
    pub open spec fn entries(&self) -> Seq<T> {
        column(self@, 0)
    }

    /// The vector with the given entries, if there are `N` of them.
    pub fn from_entries(entries: &[T]) -> (r: Option<Self>)
        ensures
            r is Some <==> entries@.len() == N,
            r is Some ==> r->Some_0.entries() == entries@,
    {
        if entries.len() != N {
            return None;
        }
        let v = Self::from_fn(|i: usize, j: usize| -> (v: T)
            requires
                i < N,
            ensures
                v == entries@[i as int],
            { entries[i] });
        assert(v.entries() =~= entries@) by {
            assert forall|i: int| 0 <= i < N implies v@[i][0] == entries@[i] by {
                let _ = v@[i as usize as int][0usize as int];
            }
        }
        Some(v)
    }

    /// The entries of the vector, first to last.
    pub fn iter(&self) -> (r: &Vec<T>)
        ensures
            r@ == self.entries(),
    {
        proof {
            use_type_invariant(self);
        }
        let r = &self.columns[0];
        assert(r@ =~= self.entries());
        r
    }

    /// The inner product of `self` and `rhs`, added up from the first entry on.
    pub fn dot(&self, rhs: &Self) -> (r: T)
        ensures
            r == dot_range(self.entries(), rhs.entries(), 0, N as int),
    {
        let mut acc = zero::<T>();
        let mut t: usize = 0;
        while t < N
            invariant
                t <= N,
                acc == dot_range(self.entries(), rhs.entries(), 0, t as int),
            decreases N - t,
        {
            acc = acc.plus(self.get(t, 0).times(rhs.get(t, 0)));
            t += 1;
        }
        acc
    }

    /// The Euclidean norm.
    pub fn norm(&self) -> (r: T)
        ensures
            r == spec_norm(self.entries()),
    {
        self.dot(self).sqrt()
    }

    /// Divides the vector by its norm, unless the norm does not exceed the
    /// zero threshold: then the vector is left as it is and refused.
    pub fn normalize(&mut self) -> (r: Result<(), KernelError>)
        ensures
            match spec_normalized(old(self)@) {
                Ok(g) => r is Ok && final(self)@ == g,
                Err(e) => r == Err::<(), KernelError>(e) && final(self)@ == old(self)@,
            },
    {
        let norm = self.norm();
        if norm.magnitude() > epsilon::<T>().magnitude() {
            let unit = self.divided(norm);
            *self = unit;
            Ok(())
        } else {
            Err(KernelError::DegenerateVector)
        }
    }

    /// The vector over its norm, unless the norm does not exceed the zero
    /// threshold.
    pub fn normalized(&self) -> (r: Result<Self, KernelError>)
        ensures
            match spec_normalized(self@) {
                Ok(g) => r is Ok && r->Ok_0@ == g,
                Err(e) => r is Err && r->Err_0 == e,
            },
    {
        let mut result = self.clone();
        match result.normalize() {
            Ok(()) => Ok(result),
            Err(e) => Err(e),
        }
    }
}

} // verus!
