use vstd::prelude::*;

pub use crate::quadratic::{Column, Matrix, Row, SquareMatrix, Value};

verus! {

broadcast use vstd::array::group_array_axioms;

/// Entry `(i, j)` of the matrix of a system with equality constraints
/// (`[[q, aᵀ], [a, 0]]`), for `q` of size `n` and constraint rows `a`, where
/// the lower right block holds `zero`.
pub open spec fn kkt_entry<T>(q: Seq<Seq<T>>, a: Seq<Seq<T>>, n: int, i: int, j: int, zero: T) -> T {
    if i < n && j < n {
        q[i][j]
    } else if i < n {
        a[j - n][i]
    } else if j < n {
        a[i - n][j]
    } else {
        zero
    }
}

/// `v` is entry `(i, j)` of the matrix `[[q, aᵀ], [a, 0]]` for `q` of size
/// `n`, where the lower right block holds `T::default()`.
pub open spec fn is_kkt_entry<T: Default>(v: T, q: Seq<Seq<T>>, a: Seq<Seq<T>>, n: int, i: int, j: int) -> bool {
    exists|zero: T| call_ensures(T::default, (), zero) && v == kkt_entry(q, a, n, i, j, zero)
}

impl<const N: usize, T: Copy + Default> SquareMatrix<N, T> {
    /// The matrix `[[self, aᵀ], [a, 0]]` of a quadratic problem with the
    /// equality constraints `a`, where `K` is `N + M` and the lower right block
    /// holds `T::default()`.
    pub fn block_concat<const M: usize, const K: usize>(&self, a: &Matrix<M, N, T>) -> (r: SquareMatrix<K, T>)
        requires
            K == N + M,
        ensures
            forall|i: int, j: int| 0 <= i < K && 0 <= j < K ==> is_kkt_entry(#[trigger] r@[i][j], self@, a@, N as int, i, j),
    {
        let r = Matrix(core::array::from_fn(|i: usize| -> (row: [T; K])
            requires
                i < K,
                K == N + M,
            ensures
                forall|j: int| 0 <= j < K ==> is_kkt_entry(#[trigger] row@[j], self@, a@, N as int, i as int, j),
            {
                core::array::from_fn(|j: usize| -> (v: T)
                    requires
                        i < K,
                        j < K,
                        K == N + M,
                    ensures
                        is_kkt_entry(v, self@, a@, N as int, i as int, j as int),
                    {
                        let zero = T::default();
                        let v = if i < N && j < N {
                            assert(self@[i as int][j as int] == self.0@[i as int]@[j as int]);
                            self.0[i][j]
                        } else if i < N {
                            assert(a@[j - N][i as int] == a.0@[j - N]@[i as int]);
                            a.0[j - N][i]
                        } else if j < N {
                            assert(a@[i - N][j as int] == a.0@[i - N]@[j as int]);
                            a.0[i - N][j]
                        } else {
                            zero
                        };
                        assert(v == kkt_entry(self@, a@, N as int, i as int, j as int, zero));
                        v
                    })
            }));
        assert forall|i: int, j: int| 0 <= i < K && 0 <= j < K implies is_kkt_entry(#[trigger] r@[i][j], self@, a@, N as int, i, j) by {
            assert(r@[i][j] == r.0@[i]@[j]);
        }
        r
    }
}

impl<const N: usize, T: Default> Column<N, T> {
    /// The column whose every entry is `T::default()`.
    pub fn zeros() -> (r: Self)
        ensures
            forall|i: int| 0 <= i < N ==> call_ensures(T::default, (), #[trigger] r@[i][0]),
    {
        Matrix::default()
    }
}

impl<const N: usize, T: Copy> Column<N, T> {
    /// The column of the entries of `self` followed by those of `other`, where
    /// `K` is `N + M`.
    pub fn stack<const M: usize, const K: usize>(&self, other: &Column<M, T>) -> (r: Column<K, T>)
        requires
            K == N + M,
        ensures
            forall|i: int| 0 <= i < K ==> #[trigger] r@[i][0] == if i < N { self@[i][0] } else { other@[i - N][0] },
    {
        let r = Matrix(core::array::from_fn(|i: usize| -> (row: [T; 1])
            requires
                i < K,
                K == N + M,
            ensures
                row@[0] == if i < N { self@[i as int][0] } else { other@[i - N][0] },
            {
                if i < N {
                    assert(self@[i as int][0] == self.0@[i as int]@[0]);
                    self.0[i]
                } else {
                    assert(other@[i - N][0] == other.0@[i - N]@[0]);
                    other.0[i - N]
                }
            }));
        assert forall|i: int| 0 <= i < K implies #[trigger] r@[i][0] == if i < N { self@[i][0] } else { other@[i - N][0] } by {
            assert(r@[i][0] == r.0@[i]@[0]);
        }
        r
    }

    /// The first `P` entries of the column: the step, in the solution of a
    /// system with equality constraints.
    pub fn extract_p<const P: usize>(&self) -> (r: Column<P, T>)
        requires
            P <= N,
        ensures
            forall|i: int| 0 <= i < P ==> #[trigger] r@[i][0] == self@[i][0],
    {
        let r = Matrix(core::array::from_fn(|i: usize| -> (row: [T; 1])
            requires
                i < P,
                P <= N,
            ensures
                row@[0] == self@[i as int][0],
            {
                assert(self@[i as int][0] == self.0@[i as int]@[0]);
                self.0[i]
            }));
        assert forall|i: int| 0 <= i < P implies #[trigger] r@[i][0] == self@[i][0] by {
            assert(r@[i][0] == r.0@[i]@[0]);
        }
        r
    }

    /// The last `L` entries of the column: the multipliers, in the solution of
    /// a system with equality constraints.
    pub fn extract_lambda<const L: usize>(&self) -> (r: Column<L, T>)
        requires
            L <= N,
        ensures
            forall|i: int| 0 <= i < L ==> #[trigger] r@[i][0] == self@[N - L + i][0],
    {
        let r = Matrix(core::array::from_fn(|i: usize| -> (row: [T; 1])
            requires
                i < L,
                L <= N,
            ensures
                row@[0] == self@[N - L + i][0],
            {
                assert(self@[N - L + i][0] == self.0@[N - L + i]@[0]);
                self.0[N - L + i]
            }));
        assert forall|i: int| 0 <= i < L implies #[trigger] r@[i][0] == self@[N - L + i][0] by {
            assert(r@[i][0] == r.0@[i]@[0]);
        }
        r
    }
}

/// Stacking two columns and taking the first and the last entries back gives
/// the two columns.
pub proof fn lemma_stack_then_extract<T>(x: Seq<Seq<T>>, y: Seq<Seq<T>>, stacked: Seq<Seq<T>>, p: Seq<Seq<T>>, l: Seq<Seq<T>>)
    requires
        stacked.len() == x.len() + y.len(),
        forall|i: int| 0 <= i < stacked.len() ==> #[trigger] stacked[i][0] == if i < x.len() { x[i][0] } else { y[i - x.len()][0] },
        p.len() == x.len(),
        forall|i: int| 0 <= i < p.len() ==> #[trigger] p[i][0] == stacked[i][0],
        l.len() == y.len(),
        forall|i: int| 0 <= i < l.len() ==> #[trigger] l[i][0] == stacked[stacked.len() - l.len() + i][0],
    ensures
        forall|i: int| 0 <= i < x.len() ==> #[trigger] p[i][0] == x[i][0],
        forall|i: int| 0 <= i < y.len() ==> #[trigger] l[i][0] == y[i][0],
{
    assert forall|i: int| 0 <= i < y.len() implies #[trigger] l[i][0] == y[i][0] by {
        assert(l[i][0] == stacked[x.len() + i][0]);
    }
}

}
