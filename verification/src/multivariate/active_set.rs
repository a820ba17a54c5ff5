use vstd::prelude::*;

use crate::linalg::{is_kkt_entry, kkt_entry, Matrix, SquareMatrix};

verus! {

/// The active set method for quadratic programs with inequality constraints,
/// run until `stopping_criterion` says to stop.
#[derive(Clone, Copy)]
pub struct ActiveSetMethod<S> {
    pub stopping_criterion: S,
}

impl<S> ActiveSetMethod<S> {
    /// The active set method with the given stopping criterion.
    pub fn new(stopping_criterion: S) -> (r: Self)
        ensures
            r.stopping_criterion == stopping_criterion,
    {
        Self { stopping_criterion }
    }
}

/// The rows of `a` listed in the working set `w`, in its order.
pub open spec fn working_rows<T>(a: Seq<Seq<T>>, w: Seq<usize>) -> Seq<Seq<T>> {
    w.map_values(|k: usize| a[k as int])
}

/// The working rows are the rows of `a` named by `w`, one for each entry of
/// `w` and in the same order: row `k` is row `w[k]` of `a`.
pub proof fn lemma_working_rows_follow_w<T>(a: Seq<Seq<T>>, w: Seq<usize>)
    ensures
        working_rows(a, w).len() == w.len(),
        forall|k: int| 0 <= k < w.len() ==> #[trigger] working_rows(a, w)[k] == a[w[k] as int],
{
}

/// The matrix `[[q, a_wᵀ], [a_w, 0]]` of the equality-constrained step of the
/// active set method, where `a_w` holds the constraint rows of `a` in the
/// working set `w` and the lower right block holds `T::default()`.
pub fn working_set_kkt<const N: usize, const M: usize, T: Copy + Default>(
    q: &SquareMatrix<N, T>,
    a: &Matrix<M, N, T>,
    w: &Vec<usize>,
) -> (r: Vec<Vec<T>>)
    requires
        forall|k: int| 0 <= k < w.len() ==> #[trigger] w@[k] < M,
        N + w.len() <= usize::MAX,
    ensures
        r@.len() == N + w.len(),
        forall|i: int| 0 <= i < r@.len() ==> (#[trigger] r@[i])@.len() == N + w.len(),
        forall|i: int, j: int| 0 <= i < N + w.len() && 0 <= j < N + w.len() ==>
            is_kkt_entry(#[trigger] r@[i]@[j], q@, working_rows(a@, w@), N as int, i, j),
        forall|i: int, j: int| 0 <= i < N && 0 <= j < N ==> #[trigger] r@[i]@[j] == q@[i][j],
        forall|k: int, j: int| 0 <= k < w.len() && 0 <= j < N ==> #[trigger] r@[N + k]@[j] == a@[w@[k] as int][j],
        forall|k: int, i: int| 0 <= k < w.len() && 0 <= i < N ==> #[trigger] r@[i]@[N + k] == a@[w@[k] as int][i],
        forall|k: int, l: int| 0 <= k < w.len() && 0 <= l < w.len() ==> call_ensures(T::default, (), #[trigger] r@[N + k]@[N + l]),
{
    let size = N + w.len();
    let ghost rows = working_rows(a@, w@);
    let mut r: Vec<Vec<T>> = Vec::new();
    let mut i: usize = 0;
    while i < size
        invariant
            size == N + w.len(),
            i <= size,
            rows == working_rows(a@, w@),
            forall|k: int| 0 <= k < w.len() ==> #[trigger] w@[k] < M,
            r@.len() == i,
            forall|k: int| 0 <= k < i ==> (#[trigger] r@[k])@.len() == size,
            forall|k: int, j: int| 0 <= k < i && 0 <= j < size ==> is_kkt_entry(#[trigger] r@[k]@[j], q@, rows, N as int, k, j),
        decreases size - i,
    {
        let mut row: Vec<T> = Vec::new();
        let mut j: usize = 0;
        while j < size
            invariant
                size == N + w.len(),
                i < size,
                j <= size,
                rows == working_rows(a@, w@),
                forall|k: int| 0 <= k < w.len() ==> #[trigger] w@[k] < M,
                row@.len() == j,
                forall|l: int| 0 <= l < j ==> is_kkt_entry(#[trigger] row@[l], q@, rows, N as int, i as int, l),
            decreases size - j,
        {
            let zero = T::default();
            let v = if i < N && j < N {
                assert(q@[i as int][j as int] == q.0@[i as int]@[j as int]);
                q.0[i][j]
            } else if i < N {
                let c = w[j - N];
                assert(rows[j - N] == a@[c as int]);
                assert(a@[c as int][i as int] == a.0@[c as int]@[i as int]);
                a.0[c][i]
            } else if j < N {
                let c = w[i - N];
                assert(rows[i - N] == a@[c as int]);
                assert(a@[c as int][j as int] == a.0@[c as int]@[j as int]);
                a.0[c][j]
            } else {
                zero
            };
            assert(v == kkt_entry(q@, rows, N as int, i as int, j as int, zero));
            row.push(v);
            j += 1;
        }
        r.push(row);
        i += 1;
    }
    assert forall|i: int, j: int| 0 <= i < N && 0 <= j < N implies #[trigger] r@[i]@[j] == q@[i][j] by {
        let z = choose|z: T| call_ensures(T::default, (), z) && r@[i]@[j] == kkt_entry(q@, rows, N as int, i, j, z);
    }
    assert forall|k: int, j: int| 0 <= k < w.len() && 0 <= j < N implies #[trigger] r@[N + k]@[j] == a@[w@[k] as int][j] by {
        assert(is_kkt_entry(r@[N + k]@[j], q@, rows, N as int, N + k, j));
        let z = choose|z: T| call_ensures(T::default, (), z) && r@[N + k]@[j] == kkt_entry(q@, rows, N as int, N + k, j, z);
        assert(rows[k] == a@[w@[k] as int]);
    }
    assert forall|k: int, i: int| 0 <= k < w.len() && 0 <= i < N implies #[trigger] r@[i]@[N + k] == a@[w@[k] as int][i] by {
        assert(is_kkt_entry(r@[i]@[N + k], q@, rows, N as int, i, N + k));
        let z = choose|z: T| call_ensures(T::default, (), z) && r@[i]@[N + k] == kkt_entry(q@, rows, N as int, i, N + k, z);
        assert(rows[k] == a@[w@[k] as int]);
    }
    assert forall|k: int, l: int| 0 <= k < w.len() && 0 <= l < w.len() implies call_ensures(T::default, (), #[trigger] r@[N + k]@[N + l]) by {
        assert(is_kkt_entry(r@[N + k]@[N + l], q@, rows, N as int, N + k, N + l));
        let z = choose|z: T| call_ensures(T::default, (), z) && r@[N + k]@[N + l] == kkt_entry(q@, rows, N as int, N + k, N + l, z);
    }
    r
}

}
