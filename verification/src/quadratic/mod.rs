use vstd::prelude::*;

pub mod arithmetic;
pub mod simplex;

use arithmetic::{map_entries, zip_entries};

verus! {

broadcast use vstd::array::group_array_axioms;

/// `core::array::from_fn` calls `f` once for each index, in order, and
/// gathers what it returns into an array of that length.
pub assume_specification<Elem, const LEN: usize, MakeFn>[ core::array::from_fn::<Elem, LEN, MakeFn> ](f: MakeFn) -> (ret: [Elem; LEN])
    where
        MakeFn: FnMut(usize) -> Elem,
    requires
        forall|i: usize| i < LEN ==> call_requires(f, (i,)),
    ensures
        forall|i: int| 0 <= i < LEN ==> call_ensures(f, (i as usize,), #[trigger] ret@[i]),
;

/// `<[T; N]>::map` applies `f` to each element, in order, and gathers what
/// it returns into an array of the same length.
pub assume_specification<Elem, const LEN: usize, MapFn, Out>[ <[Elem; LEN]>::map::<MapFn, Out> ](a: [Elem; LEN], f: MapFn) -> (ret: [Out; LEN])
    where
        MapFn: FnMut(Elem) -> Out,
    requires
        forall|i: int| 0 <= i < LEN ==> call_requires(f, (#[trigger] a@[i],)),
    ensures
        forall|i: int| 0 <= i < LEN ==> call_ensures(f, (a@[i],), #[trigger] ret@[i]),
;

/// The one-element tuple made from a one-element array holds that element.
pub assume_specification<Elem>[ <(Elem,) as core::convert::From<[Elem; 1]>>::from ](a: [Elem; 1]) -> (r: (Elem,))
    ensures
        r.0 == a@[0],
;

/// An `N` by `M` matrix, stored row by row.
#[derive(Debug, Clone, Copy)]
pub struct Matrix<const N: usize, const M: usize, T>(pub [[T; M]; N]);

pub type SquareMatrix<const N: usize, T> = Matrix<N, N, T>;

pub type Column<const N: usize, T> = Matrix<N, 1, T>;

pub type Row<const M: usize, T> = Matrix<1, M, T>;

pub type Value<T> = SquareMatrix<1, T>;

impl<const N: usize, const M: usize, T> View for Matrix<N, M, T> {
    type V = Seq<Seq<T>>;

    /// The rows of the matrix, each as the sequence of its entries.
    open spec fn view(&self) -> Seq<Seq<T>> {
        Seq::new(N as nat, |i: int| self.0@[i]@)
    }
}

impl<const N: usize, const M: usize, T: Default> Default for Matrix<N, M, T> {
    /// The matrix whose every entry is `T::default()`.
    fn default() -> (r: Self)
        ensures
            forall|i: int, j: int| 0 <= i < N && 0 <= j < M ==> call_ensures(T::default, (), #[trigger] r@[i][j]),
    {
        let r = Matrix(core::array::from_fn(|_i: usize| -> (row: [T; M])
            ensures
                forall|j: int| 0 <= j < M ==> call_ensures(T::default, (), #[trigger] row@[j]),
            {
                core::array::from_fn(|_j: usize| -> (v: T)
                    ensures
                        call_ensures(T::default, (), v),
                    {
                        T::default()
                    })
            }));
        assert forall|i: int, j: int| 0 <= i < N && 0 <= j < M implies call_ensures(T::default, (), #[trigger] r@[i][j]) by {
            assert(r@[i][j] == r.0@[i]@[j]);
        }
        r
    }
}

/// A sequence of `n` rows of `m` entries each.
pub open spec fn is_grid<T>(rows: Seq<Seq<T>>, n: nat, m: nat) -> bool {
    &&& rows.len() == n
    &&& forall|i: int| 0 <= i < n ==> (#[trigger] rows[i]).len() == m
}

/// The grid whose entry `(i, j)` is entry `(j, i)` of `rows`, for a grid of
/// `n` rows and `m` columns.
pub open spec fn transposed<T>(rows: Seq<Seq<T>>, n: nat, m: nat) -> Seq<Seq<T>> {
    Seq::new(m, |i: int| Seq::new(n, |j: int| rows[j][i]))
}

/// The grid of one column whose entries are those of `s`, top to bottom.
pub open spec fn column_of<T>(s: Seq<T>) -> Seq<Seq<T>> {
    s.map_values(|v: T| seq![v])
}

/// The first entry of each row of `rows`.
pub open spec fn column_entries<T>(rows: Seq<Seq<T>>) -> Seq<T> {
    rows.map_values(|row: Seq<T>| row[0])
}

/// Two matrices with the same entries are the same matrix.
pub proof fn lemma_view_determines<const N: usize, const M: usize, T>(a: Matrix<N, M, T>, b: Matrix<N, M, T>)
    requires
        a@ == b@,
    ensures
        a == b,
{
    assert forall|i: int| 0 <= i < N implies a.0@[i] == b.0@[i] by {
        assert(a@[i] == b@[i]);
        assert(a.0@[i] =~= b.0@[i]);
    }
    assert(a.0 =~= b.0);
}

impl<const N: usize, const M: usize, T> Matrix<N, M, T> {
    /// The matrix with rows and columns swapped.
    pub fn transpose(self) -> (r: Matrix<M, N, T>)
        where
            T: Copy,
        ensures
            r@ == transposed(self@, N as nat, M as nat),
    {
        let r = Matrix(core::array::from_fn(|i: usize| -> (row: [T; N])
            requires
                i < M,
            ensures
                forall|j: int| 0 <= j < N ==> #[trigger] row@[j] == self.0@[j]@[i as int],
            {
                core::array::from_fn(|j: usize| -> (v: T)
                    requires
                        j < N,
                    ensures
                        v == self.0@[j as int]@[i as int],
                    {
                        self.0[j][i]
                    })
            }));
        assert(r@ =~~= transposed(self@, N as nat, M as nat));
        r
    }

    /// The matrix made of the columns of `self` listed in `cols`, in that
    /// order: column `j` of the result is column `cols[j]` of `self`.
    pub fn select_columns<const K: usize>(&self, cols: &[usize; K]) -> (r: Matrix<N, K, T>)
        where
            T: Copy,
        requires
            forall|j: int| 0 <= j < K ==> #[trigger] cols@[j] < M,
        ensures
            forall|i: int, j: int| 0 <= i < N && 0 <= j < K ==> #[trigger] r@[i][j] == self@[i][cols@[j] as int],
    {
        let r = Matrix(core::array::from_fn(|i: usize| -> (row: [T; K])
            requires
                i < N,
            ensures
                forall|j: int| 0 <= j < K ==> #[trigger] row@[j] == self.0@[i as int]@[cols@[j] as int],
            {
                core::array::from_fn(|j: usize| -> (v: T)
                    requires
                        j < K,
                    ensures
                        v == self.0@[i as int]@[cols@[j as int] as int],
                    {
                        self.0[i][cols[j]]
                    })
            }));
        assert forall|i: int, j: int| 0 <= i < N && 0 <= j < K implies #[trigger] r@[i][j] == self@[i][cols@[j] as int] by {
            assert(r@[i][j] == r.0@[i]@[j]);
        }
        r
    }
}

impl<const N: usize, T> Column<N, T> {
    /// The column whose entries are those of `col`, top to bottom.
    pub fn new_column(col: [T; N]) -> (r: Self)
        ensures
            r@ == column_of(col@),
    {
        let r = Matrix(col.map(|v: T| -> (row: [T; 1])
            ensures
                row@ == seq![v],
            {
                let row = [v];
                assert(row@ =~= seq![v]);
                row
            }));
        assert(r@ =~= column_of(col@));
        r
    }

    /// The entries of the column, top to bottom.
    pub fn into_column(self) -> (r: [T; N])
        ensures
            r@ == column_entries(self@),
    {
        let r = self.0.map(|row: [T; 1]| -> (v: T)
            ensures
                v == row@[0],
            {
                let (v,) = <(T,)>::from(row);
                v
            });
        assert(r@ =~= column_entries(self@));
        r
    }
}

impl<const M: usize, T> Row<M, T> {
    /// The row whose entries are those of `col`, left to right.
    pub fn new_row(col: [T; M]) -> (r: Self)
        ensures
            r@ == seq![col@],
    {
        let r = Matrix([col]);
        assert(r@ =~= seq![col@]);
        r
    }

    /// The entries of the row, left to right.
    pub fn into_row(self) -> (r: [T; M])
        ensures
            r@ == self@[0],
    {
        let (vec,) = <([T; M],)>::from(self.0);
        vec
    }
}

impl<T> Value<T> {
    /// The one by one matrix holding `val`.
    pub fn new_value(val: T) -> (r: Self)
        ensures
            r@ == seq![seq![val]],
    {
        let row = [val];
        let r = Matrix([row]);
        assert(row@ =~= seq![val]);
        assert(r@ =~= seq![seq![val]]);
        r
    }

    /// The single entry of a one by one matrix.
    pub fn into_value(self) -> (r: T)
        ensures
            r == self@[0][0],
    {
        let (row,) = <([T; 1],)>::from(self.0);
        let (val,) = <(T,)>::from(row);
        val
    }
}


/// Transposing twice gives back the matrix.
pub proof fn lemma_transpose_twice<T>(rows: Seq<Seq<T>>, n: nat, m: nat)
    requires
        is_grid(rows, n, m),
    ensures
        is_grid(transposed(rows, n, m), m, n),
        transposed(transposed(rows, n, m), m, n) == rows,
{
    let t = transposed(rows, n, m);
    assert forall|i: int| 0 <= i < n implies transposed(t, m, n)[i] =~= rows[i] by {
        assert(rows[i].len() == m);
    }
    assert(transposed(t, m, n) =~= rows);
}

/// The transpose of a column is the row with the same entries.
pub proof fn lemma_column_transposes_to_row<T>(s: Seq<T>)
    ensures
        transposed(column_of(s), s.len(), 1) == seq![s],
{
    assert(transposed(column_of(s), s.len(), 1)[0] =~= s);
    assert(transposed(column_of(s), s.len(), 1) =~= seq![s]);
}

/// Making a column from entries and reading them back gives the same entries,
/// and a one-column grid is the column of its entries.
pub proof fn lemma_column_round_trip<T>(s: Seq<T>, rows: Seq<Seq<T>>)
    requires
        is_grid(rows, rows.len(), 1),
    ensures
        column_entries(column_of(s)) == s,
        column_of(column_entries(rows)) == rows,
{
    assert(column_entries(column_of(s)) =~= s);
    assert forall|i: int| 0 <= i < rows.len() implies column_of(column_entries(rows))[i] =~= rows[i] by {
        assert(rows[i].len() == 1);
    }
    assert(column_of(column_entries(rows)) =~= rows);
}

/// Transposing commutes with entry-by-entry operations: the transpose of the
/// sum (or difference, or any entrywise combination) of two matrices is the
/// combination of their transposes.
pub proof fn lemma_transpose_zip_entries<A, B, C>(a: Seq<Seq<A>>, b: Seq<Seq<B>>, f: spec_fn(A, B) -> C, n: nat, m: nat)
    requires
        is_grid(a, n, m),
        is_grid(b, n, m),
    ensures
        transposed(zip_entries(a, b, f), n, m) == zip_entries(transposed(a, n, m), transposed(b, n, m), f),
{
    assert forall|i: int| 0 <= i < m implies transposed(zip_entries(a, b, f), n, m)[i] =~= zip_entries(transposed(a, n, m), transposed(b, n, m), f)[i] by {
        assert forall|j: int| 0 <= j < n implies transposed(zip_entries(a, b, f), n, m)[i][j] == f(a[j][i], b[j][i]) by {
            assert(a[j].len() == m);
        }
    }
    assert(transposed(zip_entries(a, b, f), n, m) =~= zip_entries(transposed(a, n, m), transposed(b, n, m), f));
}

/// Transposing commutes with applying a function to every entry, such as
/// negating or scaling.
pub proof fn lemma_transpose_map_entries<A, B>(a: Seq<Seq<A>>, f: spec_fn(A) -> B, n: nat, m: nat)
    requires
        is_grid(a, n, m),
    ensures
        transposed(map_entries(a, f), n, m) == map_entries(transposed(a, n, m), f),
{
    assert forall|i: int| 0 <= i < m implies transposed(map_entries(a, f), n, m)[i] =~= map_entries(transposed(a, n, m), f)[i] by {
        assert forall|j: int| 0 <= j < n implies transposed(map_entries(a, f), n, m)[i][j] == f(a[j][i]) by {
            assert(a[j].len() == m);
        }
    }
    assert(transposed(map_entries(a, f), n, m) =~= map_entries(transposed(a, n, m), f));
}

/// Writing an entry and reading it back gives what was written, and leaves
/// every other entry as it was.
pub proof fn lemma_write_then_read<T>(rows: Seq<Seq<T>>, n: nat, m: nat, i: int, j: int, v: T)
    requires
        is_grid(rows, n, m),
        0 <= i < n,
        0 <= j < m,
    ensures
        ({
            let written = rows.update(i, rows[i].update(j, v));
            &&& is_grid(written, n, m)
            &&& written[i][j] == v
            &&& forall|k: int, l: int| 0 <= k < n && 0 <= l < m && (k != i || l != j) ==> #[trigger] written[k][l] == rows[k][l]
        }),
{
}

/// Every matrix is a grid of `N` rows of `M` entries.
pub proof fn lemma_matrix_is_grid<const N: usize, const M: usize, T>(a: Matrix<N, M, T>)
    ensures
        is_grid(a@, N as nat, M as nat),
{
}

}
