use vstd::prelude::*;
use vstd::std_specs::ops::{AddSpec, MulSpec, NegSpec, SubSpec};
use core::ops::{Add, BitXor, Index, Mul, Neg, Sub};

use super::{Matrix, lemma_view_determines};

verus! {

broadcast use vstd::array::group_array_axioms;

/// The grid that applies `f` to every entry of `rows`.
pub open spec fn map_entries<A, B>(rows: Seq<Seq<A>>, f: spec_fn(A) -> B) -> Seq<Seq<B>> {
    rows.map_values(|row: Seq<A>| row.map_values(f))
}

/// The grid whose entry `(i, j)` is `f` of the entries `(i, j)` of `a` and `b`.
pub open spec fn zip_entries<A, B, C>(a: Seq<Seq<A>>, b: Seq<Seq<B>>, f: spec_fn(A, B) -> C) -> Seq<Seq<C>> {
    Seq::new(a.len(), |i: int| Seq::new(a[i].len(), |j: int| f(a[i][j], b[i][j])))
}

/// The entries of `a` and `b`, paired up position by position.
fn pair_entries<const N: usize, const M: usize, T, U>(a: [[T; M]; N], b: [[U; M]; N]) -> (r: [[(T, U); M]; N])
    ensures
        forall|i: int, j: int| 0 <= i < N && 0 <= j < M ==> #[trigger] r@[i]@[j] == (a@[i]@[j], b@[i]@[j]),
{
    let mut left = a.map(|row: [T; M]| -> (o: [Option<T>; M])
        ensures
            forall|j: int| 0 <= j < M ==> #[trigger] o@[j] == Some(row@[j]),
        {
            row.map(|x: T| -> (o: Option<T>)
                ensures
                    o == Some(x),
                {
                    Some(x)
                })
        });
    let mut right = b.map(|row: [U; M]| -> (o: [Option<U>; M])
        ensures
            forall|j: int| 0 <= j < M ==> #[trigger] o@[j] == Some(row@[j]),
        {
            row.map(|y: U| -> (o: Option<U>)
                ensures
                    o == Some(y),
                {
                    Some(y)
                })
        });
    let mut out: [[Option<(T, U)>; M]; N] = core::array::from_fn(|_i: usize| core::array::from_fn(|_j: usize| None));
    let mut i: usize = 0;
    while i < N
        invariant
            0 <= i <= N,
            forall|k: int, c: int| 0 <= k < i && 0 <= c < M ==> #[trigger] out@[k]@[c] == Some((a@[k]@[c], b@[k]@[c])),
            forall|k: int, c: int| i <= k < N && 0 <= c < M ==> #[trigger] left@[k]@[c] == Some(a@[k]@[c]),
            forall|k: int, c: int| i <= k < N && 0 <= c < M ==> #[trigger] right@[k]@[c] == Some(b@[k]@[c]),
        decreases N - i,
    {
        let mut j: usize = 0;
        while j < M
            invariant
                0 <= i < N,
                0 <= j <= M,
                forall|k: int, c: int| 0 <= k < i && 0 <= c < M ==> #[trigger] out@[k]@[c] == Some((a@[k]@[c], b@[k]@[c])),
                forall|c: int| 0 <= c < j ==> #[trigger] out@[i as int]@[c] == Some((a@[i as int]@[c], b@[i as int]@[c])),
                forall|k: int, c: int| i <= k < N && 0 <= c < M && (k > i || c >= j) ==> #[trigger] left@[k]@[c] == Some(a@[k]@[c]),
                forall|k: int, c: int| i <= k < N && 0 <= c < M && (k > i || c >= j) ==> #[trigger] right@[k]@[c] == Some(b@[k]@[c]),
            decreases M - j,
        {
            let x = left[i][j].take();
            let y = right[i][j].take();
            if let (Some(x), Some(y)) = (x, y) {
                out[i][j] = Some((x, y));
            }
            j += 1;
        }
        i += 1;
    }
    out.map(|row: [Option<(T, U)>; M]| -> (o: [(T, U); M])
        requires
            forall|j: int| 0 <= j < M ==> (#[trigger] row@[j]).is_some(),
        ensures
            forall|j: int| 0 <= j < M ==> Some(#[trigger] o@[j]) == row@[j],
        {
            row.map(|p: Option<(T, U)>| -> (q: (T, U))
                requires
                    p.is_some(),
                ensures
                    Some(q) == p,
                {
                    p.unwrap()
                })
        })
}

impl<const N: usize, const M: usize, T, O> vstd::std_specs::ops::NegSpecImpl for Matrix<N, M, T> where T: Neg<Output = O> {
    open spec fn obeys_neg_spec() -> bool {
        T::obeys_neg_spec()
    }

    open spec fn neg_req(self) -> bool {
        forall|i: int, j: int| 0 <= i < N && 0 <= j < M ==> (#[trigger] self@[i][j]).neg_req()
    }

    open spec fn neg_spec(self) -> Matrix<N, M, O> {
        choose|r: Matrix<N, M, O>| r@ == map_entries(self@, |v: T| v.neg_spec())
    }
}

impl<const N: usize, const M: usize, T, O> Neg for Matrix<N, M, T> where T: Neg<Output = O> {
    type Output = Matrix<N, M, O>;

    /// Negates every entry.
    fn neg(self) -> (r: Matrix<N, M, O>)
        ensures
            forall|i: int, j: int| 0 <= i < N && 0 <= j < M ==> call_ensures(T::neg, (self@[i][j],), #[trigger] r@[i][j]),
            T::obeys_neg_spec() ==> r@ == map_entries(self@, |v: T| v.neg_spec()),
    {
        assert forall|i: int, j: int| 0 <= i < N && 0 <= j < M implies (#[trigger] self.0@[i]@[j]).neg_req() by {
            assert(self@[i][j] == self.0@[i]@[j]);
        }
        let r = Matrix(self.0.map(|row: [T; M]| -> (out: [O; M])
            requires
                forall|j: int| 0 <= j < M ==> (#[trigger] row@[j]).neg_req(),
            ensures
                forall|j: int| 0 <= j < M ==> call_ensures(T::neg, (row@[j],), #[trigger] out@[j]),
            {
                row.map(|v: T| -> (o: O)
                    requires
                        v.neg_req(),
                    ensures
                        call_ensures(T::neg, (v,), o),
                    {
                        v.neg()
                    })
            }));
        assert forall|i: int, j: int| 0 <= i < N && 0 <= j < M implies call_ensures(T::neg, (self@[i][j],), #[trigger] r@[i][j]) by {
            assert(r@[i][j] == r.0@[i]@[j]);
            assert(self@[i][j] == self.0@[i]@[j]);
        }
        proof {
            if T::obeys_neg_spec() {
                assert(r@ =~~= map_entries(self@, |v: T| v.neg_spec()));
                let target = map_entries(self@, |v: T| v.neg_spec());
                let c = choose|c: Matrix<N, M, O>| c@ == target;
                lemma_view_determines(r, c);
            }
        }
        r
    }
}

impl<const N: usize, const M: usize, T, U, O> vstd::std_specs::ops::MulSpecImpl<U> for Matrix<N, M, T> where
    T: Mul<U, Output = O>,
    U: Copy,
 {
    open spec fn obeys_mul_spec() -> bool {
        <T as MulSpec<U>>::obeys_mul_spec()
    }

    open spec fn mul_req(self, rhs: U) -> bool {
        forall|i: int, j: int| 0 <= i < N && 0 <= j < M ==> (#[trigger] self@[i][j]).mul_req(rhs)
    }

    open spec fn mul_spec(self, rhs: U) -> Matrix<N, M, O> {
        choose|r: Matrix<N, M, O>| r@ == map_entries(self@, |v: T| v.mul_spec(rhs))
    }
}

impl<const N: usize, const M: usize, T, U, O> Mul<U> for Matrix<N, M, T> where
    T: Mul<U, Output = O>,
    U: Copy,
 {
    type Output = Matrix<N, M, O>;

    /// Multiplies every entry by `rhs`.
    fn mul(self, rhs: U) -> (r: Matrix<N, M, O>)
        ensures
            forall|i: int, j: int| 0 <= i < N && 0 <= j < M ==> call_ensures(T::mul, (self@[i][j], rhs), #[trigger] r@[i][j]),
            <T as MulSpec<U>>::obeys_mul_spec() ==> r@ == map_entries(self@, |v: T| v.mul_spec(rhs)),
    {
        assert forall|i: int, j: int| 0 <= i < N && 0 <= j < M implies (#[trigger] self.0@[i]@[j]).mul_req(rhs) by {
            assert(self@[i][j] == self.0@[i]@[j]);
        }
        let r = Matrix(self.0.map(|row: [T; M]| -> (out: [O; M])
            requires
                forall|j: int| 0 <= j < M ==> (#[trigger] row@[j]).mul_req(rhs),
            ensures
                forall|j: int| 0 <= j < M ==> call_ensures(T::mul, (row@[j], rhs), #[trigger] out@[j]),
            {
                row.map(|v: T| -> (o: O)
                    requires
                        v.mul_req(rhs),
                    ensures
                        call_ensures(T::mul, (v, rhs), o),
                    {
                        v.mul(rhs)
                    })
            }));
        assert forall|i: int, j: int| 0 <= i < N && 0 <= j < M implies call_ensures(T::mul, (self@[i][j], rhs), #[trigger] r@[i][j]) by {
            assert(r@[i][j] == r.0@[i]@[j]);
            assert(self@[i][j] == self.0@[i]@[j]);
        }
        proof {
            if <T as MulSpec<U>>::obeys_mul_spec() {
                let target = map_entries(self@, |v: T| v.mul_spec(rhs));
                assert(r@ =~~= target);
                let c = choose|c: Matrix<N, M, O>| c@ == target;
                lemma_view_determines(r, c);
            }
        }
        r
    }
}

impl<const N: usize, const M: usize, T, U, O> vstd::std_specs::ops::AddSpecImpl<Matrix<N, M, U>> for Matrix<N, M, T> where
    T: Add<U, Output = O>,
 {
    open spec fn obeys_add_spec() -> bool {
        <T as AddSpec<U>>::obeys_add_spec()
    }

    open spec fn add_req(self, rhs: Matrix<N, M, U>) -> bool {
        forall|i: int, j: int| 0 <= i < N && 0 <= j < M ==> (#[trigger] self@[i][j]).add_req(rhs@[i][j])
    }

    open spec fn add_spec(self, rhs: Matrix<N, M, U>) -> Matrix<N, M, O> {
        choose|r: Matrix<N, M, O>| r@ == zip_entries(self@, rhs@, |a: T, b: U| a.add_spec(b))
    }
}

impl<const N: usize, const M: usize, T, U, O> Add<Matrix<N, M, U>> for Matrix<N, M, T> where
    T: Add<U, Output = O>,
 {
    type Output = Matrix<N, M, O>;

    /// Adds the matrices entry by entry.
    fn add(self, rhs: Matrix<N, M, U>) -> (r: Matrix<N, M, O>)
        ensures
            forall|i: int, j: int| 0 <= i < N && 0 <= j < M ==> call_ensures(T::add, (self@[i][j], rhs@[i][j]), #[trigger] r@[i][j]),
            <T as AddSpec<U>>::obeys_add_spec() ==> r@ == zip_entries(self@, rhs@, |a: T, b: U| a.add_spec(b)),
    {
        let pairs = pair_entries(self.0, rhs.0);
        assert forall|i: int, j: int| 0 <= i < N && 0 <= j < M implies (#[trigger] pairs@[i]@[j]).0.add_req(pairs@[i]@[j].1) by {
            assert(self@[i][j] == self.0@[i]@[j]);
            assert(rhs@[i][j] == rhs.0@[i]@[j]);
        }
        let r = Matrix(pairs.map(|row: [(T, U); M]| -> (out: [O; M])
            requires
                forall|j: int| 0 <= j < M ==> (#[trigger] row@[j]).0.add_req(row@[j].1),
            ensures
                forall|j: int| 0 <= j < M ==> call_ensures(T::add, (row@[j].0, row@[j].1), #[trigger] out@[j]),
            {
                row.map(|p: (T, U)| -> (o: O)
                    requires
                        p.0.add_req(p.1),
                    ensures
                        call_ensures(T::add, (p.0, p.1), o),
                    {
                        let (x, y) = p;
                        x.add(y)
                    })
            }));
        assert forall|i: int, j: int| 0 <= i < N && 0 <= j < M implies call_ensures(T::add, (self@[i][j], rhs@[i][j]), #[trigger] r@[i][j]) by {
            assert(r@[i][j] == r.0@[i]@[j]);
            assert(self@[i][j] == self.0@[i]@[j]);
            assert(rhs@[i][j] == rhs.0@[i]@[j]);
            assert(pairs@[i]@[j] == (self.0@[i]@[j], rhs.0@[i]@[j]));
        }
        proof {
            if <T as AddSpec<U>>::obeys_add_spec() {
                let target = zip_entries(self@, rhs@, |a: T, b: U| a.add_spec(b));
                assert(r@ =~~= target);
                let c = choose|c: Matrix<N, M, O>| c@ == target;
                lemma_view_determines(r, c);
            }
        }
        r
    }
}

impl<const N: usize, const M: usize, T, U, O> vstd::std_specs::ops::SubSpecImpl<Matrix<N, M, U>> for Matrix<N, M, T> where
    T: Sub<U, Output = O>,
 {
    open spec fn obeys_sub_spec() -> bool {
        <T as SubSpec<U>>::obeys_sub_spec()
    }

    open spec fn sub_req(self, rhs: Matrix<N, M, U>) -> bool {
        forall|i: int, j: int| 0 <= i < N && 0 <= j < M ==> (#[trigger] self@[i][j]).sub_req(rhs@[i][j])
    }

    open spec fn sub_spec(self, rhs: Matrix<N, M, U>) -> Matrix<N, M, O> {
        choose|r: Matrix<N, M, O>| r@ == zip_entries(self@, rhs@, |a: T, b: U| a.sub_spec(b))
    }
}

impl<const N: usize, const M: usize, T, U, O> Sub<Matrix<N, M, U>> for Matrix<N, M, T> where
    T: Sub<U, Output = O>,
 {
    type Output = Matrix<N, M, O>;

    /// Subtracts `rhs` from the matrix entry by entry.
    fn sub(self, rhs: Matrix<N, M, U>) -> (r: Matrix<N, M, O>)
        ensures
            forall|i: int, j: int| 0 <= i < N && 0 <= j < M ==> call_ensures(T::sub, (self@[i][j], rhs@[i][j]), #[trigger] r@[i][j]),
            <T as SubSpec<U>>::obeys_sub_spec() ==> r@ == zip_entries(self@, rhs@, |a: T, b: U| a.sub_spec(b)),
    {
        let pairs = pair_entries(self.0, rhs.0);
        assert forall|i: int, j: int| 0 <= i < N && 0 <= j < M implies (#[trigger] pairs@[i]@[j]).0.sub_req(pairs@[i]@[j].1) by {
            assert(self@[i][j] == self.0@[i]@[j]);
            assert(rhs@[i][j] == rhs.0@[i]@[j]);
        }
        let r = Matrix(pairs.map(|row: [(T, U); M]| -> (out: [O; M])
            requires
                forall|j: int| 0 <= j < M ==> (#[trigger] row@[j]).0.sub_req(row@[j].1),
            ensures
                forall|j: int| 0 <= j < M ==> call_ensures(T::sub, (row@[j].0, row@[j].1), #[trigger] out@[j]),
            {
                row.map(|p: (T, U)| -> (o: O)
                    requires
                        p.0.sub_req(p.1),
                    ensures
                        call_ensures(T::sub, (p.0, p.1), o),
                    {
                        let (x, y) = p;
                        x.sub(y)
                    })
            }));
        assert forall|i: int, j: int| 0 <= i < N && 0 <= j < M implies call_ensures(T::sub, (self@[i][j], rhs@[i][j]), #[trigger] r@[i][j]) by {
            assert(r@[i][j] == r.0@[i]@[j]);
            assert(self@[i][j] == self.0@[i]@[j]);
            assert(rhs@[i][j] == rhs.0@[i]@[j]);
            assert(pairs@[i]@[j] == (self.0@[i]@[j], rhs.0@[i]@[j]));
        }
        proof {
            if <T as SubSpec<U>>::obeys_sub_spec() {
                let target = zip_entries(self@, rhs@, |a: T, b: U| a.sub_spec(b));
                assert(r@ =~~= target);
                let c = choose|c: Matrix<N, M, O>| c@ == target;
                lemma_view_determines(r, c);
            }
        }
        r
    }
}

/// Entry `j` of each row of `rows`: column `j` of the grid, top to bottom.
pub open spec fn column_at<T>(rows: Seq<Seq<T>>, j: int) -> Seq<T> {
    rows.map_values(|row: Seq<T>| row[j])
}

/// `init` plus the products `a[k] * b[k]` for `k` below `len`, added in order
/// of `k`.
pub open spec fn dot_from<T, U, P>(init: P, a: Seq<T>, b: Seq<U>, len: nat) -> P where
    T: Mul<U, Output = P>,
    P: Add<P, Output = P>,
    decreases len,
{
    if len == 0 {
        init
    } else {
        dot_from(init, a, b, (len - 1) as nat).add_spec(a[len - 1].mul_spec(b[len - 1]))
    }
}

/// Each addition in `dot_from(init, a, b, len)` is allowed by `add_req`.
pub open spec fn dot_fits<T, U, P>(init: P, a: Seq<T>, b: Seq<U>, len: nat) -> bool where
    T: Mul<U, Output = P>,
    P: Add<P, Output = P>,
 {
    forall|k: nat| k < len ==> (#[trigger] dot_from(init, a, b, k)).add_req(a[k as int].mul_spec(b[k as int]))
}

/// Products and sums of the entry types follow their specifications.
pub open spec fn entries_obey<T, U, P>() -> bool where
    T: Mul<U, Output = P>,
    P: Add<P, Output = P>,
 {
    <T as MulSpec<U>>::obeys_mul_spec() && <P as AddSpec<P>>::obeys_add_spec()
}

/// Adding to `before` the product of `x` and `y`, as `*` and `+` compute
/// them, gives `after`.
pub open spec fn adds_product<T, U, P>(before: P, x: T, y: U, after: P) -> bool where
    T: Mul<U, Output = P>,
    P: Add<P, Output = P>,
 {
    exists|p: P| call_ensures(T::mul, (x, y), p) && call_ensures(P::add, (before, p), after)
}

/// Step `k` of the running sums `acc`: `acc[k + 1]` is `acc[k]` plus
/// `a[k] * b[k]`.
pub open spec fn sum_step<T, U, P>(acc: Seq<P>, a: Seq<T>, b: Seq<U>, k: int) -> bool where
    T: Mul<U, Output = P>,
    P: Add<P, Output = P>,
 {
    adds_product(acc[k], a[k], b[k], acc[k + 1])
}

/// `acc` holds the running sums of the products `a[k] * b[k]` for `k` below
/// `len`, starting from `P::default()` and adding in order of `k`.
pub open spec fn is_running_sum<T, U, P>(acc: Seq<P>, a: Seq<T>, b: Seq<U>, len: nat) -> bool where
    T: Mul<U, Output = P>,
    P: Add<P, Output = P> + Default,
 {
    &&& acc.len() == len + 1
    &&& call_ensures(P::default, (), acc[0])
    &&& forall|k: int| 0 <= k < len ==> #[trigger] sum_step(acc, a, b, k)
}

/// `v` is `P::default()` plus the products `a[k] * b[k]` for `k` below
/// `len`, added in order of `k`, as `*` and `+` compute them; where products
/// and sums follow their specifications, `v` is the sum they specify.
pub open spec fn is_dot<T, U, P>(v: P, a: Seq<T>, b: Seq<U>, len: nat) -> bool where
    T: Mul<U, Output = P>,
    P: Add<P, Output = P> + Default,
 {
    &&& exists|acc: Seq<P>| #[trigger] is_running_sum(acc, a, b, len) && acc[len as int] == v
    &&& entries_obey::<T, U, P>() ==> exists|d: P| call_ensures(P::default, (), d) && v == dot_from(d, a, b, len)
}

/// Every entry `(i, j)` of `g` is row `i` of `a` times column `j` of `b`
/// (see `is_dot`), for an `n` by `m` grid `g` and rows of length `len`.
pub open spec fn is_product_grid<T, U, P>(g: Seq<Seq<P>>, a: Seq<Seq<T>>, b: Seq<Seq<U>>, n: nat, len: nat, m: nat) -> bool where
    T: Mul<U, Output = P>,
    P: Add<P, Output = P> + Default,
 {
    forall|i: int, j: int| 0 <= i < n && 0 <= j < m ==> is_dot(#[trigger] g[i][j], a[i], column_at(b, j), len)
}

/// Row `i` of `a` times column `j` of `b`, summed from `P::default()`.
fn entry_product<const A: usize, const B: usize, const C: usize, T, U, P>(a: &Matrix<A, B, T>, b: &Matrix<B, C, U>, i: usize, j: usize) -> (v: P) where
    T: Mul<U, Output = P> + Copy,
    U: Copy,
    P: Add<P, Output = P> + Default,
    requires
        i < A,
        j < C,
        forall|k: int| 0 <= k < B ==> (#[trigger] a@[i as int][k]).mul_req(b@[k][j as int]),
        entries_obey::<T, U, P>() ==> forall|d: P| call_ensures(P::default, (), d) ==> #[trigger] dot_fits(d, a@[i as int], column_at(b@, j as int), B as nat),
        !entries_obey::<T, U, P>() ==> forall|x: P, y: P| #[trigger] x.add_req(y),
    ensures
        is_dot(v, a@[i as int], column_at(b@, j as int), B as nat),
{
    let ghost row = a@[i as int];
    let ghost col = column_at(b@, j as int);
    let mut acc = P::default();
    let ghost d = acc;
    let ghost mut sums: Seq<P> = seq![acc];
    let mut k: usize = 0;
    while k < B
        invariant
            k <= B,
            is_running_sum(sums, row, col, k as nat),
            sums[k as int] == acc,
            i < A,
            j < C,
            row == a@[i as int],
            col == column_at(b@, j as int),
            call_ensures(P::default, (), d),
            entries_obey::<T, U, P>() ==> acc == dot_from(d, row, col, k as nat),
            forall|q: int| 0 <= q < B ==> (#[trigger] a@[i as int][q]).mul_req(b@[q][j as int]),
            entries_obey::<T, U, P>() ==> dot_fits(d, row, col, B as nat),
            !entries_obey::<T, U, P>() ==> forall|x: P, y: P| #[trigger] x.add_req(y),
        decreases B - k,
    {
        assert(a@[i as int][k as int] == a.0@[i as int]@[k as int]);
        assert(b@[k as int][j as int] == b.0@[k as int]@[j as int]);
        let p = a.0[i][k].mul(b.0[k][j]);
        proof {
            if entries_obey::<T, U, P>() {
                assert(col[k as int] == b@[k as int][j as int]);
                assert(dot_from(d, row, col, k as nat).add_req(row[k as int].mul_spec(col[k as int])));
            }
        }
        let next = acc.add(p);
        proof {
            assert(col[k as int] == b@[k as int][j as int]);
            let before = sums;
            sums = sums.push(next);
            assert(sum_step(sums, row, col, k as int));
            assert forall|q: int| 0 <= q < k + 1 implies #[trigger] sum_step(sums, row, col, q) by {
                if q < k {
                    assert(sum_step(before, row, col, q));
                    assert(sums[q] == before[q] && sums[q + 1] == before[q + 1]);
                }
            }
        }
        acc = next;
        k = k + 1;
    }
    acc
}

impl<const A: usize, const B: usize, T> Matrix<A, B, T> {
    /// The matrix product of `self` and `rhs`: entry `(i, j)` is `P::default()`
    /// plus the products of row `i` of `self` with column `j` of `rhs`, added in
    /// order of the column.
    fn product<const C: usize, U, P>(self, rhs: Matrix<B, C, U>) -> (r: Matrix<A, C, P>) where
        T: Mul<U, Output = P> + Copy,
        U: Copy,
        P: Add<P, Output = P> + Default,
        requires
            product_allowed::<T, U, P>(self@, rhs@, A as nat, B as nat, C as nat),
        ensures
            is_product_grid(r@, self@, rhs@, A as nat, B as nat, C as nat),
    {
        let r = Matrix(core::array::from_fn(|i: usize| -> (row: [P; C])
            requires
                i < A,
            ensures
                forall|j: int| 0 <= j < C ==> is_dot(#[trigger] row@[j], self@[i as int], column_at(rhs@, j), B as nat),
            {
                core::array::from_fn(|j: usize| -> (v: P)
                    requires
                        j < C,
                    ensures
                        is_dot(v, self@[i as int], column_at(rhs@, j as int), B as nat),
                    {
                        entry_product(&self, &rhs, i, j)
                    })
            }));
        assert forall|i: int, j: int| 0 <= i < A && 0 <= j < C implies is_dot(#[trigger] r@[i][j], self@[i], column_at(rhs@, j), B as nat) by {
            assert(r@[i][j] == r.0@[i]@[j]);
        }
        r
    }
}

/// A type whose values can be summed, starting from `Default::default()`:
/// every type with `+` on itself and a default value.
pub trait Summable: Add<Self, Output = Self> + Default + Sized {}

impl<P: Add<P, Output = P> + Default> Summable for P {}

impl<const A: usize, const B: usize, const C: usize, T, U, P> vstd::std_specs::ops::BitXorSpecImpl<Matrix<B, C, U>> for Matrix<A, B, T> where
    T: Mul<U, Output = P> + Copy,
    U: Copy,
    P: Summable,
 {
    open spec fn obeys_bitxor_spec() -> bool {
        false
    }

    open spec fn bitxor_req(self, rhs: Matrix<B, C, U>) -> bool {
        product_allowed::<T, U, P>(self@, rhs@, A as nat, B as nat, C as nat)
    }

    open spec fn bitxor_spec(self, rhs: Matrix<B, C, U>) -> Matrix<A, C, P> {
        choose|r: Matrix<A, C, P>| is_product_grid(r@, self@, rhs@, A as nat, B as nat, C as nat)
    }
}

impl<const A: usize, const B: usize, const C: usize, T, U, P> BitXor<Matrix<B, C, U>> for Matrix<A, B, T> where
    T: Mul<U, Output = P> + Copy,
    U: Copy,
    P: Summable,
 {
    type Output = Matrix<A, C, P>;

    /// The matrix product of `self` and `rhs`: entry `(i, j)` is `P::default()`
    /// plus the products of row `i` of `self` with column `j` of `rhs`, added in
    /// order of the column.
    fn bitxor(self, rhs: Matrix<B, C, U>) -> (r: Matrix<A, C, P>)
        ensures
            is_product_grid(r@, self@, rhs@, A as nat, B as nat, C as nat),
    {
        self.product(rhs)
    }
}

/// The entries of `a` and `b` can be multiplied and their products summed
/// for every entry of the product of an `n` by `len` and a `len` by `m`
/// matrix.
pub open spec fn product_allowed<T, U, P>(a: Seq<Seq<T>>, b: Seq<Seq<U>>, n: nat, len: nat, m: nat) -> bool where
    T: Mul<U, Output = P>,
    P: Add<P, Output = P> + Default,
 {
    &&& forall|i: int, k: int, j: int| 0 <= i < n && 0 <= k < len && 0 <= j < m ==> (#[trigger] a[i][k]).mul_req(#[trigger] b[k][j])
    &&& entries_obey::<T, U, P>() ==> forall|d: P, i: int, j: int| 0 <= i < n && 0 <= j < m && call_ensures(P::default, (), d) ==> #[trigger] dot_fits(d, a[i], column_at(b, j), len)
    &&& !entries_obey::<T, U, P>() ==> forall|x: P, y: P| #[trigger] x.add_req(y)
}

impl<const N: usize, const M: usize, T> Matrix<N, M, T> {
    /// Adds `rhs` into the matrix, entry by entry.
    pub fn add_assign<U>(&mut self, rhs: Matrix<N, M, U>) where
        T: Add<U, Output = T> + Copy,
        requires
            forall|i: int, j: int| 0 <= i < N && 0 <= j < M ==> (#[trigger] old(self)@[i][j]).add_req(rhs@[i][j]),
        ensures
            forall|i: int, j: int| 0 <= i < N && 0 <= j < M ==> call_ensures(T::add, (old(self)@[i][j], rhs@[i][j]), #[trigger] final(self)@[i][j]),
            <T as AddSpec<U>>::obeys_add_spec() ==> final(self)@ == zip_entries(old(self)@, rhs@, |a: T, b: U| a.add_spec(b)),
    {
        *self = (*self).add(rhs);
    }

    /// Subtracts `rhs` from the matrix, entry by entry.
    pub fn sub_assign<U>(&mut self, rhs: Matrix<N, M, U>) where
        T: Sub<U, Output = T> + Copy,
        requires
            forall|i: int, j: int| 0 <= i < N && 0 <= j < M ==> (#[trigger] old(self)@[i][j]).sub_req(rhs@[i][j]),
        ensures
            forall|i: int, j: int| 0 <= i < N && 0 <= j < M ==> call_ensures(T::sub, (old(self)@[i][j], rhs@[i][j]), #[trigger] final(self)@[i][j]),
            <T as SubSpec<U>>::obeys_sub_spec() ==> final(self)@ == zip_entries(old(self)@, rhs@, |a: T, b: U| a.sub_spec(b)),
    {
        *self = (*self).sub(rhs);
    }

    /// Multiplies the matrix by `rhs`, entry by entry.
    pub fn mul_assign<U>(&mut self, rhs: Matrix<N, M, U>) where
        T: Mul<U, Output = T> + Copy,
        requires
            forall|i: int, j: int| 0 <= i < N && 0 <= j < M ==> (#[trigger] old(self)@[i][j]).mul_req(rhs@[i][j]),
        ensures
            forall|i: int, j: int| 0 <= i < N && 0 <= j < M ==> call_ensures(T::mul, (old(self)@[i][j], rhs@[i][j]), #[trigger] final(self)@[i][j]),
            <T as MulSpec<U>>::obeys_mul_spec() ==> final(self)@ == zip_entries(old(self)@, rhs@, |a: T, b: U| a.mul_spec(b)),
    {
        let cur = *self;
        let pairs = pair_entries(cur.0, rhs.0);
        assert forall|i: int, j: int| 0 <= i < N && 0 <= j < M implies (#[trigger] pairs@[i]@[j]).0.mul_req(pairs@[i]@[j].1) by {
            assert(cur@[i][j] == cur.0@[i]@[j]);
            assert(rhs@[i][j] == rhs.0@[i]@[j]);
        }
        let r = Matrix(pairs.map(|row: [(T, U); M]| -> (out: [T; M])
            requires
                forall|j: int| 0 <= j < M ==> (#[trigger] row@[j]).0.mul_req(row@[j].1),
            ensures
                forall|j: int| 0 <= j < M ==> call_ensures(T::mul, (row@[j].0, row@[j].1), #[trigger] out@[j]),
            {
                row.map(|p: (T, U)| -> (o: T)
                    requires
                        p.0.mul_req(p.1),
                    ensures
                        call_ensures(T::mul, (p.0, p.1), o),
                    {
                        let (x, y) = p;
                        x.mul(y)
                    })
            }));
        assert forall|i: int, j: int| 0 <= i < N && 0 <= j < M implies call_ensures(T::mul, (cur@[i][j], rhs@[i][j]), #[trigger] r@[i][j]) by {
            assert(r@[i][j] == r.0@[i]@[j]);
            assert(cur@[i][j] == cur.0@[i]@[j]);
            assert(rhs@[i][j] == rhs.0@[i]@[j]);
            assert(pairs@[i]@[j] == (cur.0@[i]@[j], rhs.0@[i]@[j]));
        }
        assert(<T as MulSpec<U>>::obeys_mul_spec() ==> r@ =~~= zip_entries(cur@, rhs@, |a: T, b: U| a.mul_spec(b)));
        *self = r;
    }

    /// The entry in row `index.0` and column `index.1`, for writing.
    pub fn index_mut(&mut self, index: (usize, usize)) -> (r: &mut T)
        requires
            index.0 < N,
            index.1 < M,
        ensures
            *r == old(self)@[index.0 as int][index.1 as int],
            final(self)@ == old(self)@.update(index.0 as int, old(self)@[index.0 as int].update(index.1 as int, *final(r))),
    {
        &mut self.0[index.0][index.1]
    }
}

impl<const N: usize, T> Matrix<N, N, T> {
    /// Replaces the matrix by its product with `rhs`.
    pub fn bitxor_assign(&mut self, rhs: Matrix<N, N, T>) where
        T: Mul<T, Output = T> + Add<T, Output = T> + Default + Copy,
        requires
            forall|i: int, k: int, j: int| 0 <= i < N && 0 <= k < N && 0 <= j < N ==> (#[trigger] old(self)@[i][k]).mul_req(#[trigger] rhs@[k][j]),
            entries_obey::<T, T, T>() ==> forall|d: T, i: int, j: int| 0 <= i < N && 0 <= j < N && call_ensures(T::default, (), d) ==> #[trigger] dot_fits(d, old(self)@[i], column_at(rhs@, j), N as nat),
            !entries_obey::<T, T, T>() ==> forall|x: T, y: T| #[trigger] x.add_req(y),
        ensures
            is_product_grid(final(self)@, old(self)@, rhs@, N as nat, N as nat, N as nat),
    {
        *self = (*self).product(rhs);
    }
}

impl<const N: usize, const M: usize, T> vstd::std_specs::core::IndexSpecImpl<(usize, usize)> for Matrix<N, M, T> {
    open spec fn index_req(&self, index: &(usize, usize)) -> bool {
        index.0 < N && index.1 < M
    }
}

impl<const N: usize, const M: usize, T> Index<(usize, usize)> for Matrix<N, M, T> {
    type Output = T;

    /// The entry in row `index.0` and column `index.1`.
    fn index(&self, index: (usize, usize)) -> (r: &T)
        ensures
            *r == self@[index.0 as int][index.1 as int],
    {
        &self.0[index.0][index.1]
    }
}

}
