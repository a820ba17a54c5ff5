use vstd::prelude::*;

verus! {

/// A function from `X` to `Y`.
pub trait Function<X, Y> {
    /// Whether the function can be computed at `point`: everywhere, unless
    /// an implementation says otherwise.
    open spec fn defined_at(&self, point: X) -> bool {
        true
    }

    /// The value of the function at `point`.
    fn compute(&self, point: X) -> Y
        requires
            self.defined_at(point),
    ;
}

impl<'a, X, Y> Function<X, Y> for Box<dyn Function<X, Y> + 'a> {
    open spec fn defined_at(&self, point: X) -> bool {
        (**self).defined_at(point)
    }

    /// The value of the boxed function at `point`.
    fn compute(&self, point: X) -> Y {
        (**self).compute(point)
    }
}

impl<F, X, Y> Function<X, Y> for F where F: Fn(X) -> Y {
    open spec fn defined_at(&self, point: X) -> bool {
        call_requires(*self, (point,))
    }

    /// The value of the closure at `point`.
    fn compute(&self, point: X) -> (y: Y)
        ensures
            call_ensures(*self, (point,), y),
    {
        self(point)
    }
}

impl<const N: usize, F, X, Y> Function<X, [Y; N]> for [F; N] where F: Function<X, Y>, X: Copy {
    open spec fn defined_at(&self, point: X) -> bool {
        forall|i: int| 0 <= i < N ==> (#[trigger] self@[i]).defined_at(point)
    }

    /// The values of the `N` functions at `point`, in order.
    fn compute(&self, point: X) -> (ys: [Y; N])
        ensures
            forall|i: int| 0 <= i < N ==> call_ensures(F::compute, (&self@[i], point), #[trigger] ys@[i]),
    {
        core::array::from_fn(|i: usize| -> (y: Y)
            requires
                i < N,
                self.defined_at(point),
            ensures
                call_ensures(F::compute, (&self@[i as int], point), y),
        {
            self[i].compute(point)
        })
    }
}

/// A function from `X` to `X` whose derivative can be computed numerically.
pub trait Derivative<X>: Function<X, X> {
    /// The derivative function.
    type Result: Function<X, X>;

    /// The derivative, by central differences of half-width `difference`.
    fn derivative(&self, difference: X) -> Self::Result;
}

/// A function of `N` variables whose partial derivatives can be computed
/// numerically.
pub trait Gradient<const N: usize, X> {
    /// The `N` partial derivatives, by central differences of half-width
    /// `difference`.
    fn gradient(&self, difference: X) -> [Box<dyn Function<[X; N], X> + '_>; N];
}

}
