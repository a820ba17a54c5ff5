use vstd::prelude::*;

verus! {

/// Newton-Raphson for quadratic programs with `M` equality constraints on `N`
/// variables.
pub struct NewtonRaphsonQP<const N: usize, const M: usize>;

}
