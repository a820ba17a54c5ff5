use vstd::prelude::*;

verus! {

/// A problem of `N` variables with `M` equality constraints: minimize `f`
/// subject to `h` being zero.
pub struct EqualityConstrainedProblem<const N: usize, const M: usize, F, H> {
    pub f: F,
    pub h: H,
}

}
