use vstd::prelude::*;

verus! {

/// The simplex method, run until `stopping_condition` says to stop.
#[derive(Clone)]
pub struct Simplex<S> {
    stopping_condition: S,
}

impl<S> Simplex<S> {
    /// The simplex method with the given stopping condition.
    pub fn new(stopping_condition: S) -> (r: Self)
        ensures
            r.condition() == stopping_condition,
    {
        Self { stopping_condition }
    }

    /// The stopping condition of the method.
    pub closed spec fn condition(&self) -> S {
        self.stopping_condition
    }

    /// The stopping condition of the method.
    pub fn stopping_condition(&self) -> (r: &S)
        ensures
            *r == self.condition(),
    {
        &self.stopping_condition
    }
}

}
