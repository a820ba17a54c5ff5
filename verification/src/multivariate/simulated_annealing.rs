use vstd::prelude::*;

verus! {

/// Simulated Annealing optimization problem
pub struct SAProblem<F, N> {
    /// Cost function to minimize (often called energy function)
    pub cost_function: F,
    /// Neighbor generation function
    pub neighbor_function: N,
}

}
