pub mod active_set;
pub mod branch_bound;
pub mod constrained;
pub mod dynamic_programming;
pub mod genetic;
pub mod simplex;
pub mod simulated_annealing;
pub mod sqp;
