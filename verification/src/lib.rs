pub mod function;
pub mod functions;
pub mod helpers;
pub mod linalg;
pub mod multivariate;
pub mod optimizer;
pub mod quadratic;
pub mod univariate;
