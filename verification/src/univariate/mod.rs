pub mod bracket;
pub mod fibonacci;
pub mod slope;
