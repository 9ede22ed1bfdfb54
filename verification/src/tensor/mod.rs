//! Tensor expressions.
pub mod expr;
pub mod index;
pub mod meaning;
pub mod ops;
pub mod places;
pub mod plan;
pub mod scalar;
pub mod shape;
pub mod size_laws;
pub mod term;
pub mod typing;
