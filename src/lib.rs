//! A dynamic, dimension-parametric spatial tree holding points at its leaves.

pub mod point;
pub mod tree;
