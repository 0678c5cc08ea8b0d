//! Fuzzy-logic primitives: norms and membership functions.

pub mod membership;
pub mod norm;
