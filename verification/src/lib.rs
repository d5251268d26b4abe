//! Mutation-only evolutionary search for compact representations of boolean
//! vector functions: lookup tables, sum-of-products logic arrays and threshold
//! networks, each scored against a target function over its whole input space.

pub mod bitspace;
pub mod cell;
pub mod digital;
pub mod genetic;
pub mod neural;
mod random;
pub mod text;
pub mod universe;
