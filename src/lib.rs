//! Witness derivation for layered product and logup arguments over the
//! Goldilocks field and its quadratic extension.
pub mod field;
pub mod column;
pub mod tower;
pub mod interleave;
pub mod expression;
pub mod pool;
pub mod evaluator;
pub mod digest;
