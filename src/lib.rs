//! A fixed-depth negamax chess search with alpha-beta pruning, a piece-square
//! evaluator, a bounded transposition cache and a repetition guard.
//!
//! Board representation and move generation come from the `chess` crate; the
//! search, the evaluation, the scoring rules and the cache discipline are
//! verified here against a plain-value model of a position.
pub mod cache;
pub mod evaluation;
pub mod position;
pub mod repetition;
pub mod search;
