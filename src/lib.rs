//! A minimax solver for the code-breaking peg puzzle: scoring, candidate
//! filtering, worst-case guess selection, an adversarial feedback oracle,
//! game sessions and an exhaustive harness.
pub mod types;
pub mod score;
pub mod space;
pub mod filter;
pub mod solver;
pub mod solve;
pub mod session;
pub mod input;
