//! Adaptive flashcard drill: a recency-weighted answer history per card, and a
//! scheduler that keeps weak cards near the front of its sequence.
pub mod utils;
pub mod problem_manager;
