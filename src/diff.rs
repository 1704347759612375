//! Unified-diff parsing, minimization, chunking and review tracking.
pub mod processor;
pub mod round_trip;
pub mod save;
pub mod types;
