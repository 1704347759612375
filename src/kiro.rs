//! Naming helpers of the PR draft workflow: branch names, display names and
//! time expressions.
pub mod commands;
pub mod git;
pub mod plugin;
pub mod slug;
