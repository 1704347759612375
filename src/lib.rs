//! Token-efficient rendering of unified diffs, durable review tracking of
//! diff chunks, and the configuration and naming helpers around them.
use vstd::prelude::*;

pub mod config;
pub mod diff;
pub mod kiro;
pub mod text;
pub mod vcs_path;

verus! {

} // verus!
