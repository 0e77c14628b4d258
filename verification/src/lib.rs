//! Core logic for making `git bisect` usable on repositories whose merge
//! workflow squashes or rebases pull-request commits into the main line.
//!
//! Given a known-good and a known-bad revision, the library resolves the
//! first-parent commit range between them, intersects it with the merged
//! pull requests of the repository's hosting provider, and turns the result
//! into an ordered, deterministic sequence of skip instructions.

pub mod decimal;
pub mod bisect;
pub mod config;
pub mod errors;
pub mod git;
pub mod host;
