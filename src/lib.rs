//! Packaging and installation of skill bundles: pattern matching, skill
//! discovery, pack resolution, install naming and install reconciliation.
pub mod text;
pub mod patterns;
pub mod errors;
pub mod util;
pub mod git;
pub mod sort;
pub mod discover;
pub mod pack;
pub mod resolve;
pub mod state;
pub mod install;
pub mod config;
pub mod output;
pub mod laws;
