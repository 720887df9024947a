//! Verified core of `praude`, a batch-style wrapper around an interactive
//! coding-assistant CLI.

pub mod text;
pub mod args;
pub mod json;
pub mod hooks;
pub mod usage;
pub mod transcript;
pub mod runner;
pub mod env;
pub mod trust;
pub mod cli;
