//! Reading the outcome of `git` and `gh`.
pub mod runner;
