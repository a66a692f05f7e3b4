//! prio: a stacked-PR manager that merges branches up instead of rebasing.
//!
//! This crate holds the decision logic of prio: how git output is read, how the
//! per-repository state evolves, how branches are ordered, moved and reported.
//! The programs that run `git` and `gh`, read and write files and talk to the
//! terminal live outside the library and hand it plain values.
pub mod strings;
pub mod seqs;
pub mod util;
pub mod error;
pub mod logger;
pub mod result;
pub mod storage;
pub mod git;
pub mod json;
pub mod services;
pub mod hooks;
pub mod cli;
