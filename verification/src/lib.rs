//! A small test runner: named shell scripts, each with the standard output it
//! is expected to print, are judged against what executing them yielded, and
//! the verdicts are reported with a line diff for every failure.
//!
//! Executing a script and reading a configuration file are left to the caller.
//! Everything that decides something lives here, with a contract.
pub mod compose;
pub mod diff;
pub mod entries;
pub mod lines;
pub mod model;
pub mod registry;
pub mod report;
pub mod runner;
pub mod style;
pub mod text;

pub use crate::model::{Manager, Outcome, Test, TestResult, Workspace};
