//! A backtracking virtual machine for compiled regular-expression bytecode.
//!
//! An external compiler turns a pattern string into a sequence of unsigned
//! 32-bit opcode words with a leading version tag.  This crate interprets
//! such a program against a subject byte sequence: it validates the program
//! and its group metadata into a shareable [`pattern::PatternObject`], runs
//! anchored and scanning match attempts with explicit backtracking, bounded
//! repetition, capturing groups, backreferences and lookaround, and reports
//! successful attempts as immutable [`capture::MatchResult`] snapshots.
//!
//! The interpreter is specified by a ghost small-step machine in [`model`]:
//! every executable entry point is proved to return exactly what the model
//! prescribes, so identical inputs always yield identical results, and every
//! attempt ends within a fixed step budget.

pub mod capture;
pub mod errors;
pub mod laws;
pub mod matcher;
pub mod pattern;
pub mod model;
pub mod program;
pub mod scanner;
pub mod state;
