//! Verified core of a command-line benchmarking tool.
//!
//! The library measures shell commands in whole microseconds, corrects every
//! sample for shell-spawning overhead, derives summary statistics and outlier
//! warnings, and ranks the benchmarked commands by relative speed. All timing
//! arithmetic is integer arithmetic over microseconds, with contracts proved
//! by Verus; the unverified binary around it only spawns processes and
//! renders output.

pub mod benchmark;
pub mod command;
pub mod export;
pub mod outlier;
pub mod parameter;
pub mod parse;
pub mod relative_speed;
pub mod stats;
pub mod text;
pub mod timer;
pub mod types;
pub mod units;
