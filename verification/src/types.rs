//! Shared option and result types of the benchmarking core.
//!
//! All durations are whole microseconds.

use crate::units::Unit;
use vstd::prelude::*;

verus! {

/// Action to take when an executed command fails.
#[derive(Debug, Clone, Copy, PartialEq, Eq, Structural)]
pub enum CmdFailureAction {
    /// Exit with an error message
    RaiseError,
    /// Simply ignore the non-zero exit code
    Ignore,
}

/// Output style type option
#[derive(Debug, Clone, Copy, PartialEq, Eq, Structural)]
pub enum OutputStyleOption {
    /// Do not output with colors or any special formatting
    Basic,
    /// Output with full color and formatting
    Full,
    /// Keep elements such as progress bar, but use no coloring
    NoColor,
    /// Keep coloring, but use no progress bar
    Color,
    /// Disable all the output
    Disabled,
}

/// Order in which annotated results are handed back by the ranking.
#[derive(Debug, Clone, Copy, PartialEq, Eq, Structural)]
pub enum SortOrder {
    /// Keep the original command-declaration order.
    Command,
    /// Ascending by mean run time.
    MeanTime,
}

/// Warnings attached to a finished benchmark.
#[derive(Debug, Clone, Copy, PartialEq, Eq, Structural)]
pub enum Warnings {
    /// At least one sample ran faster than the minimum-execution-time floor.
    FastExecutionTime,
    /// At least one run exited with a non-zero code.
    NonZeroExitCode,
    /// The first sample alone scored as an outlier; carries its raw time.
    SlowInitialRun(u64),
    /// Some sample scored as an outlier.
    OutliersDetected,
}

/// Bounds on the number of benchmark runs.
#[derive(Debug, Clone)]
pub struct Runs {
    /// Minimum number of benchmark runs
    pub min: u64,
    /// Maximum number of benchmark runs
    pub max: Option<u64>,
}

impl Default for Runs {
    /// At least ten runs, with no upper bound.
    fn default() -> (r: Runs)
        ensures
            r.min == 10,
            r.max is None,
    {
        Runs { min: 10, max: None }
    }
}

/// A set of options for a benchmarking session.
#[derive(Debug, Clone)]
pub struct HyperfineOptions {
    /// Number of warmup runs
    pub warmup_count: u64,
    /// Number of benchmark runs
    pub runs: Runs,
    /// Minimum benchmarking time, in microseconds
    pub min_time_micros: u64,
    /// Whether or not to ignore non-zero exit codes
    pub failure_action: CmdFailureAction,
    /// Commands to run before each timing run: one shared by all benchmarked
    /// commands, or exactly one per benchmarked command
    pub preparation_command: Option<Vec<String>>,
    /// Command to run after each benchmark
    pub cleanup_command: Option<String>,
    /// What color mode to use for output
    pub output_style: OutputStyleOption,
    /// The shell to use for executing commands
    pub shell: String,
    /// Forward the benchmarked command's stdout to the caller's stdout
    pub show_output: bool,
    /// Which time unit to use for console and export output
    pub time_unit: Option<Unit>,
    /// Custom command names that, if defined, are used instead of the
    /// command itself in benchmark outputs
    pub names: Option<Vec<String>>,
}

impl Default for HyperfineOptions {
    /// Ten runs minimum over a three-second budget, aborting on failure,
    /// under the POSIX shell.
    fn default() -> (r: HyperfineOptions)
        ensures
            r.warmup_count == 0,
            r.runs.min == 10,
            r.runs.max is None,
            r.min_time_micros == 3_000_000,
            r.failure_action == CmdFailureAction::RaiseError,
            r.preparation_command is None,
            r.cleanup_command is None,
            r.output_style == OutputStyleOption::Full,
            r.shell@ == "sh"@,
            !r.show_output,
            r.time_unit is None,
            r.names is None,
    {
        HyperfineOptions {
            names: None,
            warmup_count: 0,
            runs: Runs::default(),
            min_time_micros: 3_000_000,
            failure_action: CmdFailureAction::RaiseError,
            preparation_command: None,
            cleanup_command: None,
            output_style: OutputStyleOption::Full,
            shell: String::from_str("sh"),
            show_output: false,
            time_unit: None,
        }
    }
}

/// Set of values that describe one finished benchmark and will be exported.
#[derive(Debug, Clone)]
pub struct BenchmarkResult {
    /// The command that was run
    pub command: String,
    /// The mean run time, in microseconds
    pub mean: u64,
    /// The sample standard deviation of all run times, absent when unknown
    pub stddev: Option<u64>,
    /// The median run time
    pub median: u64,
    /// Mean time spent in user space
    pub user: u64,
    /// Mean time spent in kernel space
    pub system: u64,
    /// Smallest measured time
    pub min: u64,
    /// Largest measured time
    pub max: u64,
    /// All wall-clock measurements, absent when the caller opted out
    pub times: Option<Vec<u64>>,
    /// Exit code of every run, `None` where no code could be determined
    pub exit_codes: Vec<Option<i32>>,
    /// Any parameter values used, in declaration order
    pub parameters: Vec<(String, String)>,
}

impl BenchmarkResult {
    /// Create a new entry with the given values.
    pub fn new(
        command: String,
        mean: u64,
        stddev: Option<u64>,
        median: u64,
        user: u64,
        system: u64,
        min: u64,
        max: u64,
        times: Vec<u64>,
        exit_codes: Vec<Option<i32>>,
        parameters: Vec<(String, String)>,
    ) -> (r: BenchmarkResult)
        ensures
            r.command == command,
            r.mean == mean,
            r.stddev == stddev,
            r.median == median,
            r.user == user,
            r.system == system,
            r.min == min,
            r.max == max,
            r.times == Some(times),
            r.exit_codes == exit_codes,
            r.parameters == parameters,
    {
        BenchmarkResult {
            command,
            mean,
            stddev,
            median,
            user,
            system,
            min,
            max,
            times: Some(times),
            exit_codes,
            parameters,
        }
    }
}

} // verus!
