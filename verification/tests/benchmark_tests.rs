use hyperfine::benchmark::{
    evaluate_run, exit_code_from_parts, mean_timing, per_command_count_ok, select_for_command,
    subtract_overhead, subtract_shell_spawning_time, target_run_count, SamplingSession,
    TimingResult, MIN_EXECUTION_TIME,
};
use hyperfine::types::{CmdFailureAction, Warnings};

fn timing(real: u64, user: u64, system: u64) -> TimingResult {
    TimingResult {
        time_real: real,
        time_user: user,
        time_system: system,
    }
}

// The overhead-subtraction clamp never goes below zero.
#[test]
fn corrected_time_is_clamped_at_zero() {
    assert_eq!(0, subtract_shell_spawning_time(5, 10));
    assert_eq!(7, subtract_shell_spawning_time(10, 3));
    assert_eq!(0, subtract_shell_spawning_time(10, 10));
    let corrected = subtract_overhead(timing(100, 5, 20), timing(30, 10, 20));
    assert_eq!(timing(70, 0, 0), corrected);
}

#[test]
fn exit_codes_map_signals_like_a_shell() {
    assert_eq!(Some(3), exit_code_from_parts(Some(3), None));
    assert_eq!(Some(137), exit_code_from_parts(None, Some(9)));
    assert_eq!(None, exit_code_from_parts(None, None));
}

#[test]
fn a_failing_run_aborts_under_the_default_policy() {
    let r = evaluate_run(
        timing(1000, 0, 0),
        Some(1),
        false,
        CmdFailureAction::RaiseError,
        None,
    );
    assert_eq!(Some(1), r.unwrap_err().exit_code);
}

#[test]
fn can_run_failing_commands_with_ignore_failure_option() {
    let r = evaluate_run(
        timing(1000, 0, 0),
        Some(1),
        false,
        CmdFailureAction::Ignore,
        None,
    );
    let (t, code) = r.unwrap();
    assert_eq!(timing(1000, 0, 0), t);
    assert_eq!(Some(1), code);
}

#[test]
fn successful_runs_are_corrected_for_overhead() {
    let r = evaluate_run(
        timing(1000, 300, 200),
        Some(0),
        true,
        CmdFailureAction::RaiseError,
        Some(timing(400, 350, 50)),
    );
    let (t, code) = r.unwrap();
    assert_eq!(timing(600, 0, 150), t);
    assert_eq!(Some(0), code);
}

// Adaptive stopping: a 3 s budget at 0.1 s per iteration plans 30 runs,
// not the 10-run minimum.
#[test]
fn adaptive_run_count_fills_the_time_budget() {
    assert_eq!(30, target_run_count(3_000_000, 100_000, 10, None));
}

#[test]
fn adaptive_run_count_never_goes_below_the_minimum() {
    assert_eq!(10, target_run_count(3_000_000, 1_000_000, 10, None));
}

#[test]
fn adaptive_run_count_respects_the_maximum() {
    assert_eq!(20, target_run_count(3_000_000, 100_000, 10, Some(20)));
}

#[test]
fn a_zero_estimate_asks_for_unboundedly_many_runs() {
    assert_eq!(u64::MAX, target_run_count(3_000_000, 0, 10, None));
    assert_eq!(25, target_run_count(3_000_000, 0, 10, Some(25)));
}

#[test]
fn calibration_takes_the_mean_of_each_component() {
    let samples = vec![timing(10, 4, 2), timing(20, 8, 3), timing(33, 0, 1)];
    let overhead = mean_timing(&samples);
    assert_eq!(timing(21, 4, 2), overhead);
}

#[test]
fn hyperfine_runs_successfully() {
    // two runs of a well-behaved command, recorded and summarized
    let mut session = SamplingSession::new();
    session.record(timing(100_000, 40_000, 10_000), Some(0), true);
    session.record(timing(110_000, 42_000, 11_000), Some(0), true);
    assert_eq!(2, session.count());
    assert!(session.warnings().is_empty());
    let result = session.finish(String::from("echo dummy benchmark"), Vec::new());
    assert_eq!(105_000, result.mean);
    assert_eq!(105_000, result.median);
    assert_eq!(100_000, result.min);
    assert_eq!(110_000, result.max);
    assert_eq!(41_000, result.user);
    assert_eq!(10_500, result.system);
    assert_eq!(Some(7_071), result.stddev);
    assert_eq!(vec![Some(0), Some(0)], result.exit_codes);
    assert_eq!(Some(vec![100_000, 110_000]), result.times);
}

#[test]
fn one_run_is_supported() {
    let mut session = SamplingSession::new();
    session.record(timing(50_000, 1_000, 2_000), Some(0), true);
    let result = session.finish(String::from("echo dummy benchmark"), Vec::new());
    assert_eq!(50_000, result.mean);
    assert_eq!(Some(0), result.stddev);
    assert_eq!(1, result.exit_codes.len());
}

// Sample count invariant: one time and one exit code per run, and the
// summary stays inside [min, max].
#[test]
fn sample_counts_and_summary_bounds_line_up() {
    let mut session = SamplingSession::new();
    let samples: [u64; 5] = [70_000, 100_000, 90_000, 80_000, 95_000];
    for &s in samples.iter() {
        session.record(timing(s, 0, 0), Some(0), true);
    }
    let result = session.finish(String::from("cmd"), Vec::new());
    let times = result.times.clone().unwrap();
    assert_eq!(samples.len(), times.len());
    assert_eq!(samples.len(), result.exit_codes.len());
    assert!(result.min <= result.median && result.median <= result.max);
    assert!(result.min <= result.mean && result.mean <= result.max);
    assert_eq!(70_000, result.min);
    assert_eq!(100_000, result.max);
    assert_eq!(90_000, result.median);
    assert_eq!(87_000, result.mean);
}

#[test]
fn fast_runs_and_failures_are_reported_as_warnings() {
    let mut session = SamplingSession::new();
    session.record(timing(MIN_EXECUTION_TIME - 1, 0, 0), Some(1), false);
    session.record(timing(6_000, 0, 0), Some(0), true);
    let warnings = session.warnings();
    assert_eq!(
        vec![Warnings::FastExecutionTime, Warnings::NonZeroExitCode],
        warnings
    );
}

#[test]
fn fails_with_wrong_number_of_prepare_options() {
    // two preparation commands for three benchmarked commands
    assert!(!per_command_count_ok(2, 3));
    assert!(per_command_count_ok(1, 3));
    assert!(per_command_count_ok(3, 3));
}

#[test]
fn a_shared_preparation_command_is_used_for_every_benchmark() {
    let shared = vec![String::from("make clean")];
    assert_eq!("make clean", select_for_command(&shared, 2).as_str());
    let per_command = vec![String::from("a"), String::from("b"), String::from("c")];
    assert_eq!("b", select_for_command(&per_command, 1).as_str());
}
