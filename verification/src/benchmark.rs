//! The benchmark engine: overhead correction, failure policy, the adaptive
//! run-count rule, and per-command sample collection.
//!
//! The unverified binary spawns the shell and measures raw times; everything
//! it decides with those numbers lives here. A [`SamplingSession`] receives
//! one corrected measurement per run and, when sampling is over, assembles
//! the [`BenchmarkResult`] out of the verified statistics.

use crate::outlier::{has_outlier, outlier_warning, slow_initial_run};
use crate::stats::{
    bounded_samples, is_stddev, lemma_mean_in_range, lemma_median_in_range, max, mean, mean_spec,
    median, median_spec, min, stddev, MAX_SAMPLE_COUNT, MAX_SAMPLE_MICROS,
};
use crate::types::{BenchmarkResult, CmdFailureAction, Warnings};
use vstd::prelude::*;

verus! {

/// Threshold for warning about fast execution time: five milliseconds.
pub const MIN_EXECUTION_TIME: u64 = 5000;

/// Results from timing a single shell command, in microseconds.
#[derive(Debug, Clone, Copy, PartialEq, Eq, Structural)]
pub struct TimingResult {
    /// Wall clock time
    pub time_real: u64,
    /// Time spent in user mode
    pub time_user: u64,
    /// Time spent in kernel mode
    pub time_system: u64,
}

impl Default for TimingResult {
    /// All three times zero.
    fn default() -> (r: TimingResult)
        ensures
            r.time_real == 0,
            r.time_user == 0,
            r.time_system == 0,
    {
        TimingResult { time_real: 0, time_user: 0, time_system: 0 }
    }
}

/// A benchmarked command exited with a non-zero code (or was killed) under
/// the aborting failure policy.
#[derive(Debug, Clone, Copy, PartialEq, Eq, Structural)]
pub struct CommandFailure {
    /// The mapped exit code of the failing run, absent when undeterminable.
    pub exit_code: Option<i32>,
}

/// One raw time corrected for shell-spawning overhead: zero when the
/// overhead exceeds the raw time, their difference otherwise.
pub open spec fn corrected(raw: u64, overhead: u64) -> u64 {
    if raw < overhead {
        0u64
    } else {
        (raw - overhead) as u64
    }
}

/// All three components corrected for the calibrated overhead.
pub open spec fn corrected_timing(raw: TimingResult, overhead: TimingResult) -> TimingResult {
    TimingResult {
        time_real: corrected(raw.time_real, overhead.time_real),
        time_user: corrected(raw.time_user, overhead.time_user),
        time_system: corrected(raw.time_system, overhead.time_system),
    }
}

/// The overhead-subtraction clamp never produces negative time, never grows
/// a measurement, and is the exact difference wherever that difference is
/// not negative.
pub proof fn lemma_correction_clamps(raw: u64, overhead: u64)
    ensures
        corrected(raw, overhead) >= 0,
        corrected(raw, overhead) <= raw,
        raw >= overhead ==> corrected(raw, overhead) == raw - overhead,
        raw < overhead ==> corrected(raw, overhead) == 0,
{
}

/// Correct one raw time for shell spawning time.
pub fn subtract_shell_spawning_time(time: u64, shell_spawning_time: u64) -> (r: u64)
    ensures
        r == corrected(time, shell_spawning_time),
{
    if time < shell_spawning_time {
        0
    } else {
        time - shell_spawning_time
    }
}

/// Correct a whole measurement for shell spawning time.
pub fn subtract_overhead(raw: TimingResult, overhead: TimingResult) -> (r: TimingResult)
    ensures
        r == corrected_timing(raw, overhead),
{
    TimingResult {
        time_real: subtract_shell_spawning_time(raw.time_real, overhead.time_real),
        time_user: subtract_shell_spawning_time(raw.time_user, overhead.time_user),
        time_system: subtract_shell_spawning_time(raw.time_system, overhead.time_system),
    }
}

/// Map what the operating system reports about a finished child to one exit
/// code: the native code when there is one, `128 + signal` for a process
/// killed by signal `signal`, absent when neither is known.
pub fn exit_code_from_parts(code: Option<i32>, signal: Option<i32>) -> (r: Option<i32>)
    requires
        code is None ==> (signal matches Some(s) ==> 0 <= s <= i32::MAX - 128),
    ensures
        r == match code {
            Some(c) => Some(c),
            None => match signal {
                Some(s) => Some((128 + s) as i32),
                None => None::<i32>,
            },
        },
{
    match code {
        Some(c) => Some(c),
        None => match signal {
            Some(s) => Some(128 + s),
            None => None,
        },
    }
}

/// Judge one finished run: under the aborting failure policy a non-zero exit
/// fails the whole benchmark; otherwise the measurement, corrected for the
/// calibrated overhead when one is given, is kept together with its exit
/// code.
pub fn evaluate_run(
    raw: TimingResult,
    exit_code: Option<i32>,
    success: bool,
    failure_action: CmdFailureAction,
    shell_spawning_time: Option<TimingResult>,
) -> (r: Result<(TimingResult, Option<i32>), CommandFailure>)
    ensures
        r is Err <==> failure_action == CmdFailureAction::RaiseError && !success,
        r matches Err(f) ==> f.exit_code == exit_code,
        r matches Ok(p) ==> p.0 == match shell_spawning_time {
            Some(overhead) => corrected_timing(raw, overhead),
            None => raw,
        } && p.1 == exit_code,
{
    if failure_action == CmdFailureAction::RaiseError && !success {
        return Err(CommandFailure { exit_code });
    }
    let timing = match shell_spawning_time {
        Some(overhead) => subtract_overhead(raw, overhead),
        None => raw,
    };
    Ok((timing, exit_code))
}

/// The wall-clock components of a measurement sequence.
pub open spec fn reals_of(s: Seq<TimingResult>) -> Seq<u64> {
    s.map_values(|t: TimingResult| t.time_real)
}

/// The user-mode components of a measurement sequence.
pub open spec fn users_of(s: Seq<TimingResult>) -> Seq<u64> {
    s.map_values(|t: TimingResult| t.time_user)
}

/// The kernel-mode components of a measurement sequence.
pub open spec fn systems_of(s: Seq<TimingResult>) -> Seq<u64> {
    s.map_values(|t: TimingResult| t.time_system)
}

/// Component-wise arithmetic mean of the calibration measurements: the
/// shell-spawning overhead that every later measurement is corrected with.
pub fn mean_timing(timings: &Vec<TimingResult>) -> (r: TimingResult)
    requires
        timings@.len() > 0,
    ensures
        r.time_real == mean_spec(reals_of(timings@)),
        r.time_user == mean_spec(users_of(timings@)),
        r.time_system == mean_spec(systems_of(timings@)),
{
    let ghost s = timings@;
    let mut reals: Vec<u64> = Vec::new();
    let mut users: Vec<u64> = Vec::new();
    let mut systems: Vec<u64> = Vec::new();
    let mut i: usize = 0;
    while i < timings.len()
        invariant
            0 <= i <= s.len(),
            timings@ == s,
            reals@ == reals_of(s.take(i as int)),
            users@ == users_of(s.take(i as int)),
            systems@ == systems_of(s.take(i as int)),
        decreases s.len() - i,
    {
        let t = timings[i];
        reals.push(t.time_real);
        users.push(t.time_user);
        systems.push(t.time_system);
        proof {
            assert(reals_of(s.take(i + 1 as int)) =~= reals_of(s.take(i as int)).push(
                s[i as int].time_real,
            ));
            assert(users_of(s.take(i + 1 as int)) =~= users_of(s.take(i as int)).push(
                s[i as int].time_user,
            ));
            assert(systems_of(s.take(i + 1 as int)) =~= systems_of(s.take(i as int)).push(
                s[i as int].time_system,
            ));
        }
        i = i + 1;
    }
    proof {
        assert(s.take(s.len() as int) =~= s);
    }
    TimingResult {
        time_real: mean(&reals),
        time_user: mean(&users),
        time_system: mean(&systems),
    }
}

/// The adaptive run-count target: enough runs to fill the time budget at the
/// estimated per-iteration cost, never fewer than `min_runs`, clamped to
/// `max_runs` when one is configured. A zero estimate asks for unboundedly
/// many runs, which only the clamps limit.
pub open spec fn target_runs(
    min_time_micros: u64,
    per_iteration_micros: u64,
    min_runs: u64,
    max_runs: Option<u64>,
) -> u64 {
    let budget_runs = if per_iteration_micros == 0 {
        u64::MAX
    } else {
        (min_time_micros / per_iteration_micros) as u64
    };
    let lower = if budget_runs >= min_runs {
        budget_runs
    } else {
        min_runs
    };
    match max_runs {
        Some(m) => if lower <= m {
            lower
        } else {
            m
        },
        None => lower,
    }
}

/// Whenever the configured upper bound does not cut below `min_runs`, the
/// adaptive target plans at least `min_runs` runs.
pub proof fn lemma_target_at_least_min_runs(
    min_time_micros: u64,
    per_iteration_micros: u64,
    min_runs: u64,
    max_runs: Option<u64>,
)
    requires
        max_runs matches Some(m) ==> m >= min_runs,
    ensures
        target_runs(min_time_micros, per_iteration_micros, min_runs, max_runs) >= min_runs,
{
}

/// Determine the number of benchmark runs from the time budget and the
/// estimated cost of one iteration.
pub fn target_run_count(
    min_time_micros: u64,
    per_iteration_micros: u64,
    min_runs: u64,
    max_runs: Option<u64>,
) -> (count: u64)
    ensures
        count == target_runs(min_time_micros, per_iteration_micros, min_runs, max_runs),
{
    let budget_runs: u64 = if per_iteration_micros == 0 {
        u64::MAX
    } else {
        min_time_micros / per_iteration_micros
    };
    let lower: u64 = if budget_runs >= min_runs {
        budget_runs
    } else {
        min_runs
    };
    match max_runs {
        Some(m) => if lower <= m {
            lower
        } else {
            m
        },
        None => lower,
    }
}

/// Whether a list of per-command options (preparation or cleanup commands)
/// agrees with the number of benchmarked commands: one shared entry, or
/// exactly one entry per command.
pub fn per_command_count_ok(option_count: usize, command_count: usize) -> (ok: bool)
    ensures
        ok == (option_count == 1 || option_count == command_count),
{
    option_count == 1 || option_count == command_count
}

/// The entry of a per-command option list that belongs to command `num`:
/// the shared entry when there is only one, the command's own otherwise.
pub fn select_for_command<'a>(values: &'a Vec<String>, num: usize) -> (r: &'a String)
    requires
        values@.len() == 1 || num < values@.len(),
    ensures
        r == &values@[if values@.len() == 1 {
            0int
        } else {
            num as int
        }],
{
    if values.len() == 1 {
        &values[0]
    } else {
        &values[num]
    }
}

/// The warnings a finished sample set carries, in the order they are
/// reported: fast execution, non-zero exit codes, then the outlier
/// classification with the slow first run taking priority.
pub open spec fn warnings_spec(times: Seq<u64>, all_succeeded: bool) -> Seq<Warnings>
    recommends
        times.len() > 0,
{
    let fast = if exists|i: int| 0 <= i < times.len() && #[trigger] times[i] < MIN_EXECUTION_TIME {
        seq![Warnings::FastExecutionTime]
    } else {
        Seq::<Warnings>::empty()
    };
    let exit = if !all_succeeded {
        seq![Warnings::NonZeroExitCode]
    } else {
        Seq::<Warnings>::empty()
    };
    let outliers = if slow_initial_run(times) {
        seq![Warnings::SlowInitialRun(times[0])]
    } else if has_outlier(times) {
        seq![Warnings::OutliersDetected]
    } else {
        Seq::<Warnings>::empty()
    };
    fast + exit + outliers
}

/// The per-command sample accumulator: one corrected measurement and one
/// exit code per run, in run order.
pub struct SamplingSession {
    /// Corrected wall-clock time of every run.
    pub times_real: Vec<u64>,
    /// Corrected user-mode time of every run.
    pub times_user: Vec<u64>,
    /// Corrected kernel-mode time of every run.
    pub times_system: Vec<u64>,
    /// Mapped exit code of every run.
    pub exit_codes: Vec<Option<i32>>,
    /// Whether every run so far exited with code zero.
    pub all_succeeded: bool,
}

impl SamplingSession {
    /// One sample per run in each column, and wall-clock samples small
    /// enough for the statistics to be computed exactly.
    pub open spec fn wf(self) -> bool {
        &&& self.times_user@.len() == self.times_real@.len()
        &&& self.times_system@.len() == self.times_real@.len()
        &&& self.exit_codes@.len() == self.times_real@.len()
        &&& bounded_samples(self.times_real@)
    }

    /// Number of recorded runs.
    pub open spec fn count_spec(self) -> nat {
        self.times_real@.len()
    }

    /// An empty session.
    pub fn new() -> (s: SamplingSession)
        ensures
            s.wf(),
            s.count_spec() == 0,
            s.all_succeeded,
    {
        SamplingSession {
            times_real: Vec::new(),
            times_user: Vec::new(),
            times_system: Vec::new(),
            exit_codes: Vec::new(),
            all_succeeded: true,
        }
    }

    /// Number of recorded runs.
    pub fn count(&self) -> (n: usize)
        ensures
            n == self.count_spec(),
    {
        self.times_real.len()
    }

    /// Append one corrected measurement and its exit code.
    pub fn record(&mut self, timing: TimingResult, exit_code: Option<i32>, success: bool)
        requires
            old(self).wf(),
            timing.time_real <= MAX_SAMPLE_MICROS,
            old(self).count_spec() < MAX_SAMPLE_COUNT,
        ensures
            final(self).wf(),
            final(self).times_real@ == old(self).times_real@.push(timing.time_real),
            final(self).times_user@ == old(self).times_user@.push(timing.time_user),
            final(self).times_system@ == old(self).times_system@.push(timing.time_system),
            final(self).exit_codes@ == old(self).exit_codes@.push(exit_code),
            final(self).all_succeeded == (old(self).all_succeeded && success),
    {
        self.times_real.push(timing.time_real);
        self.times_user.push(timing.time_user);
        self.times_system.push(timing.time_system);
        self.exit_codes.push(exit_code);
        self.all_succeeded = self.all_succeeded && success;
    }

    /// The warnings the recorded samples carry.
    pub fn warnings(&self) -> (w: Vec<Warnings>)
        requires
            self.wf(),
            self.count_spec() > 0,
        ensures
            w@ == warnings_spec(self.times_real@, self.all_succeeded),
    {
        let mut w: Vec<Warnings> = Vec::new();
        let mut any_fast = false;
        let mut i: usize = 0;
        while i < self.times_real.len()
            invariant
                0 <= i <= self.times_real@.len(),
                any_fast == exists|j: int|
                    0 <= j < i && #[trigger] self.times_real@[j] < MIN_EXECUTION_TIME,
            decreases self.times_real@.len() - i,
        {
            if self.times_real[i] < MIN_EXECUTION_TIME {
                any_fast = true;
            }
            i = i + 1;
        }
        if any_fast {
            w.push(Warnings::FastExecutionTime);
        }
        if !self.all_succeeded {
            w.push(Warnings::NonZeroExitCode);
        }
        let outlier = outlier_warning(&self.times_real);
        match outlier {
            Some(warning) => w.push(warning),
            None => (),
        }
        proof {
            assert(w@ =~= warnings_spec(self.times_real@, self.all_succeeded));
        }
        w
    }

    /// Assemble the benchmark result: the verified statistics over the
    /// recorded samples, the samples themselves, and the exit codes. The
    /// summary respects `min <= median <= max` and `min <= mean <= max`, and
    /// the sample count equals the length of both the time and the exit-code
    /// sequences.
    pub fn finish(self, command_name: String, parameters: Vec<(String, String)>) -> (r:
        BenchmarkResult)
        requires
            self.wf(),
            self.count_spec() > 0,
        ensures
            r.command == command_name,
            r.mean == mean_spec(self.times_real@),
            r.median == median_spec(self.times_real@),
            r.stddev matches Some(sd) && is_stddev(self.times_real@, sd),
            r.user == mean_spec(self.times_user@),
            r.system == mean_spec(self.times_system@),
            forall|i: int| 0 <= i < self.times_real@.len() ==> r.min <= #[trigger] self.times_real@[i] <= r.max,
            self.times_real@.contains(r.min),
            self.times_real@.contains(r.max),
            r.times matches Some(times) && times@ == self.times_real@,
            r.exit_codes@ == self.exit_codes@,
            r.parameters == parameters,
            r.min <= r.median <= r.max,
            r.min <= r.mean <= r.max,
            r.times matches Some(times) && times@.len() == r.exit_codes@.len() == self.count_spec(),
    {
        let t_mean = mean(&self.times_real);
        let t_stddev = stddev(&self.times_real, t_mean);
        let t_median = median(&self.times_real);
        let t_min = min(&self.times_real);
        let t_max = max(&self.times_real);
        let user_mean = mean(&self.times_user);
        let system_mean = mean(&self.times_system);
        proof {
            lemma_mean_in_range(self.times_real@, t_min as int, t_max as int);
            lemma_median_in_range(self.times_real@, t_min as int, t_max as int);
        }
        BenchmarkResult::new(
            command_name,
            t_mean,
            Some(t_stddev),
            t_median,
            user_mean,
            system_mean,
            t_min,
            t_max,
            self.times_real,
            self.exit_codes,
            parameters,
        )
    }
}

} // verus!
