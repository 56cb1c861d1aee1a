//! Robust outlier detection over timing samples.
//!
//! Each sample gets a modified z-score: `0.6745 * (x - median) / MAD`, where
//! MAD is the median absolute deviation from the median. A sample whose score
//! exceeds 3.5 in magnitude counts as an outlier; when the MAD is zero every
//! score is treated as zero. The comparisons are carried out exactly, by
//! cross-multiplying with both constants scaled by ten thousand.

use crate::stats::{median, median_spec};
use crate::types::Warnings;
use vstd::prelude::*;

verus! {

/// The scaling constant 0.6745 of the modified z-score, in ten-thousandths.
pub const ZSCORE_FACTOR_E4: u64 = 6745;

/// The outlier threshold 3.5, in ten-thousandths.
pub const OUTLIER_THRESHOLD_E4: u64 = 35000;

/// Absolute deviation of a sample from `m`.
pub open spec fn abs_dev(x: u64, m: u64) -> u64 {
    if x >= m {
        (x - m) as u64
    } else {
        (m - x) as u64
    }
}

/// The absolute deviations of every sample from `m`.
pub open spec fn abs_devs(s: Seq<u64>, m: u64) -> Seq<u64> {
    s.map_values(|x: u64| abs_dev(x, m))
}

/// Median absolute deviation of a non-empty sample sequence from its median.
pub open spec fn mad_spec(s: Seq<u64>) -> u64
    recommends
        s.len() > 0,
{
    median_spec(abs_devs(s, median_spec(s)))
}

/// The modified z-score of `x` exceeds the threshold in magnitude:
/// `0.6745 * |x - med| / mad > 3.5`, with all scores zero when `mad` is zero.
pub open spec fn score_exceeds(x: u64, med: u64, mad: u64) -> bool {
    mad != 0 && ZSCORE_FACTOR_E4 * abs_dev(x, med) > OUTLIER_THRESHOLD_E4 * mad
}

/// The modified z-score of `x` exceeds the threshold and is positive:
/// `0.6745 * (x - med) / mad > 3.5`.
pub open spec fn score_exceeds_above(x: u64, med: u64, mad: u64) -> bool {
    mad != 0 && x > med && ZSCORE_FACTOR_E4 * (x - med) > OUTLIER_THRESHOLD_E4 * mad
}

/// The first sample alone scores as an outlier on the high side.
pub open spec fn slow_initial_run(s: Seq<u64>) -> bool
    recommends
        s.len() > 0,
{
    score_exceeds_above(s[0], median_spec(s), mad_spec(s))
}

/// Some sample scores as an outlier in magnitude.
pub open spec fn has_outlier(s: Seq<u64>) -> bool
    recommends
        s.len() > 0,
{
    exists|i: int|
        0 <= i < s.len() && score_exceeds(#[trigger] s[i], median_spec(s), mad_spec(s))
}

/// Median absolute deviation of the samples from their median.
pub fn compute_mad(times: &Vec<u64>, med: u64) -> (mad: u64)
    requires
        times@.len() > 0,
        med == median_spec(times@),
    ensures
        mad == mad_spec(times@),
{
    let ghost s = times@;
    let mut devs: Vec<u64> = Vec::new();
    let mut i: usize = 0;
    while i < times.len()
        invariant
            0 <= i <= s.len(),
            times@ == s,
            devs@ == abs_devs(s.take(i as int), med),
        decreases s.len() - i,
    {
        let x = times[i];
        let d: u64 = if x >= med {
            x - med
        } else {
            med - x
        };
        devs.push(d);
        proof {
            assert(abs_devs(s.take(i + 1 as int), med) =~= abs_devs(s.take(i as int), med).push(
                abs_dev(s[i as int], med),
            ));
        }
        i = i + 1;
    }
    proof {
        assert(s.take(s.len() as int) =~= s);
    }
    median(&devs)
}

/// Exact test for a modified z-score above the threshold in magnitude.
fn score_check(x: u64, med: u64, mad: u64) -> (r: bool)
    ensures
        r == score_exceeds(x, med, mad),
{
    if mad == 0 {
        return false;
    }
    let d: u64 = if x >= med {
        x - med
    } else {
        med - x
    };
    proof {
        lemma_score_products_fit(d, mad);
    }
    (ZSCORE_FACTOR_E4 as u128) * (d as u128) > (OUTLIER_THRESHOLD_E4 as u128) * (mad as u128)
}

/// Both cross-multiplied score comparands stay inside 128 bits.
proof fn lemma_score_products_fit(d: u64, mad: u64)
    ensures
        ZSCORE_FACTOR_E4 * d <= u128::MAX,
        OUTLIER_THRESHOLD_E4 * mad <= u128::MAX,
{
    assert(6745 * d <= u128::MAX && 35000 * mad <= u128::MAX) by (nonlinear_arith)
        requires
            d <= 0xffff_ffff_ffff_ffffu64,
            mad <= 0xffff_ffff_ffff_ffffu64,
    ;
}

/// Exact test for a modified z-score above the threshold on the high side.
fn score_check_above(x: u64, med: u64, mad: u64) -> (r: bool)
    ensures
        r == score_exceeds_above(x, med, mad),
{
    if mad == 0 || x <= med {
        return false;
    }
    proof {
        lemma_score_products_fit((x - med) as u64, mad);
    }
    (ZSCORE_FACTOR_E4 as u128) * ((x - med) as u128) > (OUTLIER_THRESHOLD_E4 as u128) * (mad
        as u128)
}

/// Classify the sample sequence: a first sample that alone scores high gives
/// the slow-initial-run warning (carrying that sample's raw time); otherwise
/// any outlying sample gives the generic outlier warning.
pub fn outlier_warning(times: &Vec<u64>) -> (w: Option<Warnings>)
    requires
        times@.len() > 0,
    ensures
        w == if slow_initial_run(times@) {
            Some(Warnings::SlowInitialRun(times@[0]))
        } else if has_outlier(times@) {
            Some(Warnings::OutliersDetected)
        } else {
            None::<Warnings>
        },
{
    let med = median(times);
    let mad = compute_mad(times, med);
    if score_check_above(times[0], med, mad) {
        return Some(Warnings::SlowInitialRun(times[0]));
    }
    let mut i: usize = 0;
    while i < times.len()
        invariant
            0 <= i <= times@.len(),
            times@.len() > 0,
            med == median_spec(times@),
            mad == mad_spec(times@),
            !slow_initial_run(times@),
            forall|j: int| 0 <= j < i ==> !score_exceeds(#[trigger] times@[j], med, mad),
        decreases times@.len() - i,
    {
        if score_check(times[i], med, mad) {
            proof {
                assert(score_exceeds(times@[i as int], median_spec(times@), mad_spec(times@)));
            }
            return Some(Warnings::OutliersDetected);
        }
        i = i + 1;
    }
    None
}

} // verus!
