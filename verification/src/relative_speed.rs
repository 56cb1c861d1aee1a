//! Cross-command ranking: each command's speed as a ratio to the fastest
//! command's mean, with propagated uncertainty.
//!
//! Ratios are kept in thousandths, so a value of 1500 reads as 1.5. The
//! propagated standard deviation follows
//! `ratio * sqrt((stddev / mean)^2 + (fastest_stddev / fastest_mean)^2)`,
//! carried out in integer arithmetic: the two quotients are taken in
//! thousandths, the square root is the integer floor, and the result
//! saturates at `u64::MAX`. A ratio of `u64::MAX` in the unchecked variant
//! stands for an infinite ratio against a zero-mean fastest result.

use crate::stats::{is_floor_sqrt, isqrt_u128, MAX_SAMPLE_MICROS};
use crate::types::{BenchmarkResult, SortOrder};
use core::cmp::Ordering;
use vstd::arithmetic::div_mod::{lemma_div_is_ordered, lemma_div_nonincreasing};
use vstd::multiset::Multiset;
use vstd::prelude::*;
use vstd::relations::sorted_by;

verus! {

/// One unit of relative speed, in thousandths.
pub const RELATIVE_SPEED_ONE: u64 = 1000;

/// A benchmark result annotated with its speed relative to the fastest
/// result of the compared set.
#[derive(Debug, Clone)]
pub struct BenchmarkResultWithRelativeSpeed {
    /// The annotated result.
    pub result: BenchmarkResult,
    /// Ratio of this result's mean to the fastest mean, in thousandths;
    /// `u64::MAX` stands for an infinite ratio.
    pub relative_speed: u64,
    /// Propagated standard deviation of the ratio, in thousandths; absent
    /// when either input standard deviation is unavailable.
    pub relative_speed_stddev: Option<u64>,
    /// Whether this entry is the reference result.
    pub is_fastest: bool,
}

/// Floor of the square root of a non-negative integer.
pub open spec fn floor_sqrt(x: int) -> int {
    choose|r: int| r >= 0 && is_floor_sqrt(x, r)
}

/// A non-negative root with `r^2 <= x < (r+1)^2` is the floor square root.
pub proof fn lemma_floor_sqrt_unique(x: int, r: int)
    requires
        r >= 0,
        is_floor_sqrt(x, r),
    ensures
        floor_sqrt(x) == r,
{
    assert(exists|q: int| q >= 0 && is_floor_sqrt(x, q));
    let q = floor_sqrt(x);
    assert(q >= 0 && is_floor_sqrt(x, q));
    assert(q == r) by (nonlinear_arith)
        requires
            q >= 0,
            r >= 0,
            q * q <= x < (q + 1) * (q + 1),
            r * r <= x < (r + 1) * (r + 1),
    ;
}

/// The mean of `r`, and its standard deviation where that is known, stay
/// inside the range of the exact ranking arithmetic.
pub open spec fn bounded_result(r: BenchmarkResult) -> bool {
    &&& r.mean <= MAX_SAMPLE_MICROS
    &&& (r.stddev matches Some(sd) ==> sd <= MAX_SAMPLE_MICROS)
}

/// Every result of `s` is bounded.
pub open spec fn bounded_results(s: Seq<BenchmarkResult>) -> bool {
    forall|i: int| 0 <= i < s.len() ==> bounded_result(#[trigger] s[i])
}

/// Ratio of `mean` to a positive `fastest_mean`, in thousandths, rounded
/// toward zero.
pub open spec fn ratio_milli(mean: u64, fastest_mean: u64) -> u64
    recommends
        fastest_mean > 0,
        mean <= MAX_SAMPLE_MICROS,
{
    (mean * RELATIVE_SPEED_ONE / fastest_mean as int) as u64
}

/// Propagated standard deviation of the ratio, in thousandths, saturated at
/// `u64::MAX`: the ratio times the root of the sum of the squared relative
/// deviations of both inputs.
pub open spec fn rel_stddev_milli(mean: u64, sd: u64, fastest_mean: u64, fastest_sd: u64) -> u64
    recommends
        mean > 0,
        fastest_mean > 0,
{
    let ratio = mean * RELATIVE_SPEED_ONE / fastest_mean as int;
    let a = sd * RELATIVE_SPEED_ONE / mean as int;
    let b = fastest_sd * RELATIVE_SPEED_ONE / fastest_mean as int;
    let c = floor_sqrt(a * a + b * b);
    let v = ratio * c / RELATIVE_SPEED_ONE as int;
    if v > u64::MAX {
        u64::MAX
    } else {
        v as u64
    }
}

/// The annotation one result receives against the fastest result's mean and
/// standard deviation. A zero-mean result counts as tied for fastest and
/// gets the unit ratio; a non-zero-mean result compared against a zero
/// fastest mean gets an infinite ratio; otherwise the ratio is exact and the
/// uncertainty is propagated when both standard deviations are known.
pub open spec fn annotate(
    source: BenchmarkResult,
    fastest_mean: u64,
    fastest_sd: Option<u64>,
    is_fastest: bool,
) -> BenchmarkResultWithRelativeSpeed {
    BenchmarkResultWithRelativeSpeed {
        result: source,
        relative_speed: if source.mean == 0 {
            RELATIVE_SPEED_ONE
        } else if fastest_mean == 0 {
            u64::MAX
        } else {
            ratio_milli(source.mean, fastest_mean)
        },
        relative_speed_stddev: if source.mean == 0 || fastest_mean == 0 {
            None
        } else {
            match (source.stddev, fastest_sd) {
                (Some(sd), Some(fsd)) => Some(
                    rel_stddev_milli(source.mean, sd, fastest_mean, fsd),
                ),
                _ => None,
            }
        },
        is_fastest: is_fastest,
    }
}

/// Index of the first result with the smallest mean.
pub open spec fn fastest_index_of(results: Seq<BenchmarkResult>) -> int
    recommends
        results.len() > 0,
    decreases results.len(),
{
    if results.len() <= 1 {
        0
    } else {
        let r = fastest_index_of(results.drop_last());
        if results.last().mean < results[r].mean {
            results.len() - 1
        } else {
            r
        }
    }
}

/// The fastest index points at the first minimum of the means.
pub proof fn lemma_fastest_index(results: Seq<BenchmarkResult>)
    requires
        results.len() > 0,
    ensures
        0 <= fastest_index_of(results) < results.len(),
        forall|j: int|
            0 <= j < results.len() ==> results[fastest_index_of(results)].mean
                <= (#[trigger] results[j]).mean,
        forall|j: int|
            0 <= j < fastest_index_of(results) ==> (#[trigger] results[j]).mean
                > results[fastest_index_of(results)].mean,
    decreases results.len(),
{
    if results.len() > 1 {
        let dl = results.drop_last();
        lemma_fastest_index(dl);
        let r = fastest_index_of(dl);
        assert(forall|j: int| 0 <= j < dl.len() ==> dl[j] == results[j]);
        if results.last().mean < dl[r].mean {
            assert(fastest_index_of(results) == results.len() - 1);
        } else {
            assert(fastest_index_of(results) == r);
        }
    }
}

/// What one entry of the annotated sequence holds.
pub open spec fn annotated_entries(results: Seq<BenchmarkResult>) -> Seq<
    BenchmarkResultWithRelativeSpeed,
>
    recommends
        results.len() > 0,
{
    let fi = fastest_index_of(results);
    Seq::new(
        results.len(),
        |i: int| annotate(results[i], results[fi].mean, results[fi].stddev, i == fi),
    )
}

/// Ascending by the annotated result's mean run time.
pub open spec fn entry_leq() -> spec_fn(
    BenchmarkResultWithRelativeSpeed,
    BenchmarkResultWithRelativeSpeed,
) -> bool {
    |x: BenchmarkResultWithRelativeSpeed, y: BenchmarkResultWithRelativeSpeed|
        x.result.mean <= y.result.mean
}

/// The ranked output: every result annotated against the fastest one, in
/// declaration order, or reordered ascending by mean when so asked.
pub open spec fn ranked(
    out: Seq<BenchmarkResultWithRelativeSpeed>,
    results: Seq<BenchmarkResult>,
    sort_order: SortOrder,
) -> bool
    recommends
        results.len() > 0,
{
    match sort_order {
        SortOrder::Command => out == annotated_entries(results),
        SortOrder::MeanTime => {
            &&& out.to_multiset() == annotated_entries(results).to_multiset()
            &&& sorted_by(out, entry_leq())
        },
    }
}

/// Compare two results by their mean run time.
pub fn compare_mean_time(l: &BenchmarkResult, r: &BenchmarkResult) -> (ord: Ordering)
    ensures
        ord == (if l.mean < r.mean {
            Ordering::Less
        } else if l.mean == r.mean {
            Ordering::Equal
        } else {
            Ordering::Greater
        }),
{
    if l.mean < r.mean {
        Ordering::Less
    } else if l.mean == r.mean {
        Ordering::Equal
    } else {
        Ordering::Greater
    }
}

/// Index of the first result with the smallest mean.
fn fastest_of(results: &Vec<BenchmarkResult>) -> (idx: usize)
    requires
        results@.len() > 0,
    ensures
        idx == fastest_index_of(results@),
        idx < results@.len(),
{
    let mut best: usize = 0;
    let mut i: usize = 1;
    while i < results.len()
        invariant
            0 <= best < i <= results@.len(),
            results@.len() > 0,
            best == fastest_index_of(results@.take(i as int)),
        decreases results@.len() - i,
    {
        proof {
            assert(results@.take(i + 1 as int).drop_last() =~= results@.take(i as int));
        }
        if results[i].mean < results[best].mean {
            best = i;
        }
        i = i + 1;
    }
    proof {
        assert(results@.take(results@.len() as int) =~= results@);
    }
    best
}

/// Annotate one result against the fastest mean and standard deviation.
fn annotate_one(
    source: BenchmarkResult,
    fastest_mean: u64,
    fastest_sd: Option<u64>,
    is_fastest: bool,
) -> (e: BenchmarkResultWithRelativeSpeed)
    requires
        bounded_result(source),
        fastest_mean <= MAX_SAMPLE_MICROS,
        fastest_sd matches Some(fsd) ==> fsd <= MAX_SAMPLE_MICROS,
    ensures
        e == annotate(source, fastest_mean, fastest_sd, is_fastest),
{
    if source.mean == 0 {
        return BenchmarkResultWithRelativeSpeed {
            result: source,
            relative_speed: RELATIVE_SPEED_ONE,
            relative_speed_stddev: None,
            is_fastest,
        };
    }
    if fastest_mean == 0 {
        return BenchmarkResultWithRelativeSpeed {
            result: source,
            relative_speed: u64::MAX,
            relative_speed_stddev: None,
            is_fastest,
        };
    }
    let ratio128: u128 = (source.mean as u128) * (RELATIVE_SPEED_ONE as u128) / (fastest_mean
        as u128);
    proof {
        lemma_div_nonincreasing(source.mean * RELATIVE_SPEED_ONE as int, fastest_mean as int);
        lemma_div_is_ordered(
            0,
            source.mean * RELATIVE_SPEED_ONE as int,
            fastest_mean as int,
        );
        assert(source.mean * RELATIVE_SPEED_ONE <= u64::MAX);
    }
    let ratio: u64 = ratio128 as u64;
    let relative_speed_stddev: Option<u64> = match (source.stddev, fastest_sd) {
        (Some(sd), Some(fsd)) => {
            proof {
                lemma_div_nonincreasing(sd * RELATIVE_SPEED_ONE as int, source.mean as int);
                lemma_div_is_ordered(0, sd * RELATIVE_SPEED_ONE as int, source.mean as int);
                lemma_div_nonincreasing(fsd * RELATIVE_SPEED_ONE as int, fastest_mean as int);
                lemma_div_is_ordered(0, fsd * RELATIVE_SPEED_ONE as int, fastest_mean as int);
            }
            let a: u64 = ((sd as u128) * (RELATIVE_SPEED_ONE as u128) / (source.mean as u128))
                as u64;
            let b: u64 = ((fsd as u128) * (RELATIVE_SPEED_ONE as u128) / (fastest_mean as u128))
                as u64;
            proof {
                assert(a as int <= MAX_SAMPLE_MICROS as int * 1000);
                assert(b as int <= MAX_SAMPLE_MICROS as int * 1000);
                assert(a as int * a as int + b as int * b as int <= u128::MAX) by (nonlinear_arith)
                    requires
                        0 <= a as int <= 0x4000_0000_0000int * 1000,
                        0 <= b as int <= 0x4000_0000_0000int * 1000,
                ;
            }
            let c: u64 = isqrt_u128((a as u128) * (a as u128) + (b as u128) * (b as u128));
            proof {
                lemma_floor_sqrt_unique(a as int * a as int + b as int * b as int, c as int);
                assert(ratio as int * c as int <= u128::MAX) by (nonlinear_arith)
                    requires
                        ratio <= 0xffff_ffff_ffff_ffffu64,
                        c <= 0xffff_ffff_ffff_ffffu64,
                ;
                lemma_div_is_ordered(0, ratio as int * c as int, RELATIVE_SPEED_ONE as int);
            }
            let v: u128 = (ratio as u128) * (c as u128) / (RELATIVE_SPEED_ONE as u128);
            if v > u64::MAX as u128 {
                Some(u64::MAX)
            } else {
                Some(v as u64)
            }
        },
        _ => None,
    };
    BenchmarkResultWithRelativeSpeed {
        result: source,
        relative_speed: ratio,
        relative_speed_stddev,
        is_fastest,
    }
}

/// Reorder annotated entries ascending by mean run time, by repeatedly
/// extracting the first entry with the smallest mean.
fn sort_entries(entries: Vec<BenchmarkResultWithRelativeSpeed>) -> (out: Vec<
    BenchmarkResultWithRelativeSpeed,
>)
    ensures
        out@.to_multiset() == entries@.to_multiset(),
        sorted_by(out@, entry_leq()),
{
    broadcast use vstd::seq_lib::group_to_multiset_ensures;

    let ghost orig = entries@;
    let mut remaining = entries;
    let mut out: Vec<BenchmarkResultWithRelativeSpeed> = Vec::new();
    proof {
        assert(out@.to_multiset().add(remaining@.to_multiset()) =~= orig.to_multiset());
    }
    while remaining.len() > 0
        invariant
            out@.to_multiset().add(remaining@.to_multiset()) =~= orig.to_multiset(),
            sorted_by(out@, entry_leq()),
            forall|i: int, j: int|
                0 <= i < out@.len() && 0 <= j < remaining@.len() ==> (#[trigger] out@[i]).result.mean
                    <= (#[trigger] remaining@[j]).result.mean,
        decreases remaining@.len(),
    {
        broadcast use vstd::seq_lib::group_to_multiset_ensures;

        let ghost old_out = out@;
        let ghost old_rem = remaining@;
        let mut best: usize = 0;
        let mut k: usize = 1;
        while k < remaining.len()
            invariant
                0 <= best < k <= remaining@.len(),
                remaining@.len() > 0,
                forall|j: int|
                    0 <= j < k ==> remaining@[best as int].result.mean
                        <= (#[trigger] remaining@[j]).result.mean,
            decreases remaining@.len() - k,
        {
            if remaining[k].result.mean < remaining[best].result.mean {
                best = k;
            }
            k = k + 1;
        }
        let v = remaining.remove(best);
        out.push(v);
        proof {
            assert(old_rem.remove(best as int).to_multiset() =~= old_rem.to_multiset().remove(v));
            assert(old_rem.to_multiset().count(v) > 0);
            assert(out@.to_multiset() =~= old_out.to_multiset().insert(v));
            assert(out@.to_multiset().add(remaining@.to_multiset()) =~= orig.to_multiset());
            assert forall|i: int, j: int|
                0 <= i < j < out@.len() implies entry_leq()(out@[i], out@[j]) by {
                if j == out@.len() - 1 {
                    assert(out@[i] == old_out[i]);
                    assert(out@[j] == v);
                    assert(old_rem.contains(v));
                }
            }
            assert forall|i: int, j: int|
                0 <= i < out@.len() && 0 <= j < remaining@.len() implies (
            #[trigger] out@[i]).result.mean <= (#[trigger] remaining@[j]).result.mean by {
                assert(remaining@[j] == old_rem.remove(best as int)[j]);
                if i < out@.len() - 1 {
                    assert(out@[i] == old_out[i]);
                    if j < best {
                        assert(old_rem[j] == remaining@[j]);
                    } else {
                        assert(old_rem[j + 1] == remaining@[j]);
                    }
                } else {
                    assert(out@[i] == v);
                    if j < best {
                        assert(remaining@[j] == old_rem[j]);
                    } else {
                        assert(remaining@[j] == old_rem[j + 1]);
                    }
                }
            }
        }
    }
    out
}

/// Annotate every result against the fastest one and order the output as
/// asked.
fn compute_relative_speeds(results: Vec<BenchmarkResult>, sort_order: SortOrder) -> (out: Vec<
    BenchmarkResultWithRelativeSpeed,
>)
    requires
        results@.len() > 0,
        bounded_results(results@),
    ensures
        ranked(out@, results@, sort_order),
{
    broadcast use vstd::seq_lib::group_to_multiset_ensures;

    let ghost rs = results@;
    let n: usize = results.len();
    proof {
        assert(rs.len() == n);
    }
    let fi = fastest_of(&results);
    proof {
        lemma_fastest_index(rs);
    }
    let fastest_mean = results[fi].mean;
    let fastest_sd = results[fi].stddev;
    let mut entries: Vec<BenchmarkResultWithRelativeSpeed> = Vec::new();
    let mut remaining = results;
    let mut i: usize = 0;
    while remaining.len() > 0
        invariant
            rs.len() > 0,
            rs.len() <= usize::MAX,
            i + remaining@.len() == rs.len(),
            remaining@ == rs.skip(i as int),
            fi == fastest_index_of(rs),
            fastest_mean == rs[fi as int].mean,
            fastest_sd == rs[fi as int].stddev,
            bounded_results(rs),
            0 <= fi < rs.len(),
            entries@.len() == i,
            forall|j: int|
                0 <= j < i ==> entries@[j] == annotate(
                    rs[j],
                    rs[fi as int].mean,
                    rs[fi as int].stddev,
                    j == fi,
                ),
        decreases remaining@.len(),
    {
        let source = remaining.remove(0);
        proof {
            assert(source == rs[i as int]);
            assert(rs.skip(i as int).remove(0) =~= rs.skip(i + 1 as int));
            assert(bounded_result(rs[i as int]));
            assert(bounded_result(rs[fi as int]));
        }
        let e = annotate_one(source, fastest_mean, fastest_sd, i == fi);
        entries.push(e);
        i = i + 1;
    }
    proof {
        assert(entries@ =~= annotated_entries(rs));
    }
    match sort_order {
        SortOrder::Command => entries,
        SortOrder::MeanTime => sort_entries(entries),
    }
}

/// Rank the results against the fastest one, refusing a comparison when the
/// fastest mean is exactly zero.
pub fn compute_with_check(results: Vec<BenchmarkResult>, sort_order: SortOrder) -> (r: Option<
    Vec<BenchmarkResultWithRelativeSpeed>,
>)
    requires
        results@.len() > 0,
        bounded_results(results@),
    ensures
        r is None <==> exists|i: int| 0 <= i < results@.len() && (#[trigger] results@[i]).mean
            == 0,
        r matches Some(out) ==> ranked(out@, results@, sort_order),
{
    let fi = fastest_of(&results);
    proof {
        lemma_fastest_index(results@);
    }
    if results[fi].mean == 0 {
        return None;
    }
    Some(compute_relative_speeds(results, sort_order))
}

/// Rank the results against the fastest one; with a zero-mean fastest
/// result, zero-mean results count as tied for fastest with the unit ratio
/// and every other ratio is infinite (`u64::MAX`).
pub fn compute(results: Vec<BenchmarkResult>, sort_order: SortOrder) -> (out: Vec<
    BenchmarkResultWithRelativeSpeed,
>)
    requires
        results@.len() > 0,
        bounded_results(results@),
    ensures
        ranked(out@, results@, sort_order),
{
    compute_relative_speeds(results, sort_order)
}

} // verus!
