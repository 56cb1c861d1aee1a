//! Summary statistics over timing samples.
//!
//! A sample is a wall-clock (or CPU) time in whole microseconds. The
//! aggregator computes the arithmetic mean, the median over the sorted
//! samples, the minimum, the maximum, and the sample standard deviation,
//! all in integer arithmetic: quotients round toward zero and the standard
//! deviation is the floor of the square root of the sample variance.

use vstd::arithmetic::div_mod::{
    lemma_div_by_multiple, lemma_div_is_ordered, lemma_div_pos_is_pos,
};
use vstd::arithmetic::mul::lemma_mul_inequality;
use vstd::multiset::Multiset;
use vstd::prelude::*;
use vstd::relations::{sorted_by, total_ordering};

verus! {

/// Largest admissible single sample (in microseconds, about 2.2 years), so
/// that sums of squared deviations stay inside 128-bit arithmetic.
pub const MAX_SAMPLE_MICROS: u64 = 0x4000_0000_0000;

/// Largest admissible number of samples, for the same reason.
pub const MAX_SAMPLE_COUNT: u64 = 0x1000_0000;

/// Every sample of `s` is at most [`MAX_SAMPLE_MICROS`] and there are at most
/// [`MAX_SAMPLE_COUNT`] of them.
pub open spec fn bounded_samples(s: Seq<u64>) -> bool {
    &&& forall|i: int| 0 <= i < s.len() ==> #[trigger] s[i] <= MAX_SAMPLE_MICROS
    &&& s.len() <= MAX_SAMPLE_COUNT
}

/// Sum of a sample sequence, as a mathematical integer.
pub open spec fn sum_seq(s: Seq<u64>) -> int
    decreases s.len(),
{
    if s.len() == 0 {
        0
    } else {
        sum_seq(s.drop_last()) + s.last()
    }
}

/// Arithmetic mean of a non-empty sample sequence, rounded toward zero.
pub open spec fn mean_spec(s: Seq<u64>) -> u64
    recommends
        s.len() > 0,
{
    (sum_seq(s) / s.len() as int) as u64
}

/// The comparison that orders samples ascending.
pub open spec fn sample_leq() -> spec_fn(u64, u64) -> bool {
    |x: u64, y: u64| x <= y
}

/// The ascending reordering of a sample sequence.
pub open spec fn sorted_of(s: Seq<u64>) -> Seq<u64> {
    s.sort_by(sample_leq())
}

/// Median of a non-empty sample sequence: the midpoint of the sorted
/// samples, or the mean of the two central samples for even counts.
pub open spec fn median_spec(s: Seq<u64>) -> u64
    recommends
        s.len() > 0,
{
    let t = sorted_of(s);
    let n = s.len() as int;
    if n % 2 == 1 {
        t[n / 2]
    } else {
        ((t[n / 2 - 1] + t[n / 2]) / 2) as u64
    }
}

/// Squared deviation of one sample from `m`.
pub open spec fn sq_dev(x: u64, m: u64) -> int {
    (x - m) * (x - m)
}

/// Sum of squared deviations of a sample sequence from `m`.
pub open spec fn sum_sq_dev(s: Seq<u64>, m: u64) -> int
    decreases s.len(),
{
    if s.len() == 0 {
        0
    } else {
        sum_sq_dev(s.drop_last(), m) + sq_dev(s.last(), m)
    }
}

/// `r` is the floor of the square root of `x`.
pub open spec fn is_floor_sqrt(x: int, r: int) -> bool {
    r * r <= x < (r + 1) * (r + 1)
}

/// Sample variance of a sample sequence with at least two samples, with the
/// mean already rounded to whole microseconds.
pub open spec fn variance_spec(s: Seq<u64>) -> int
    recommends
        s.len() >= 2,
{
    sum_sq_dev(s, mean_spec(s)) / (s.len() - 1) as int
}

/// `r` is the sample standard deviation of `s`: zero for a single sample,
/// otherwise the floor of the square root of the sample variance.
pub open spec fn is_stddev(s: Seq<u64>, r: u64) -> bool
    recommends
        s.len() > 0,
{
    if s.len() <= 1 {
        r == 0
    } else {
        is_floor_sqrt(variance_spec(s), r as int)
    }
}

/// Appending one sample extends the sum by that sample.
pub proof fn lemma_sum_take_step(s: Seq<u64>, i: int)
    requires
        0 <= i < s.len(),
    ensures
        sum_seq(s.take(i + 1)) == sum_seq(s.take(i)) + s[i],
{
    assert(s.take(i + 1).drop_last() =~= s.take(i));
}

/// A sum of samples out of `[lo, hi]` lies between `lo * count` and `hi * count`.
pub proof fn lemma_sum_bounds(s: Seq<u64>, lo: int, hi: int)
    requires
        forall|i: int| 0 <= i < s.len() ==> lo <= #[trigger] s[i] <= hi,
    ensures
        lo * s.len() <= sum_seq(s) <= hi * s.len(),
    decreases s.len(),
{
    if s.len() == 0 {
    } else {
        lemma_sum_bounds(s.drop_last(), lo, hi);
        assert(lo * s.len() == lo * (s.len() - 1) + lo) by (nonlinear_arith);
        assert(hi * s.len() == hi * (s.len() - 1) + hi) by (nonlinear_arith);
    }
}

/// The mean of samples out of `[lo, hi]` lies in `[lo, hi]` as well.
pub proof fn lemma_mean_in_range(s: Seq<u64>, lo: int, hi: int)
    requires
        s.len() > 0,
        0 <= lo,
        forall|i: int| 0 <= i < s.len() ==> lo <= #[trigger] s[i] <= hi,
    ensures
        lo <= mean_spec(s) <= hi,
{
    let n = s.len() as int;
    lemma_sum_bounds(s, lo, hi);
    lemma_div_is_ordered(lo * n, sum_seq(s), n);
    lemma_div_is_ordered(sum_seq(s), hi * n, n);
    lemma_div_by_multiple(lo, n);
    lemma_div_by_multiple(hi, n);
    lemma_sum_bounds(s, 0, u64::MAX as int);
    lemma_div_is_ordered(0, sum_seq(s), n);
    lemma_div_is_ordered(sum_seq(s), u64::MAX as int * n, n);
    lemma_div_by_multiple(u64::MAX as int, n);
}

/// The ascending ordering of samples is a total ordering.
pub proof fn lemma_sample_leq_total()
    ensures
        total_ordering(sample_leq()),
{
}

/// Two ascending sequences over the same multiset of samples are equal.
pub proof fn lemma_sorted_unique(a: Seq<u64>, b: Seq<u64>)
    requires
        sorted_by(a, sample_leq()),
        sorted_by(b, sample_leq()),
        a.to_multiset() =~= b.to_multiset(),
    ensures
        a =~= b,
    decreases a.len(),
{
    broadcast use vstd::seq_lib::group_to_multiset_ensures;

    assert(a.len() == a.to_multiset().len());
    assert(b.len() == b.to_multiset().len());
    if a.len() > 0 {
        assert(a.to_multiset().count(a[0]) > 0);
        assert(b.contains(a[0]));
        assert(b.to_multiset().count(b[0]) > 0);
        assert(a.contains(b[0]));
        let ia = choose|i: int| 0 <= i < a.len() && a[i] == b[0];
        let ib = choose|i: int| 0 <= i < b.len() && b[i] == a[0];
        assert(sample_leq()(a[0], a[ia]));
        assert(sample_leq()(b[0], b[ib]));
        assert(a[0] == b[0]);
        assert(a.remove(0).to_multiset() =~= a.to_multiset().remove(a[0]));
        assert(b.remove(0).to_multiset() =~= b.to_multiset().remove(b[0]));
        assert(forall|i: int, j: int|
            0 <= i < j < a.remove(0).len() ==> sample_leq()(a.remove(0)[i], a.remove(0)[j]));
        assert(forall|i: int, j: int|
            0 <= i < j < b.remove(0).len() ==> sample_leq()(b.remove(0)[i], b.remove(0)[j]));
        lemma_sorted_unique(a.remove(0), b.remove(0));
        assert forall|i: int| 0 <= i < a.len() implies a[i] == b[i] by {
            if i > 0 {
                assert(a.remove(0)[i - 1] == b.remove(0)[i - 1]);
            }
        }
    }
}

/// Every sample of the sorted reordering is one of the original samples.
pub proof fn lemma_sorted_of_in_range(s: Seq<u64>, lo: int, hi: int)
    requires
        forall|i: int| 0 <= i < s.len() ==> lo <= #[trigger] s[i] <= hi,
    ensures
        sorted_of(s).len() == s.len(),
        forall|i: int| 0 <= i < s.len() ==> lo <= #[trigger] sorted_of(s)[i] <= hi,
{
    broadcast use vstd::seq_lib::group_to_multiset_ensures;

    lemma_sample_leq_total();
    s.lemma_sort_by_ensures(sample_leq());
    let t = sorted_of(s);
    assert(t.len() == t.to_multiset().len());
    assert(s.len() == s.to_multiset().len());
    assert forall|i: int| 0 <= i < s.len() implies lo <= #[trigger] t[i] <= hi by {
        assert(t.to_multiset().count(t[i]) > 0);
        assert(s.to_multiset().count(t[i]) > 0);
        assert(s.contains(t[i]));
    }
}

/// The median of samples out of `[lo, hi]` lies in `[lo, hi]` as well.
pub proof fn lemma_median_in_range(s: Seq<u64>, lo: int, hi: int)
    requires
        s.len() > 0,
        0 <= lo,
        forall|i: int| 0 <= i < s.len() ==> lo <= #[trigger] s[i] <= hi,
    ensures
        lo <= median_spec(s) <= hi,
{
    lemma_sorted_of_in_range(s, lo, hi);
}

/// Arithmetic mean of the samples, rounded toward zero.
pub fn mean(times: &Vec<u64>) -> (m: u64)
    requires
        times@.len() > 0,
    ensures
        m == mean_spec(times@),
{
    let ghost s = times@;
    let n: usize = times.len();
    let mut sum: u128 = 0;
    let mut i: usize = 0;
    while i < n
        invariant
            0 <= i <= n,
            n == s.len(),
            times@ == s,
            sum == sum_seq(s.take(i as int)),
        decreases n - i,
    {
        proof {
            lemma_sum_take_step(s, i as int);
            lemma_sum_bounds(s.take(i as int), 0, u64::MAX as int);
            lemma_mul_inequality(i as int, u64::MAX as int, u64::MAX as int);
        }
        sum = sum + times[i] as u128;
        i = i + 1;
    }
    proof {
        assert(s.take(n as int) =~= s);
        lemma_sum_bounds(s, 0, u64::MAX as int);
        lemma_div_is_ordered(sum_seq(s), u64::MAX as int * n as int, n as int);
        lemma_div_by_multiple(u64::MAX as int, n as int);
        lemma_div_pos_is_pos(sum_seq(s), n as int);
    }
    (sum / n as u128) as u64
}

/// Smallest sample.
pub fn min(times: &Vec<u64>) -> (r: u64)
    requires
        times@.len() > 0,
    ensures
        forall|i: int| 0 <= i < times@.len() ==> r <= #[trigger] times@[i],
        times@.contains(r),
{
    let mut r: u64 = times[0];
    let mut i: usize = 1;
    while i < times.len()
        invariant
            1 <= i <= times@.len(),
            forall|j: int| 0 <= j < i ==> r <= #[trigger] times@[j],
            exists|j: int| 0 <= j < i && r == times@[j],
        decreases times@.len() - i,
    {
        if times[i] < r {
            r = times[i];
        }
        i = i + 1;
    }
    r
}

/// Largest sample.
pub fn max(times: &Vec<u64>) -> (r: u64)
    requires
        times@.len() > 0,
    ensures
        forall|i: int| 0 <= i < times@.len() ==> times@[i] <= r,
        times@.contains(r),
{
    let mut r: u64 = times[0];
    let mut i: usize = 1;
    while i < times.len()
        invariant
            1 <= i <= times@.len(),
            forall|j: int| 0 <= j < i ==> #[trigger] times@[j] <= r,
            exists|j: int| 0 <= j < i && r == times@[j],
        decreases times@.len() - i,
    {
        if times[i] > r {
            r = times[i];
        }
        i = i + 1;
    }
    r
}

/// Ascending copy of the samples, by repeatedly extracting the smallest
/// remaining sample.
#[verifier::loop_isolation(false)]
pub fn sort_samples(times: &Vec<u64>) -> (r: Vec<u64>)
    ensures
        r@ == sorted_of(times@),
        r@.len() == times@.len(),
{
    broadcast use vstd::seq_lib::group_to_multiset_ensures;

    let mut remaining: Vec<u64> = Vec::new();
    let mut i: usize = 0;
    while i < times.len()
        invariant
            0 <= i <= times@.len(),
            remaining@ == times@.take(i as int),
        decreases times@.len() - i,
    {
        remaining.push(times[i]);
        i = i + 1;
    }
    proof {
        assert(times@.take(times@.len() as int) =~= times@);
    }

    let mut out: Vec<u64> = Vec::new();
    while remaining.len() > 0
        invariant
            out@.to_multiset().add(remaining@.to_multiset()) =~= times@.to_multiset(),
            sorted_by(out@, sample_leq()),
            forall|i: int, j: int|
                0 <= i < out@.len() && 0 <= j < remaining@.len() ==> #[trigger] out@[i]
                    <= #[trigger] remaining@[j],
        decreases remaining@.len(),
    {
        let ghost old_out = out@;
        let ghost old_rem = remaining@;
        // index of the smallest remaining sample
        let mut best: usize = 0;
        let mut k: usize = 1;
        while k < remaining.len()
            invariant
                0 <= best < k <= remaining@.len(),
                remaining@.len() > 0,
                forall|j: int| 0 <= j < k ==> remaining@[best as int] <= #[trigger] remaining@[j],
            decreases remaining@.len() - k,
        {
            if remaining[k] < remaining[best] {
                best = k;
            }
            k = k + 1;
        }
        let v = remaining.remove(best);
        out.push(v);
        proof {
            assert(old_rem.remove(best as int).to_multiset() =~= old_rem.to_multiset().remove(v));
            assert(old_rem.to_multiset().count(v) > 0);
            assert(out@.to_multiset() =~= old_out.to_multiset().insert(v));
            assert(out@.to_multiset().add(remaining@.to_multiset()) =~= times@.to_multiset());
            assert forall|i: int, j: int|
                0 <= i < j < out@.len() implies sample_leq()(out@[i], out@[j]) by {
                if j == out@.len() - 1 {
                    assert(out@[i] == old_out[i]);
                    assert(out@[j] == v);
                    assert(old_rem.contains(v));
                }
            }
            assert forall|i: int, j: int|
                0 <= i < out@.len() && 0 <= j < remaining@.len() implies #[trigger] out@[i]
                    <= #[trigger] remaining@[j] by {
                assert(remaining@[j] == old_rem.remove(best as int)[j]);
                if i < out@.len() - 1 {
                    assert(out@[i] == old_out[i]);
                    if j < best {
                        assert(old_rem[j] == remaining@[j]);
                    } else {
                        assert(old_rem[j + 1] == remaining@[j]);
                    }
                } else {
                    assert(out@[i] == v);
                    if j < best {
                        assert(remaining@[j] == old_rem[j]);
                    } else {
                        assert(remaining@[j] == old_rem[j + 1]);
                    }
                }
            }
        }
    }
    proof {
        assert(remaining@.to_multiset() =~= Multiset::<u64>::empty()) by {
            assert(remaining@ =~= Seq::<u64>::empty());
        }
        assert(out@.to_multiset() =~= times@.to_multiset());
        lemma_sample_leq_total();
        times@.lemma_sort_by_ensures(sample_leq());
        lemma_sorted_unique(out@, sorted_of(times@));
        assert(out@.len() == out@.to_multiset().len());
        assert(times@.len() == times@.to_multiset().len());
    }
    out
}

/// Median of the samples: the midpoint of the sorted samples, or the mean of
/// the two central samples for even counts.
pub fn median(times: &Vec<u64>) -> (r: u64)
    requires
        times@.len() > 0,
    ensures
        r == median_spec(times@),
{
    let sorted = sort_samples(times);
    let n: usize = sorted.len();
    if n % 2 == 1 {
        sorted[n / 2]
    } else {
        let a = sorted[n / 2 - 1];
        let b = sorted[n / 2];
        proof {
            assert((a as int + b as int) / 2 <= u64::MAX);
        }
        ((a as u128 + b as u128) / 2) as u64
    }
}

/// Floor of the square root of `x`, by binary search over the result.
pub fn isqrt_u128(x: u128) -> (r: u64)
    ensures
        is_floor_sqrt(x as int, r as int),
{
    let mut lo: u64 = 0;
    let mut hi: u64 = u64::MAX;
    proof {
        assert(x < (hi as int + 1) * (hi as int + 1)) by (nonlinear_arith)
            requires
                hi == 0xffff_ffff_ffff_ffffu64,
                x <= 0xffff_ffff_ffff_ffff_ffff_ffff_ffff_ffffu128,
        ;
    }
    while lo < hi
        invariant
            lo <= hi,
            (lo as int) * (lo as int) <= x,
            x < (hi as int + 1) * (hi as int + 1),
        decreases hi - lo,
    {
        let mid: u64 = hi - (hi - lo) / 2;
        proof {
            assert(mid as int * mid as int <= 0xffff_ffff_ffff_ffff_ffff_ffff_ffff_ffffint)
                by (nonlinear_arith)
                requires
                    0 <= mid as int <= 0xffff_ffff_ffff_ffffint,
            ;
        }
        let sq: u128 = (mid as u128) * (mid as u128);
        if sq <= x {
            lo = mid;
        } else {
            hi = mid - 1;
        }
    }
    lo
}

/// Squared deviations of each sample from the mean extend stepwise.
proof fn lemma_sum_sq_dev_take_step(s: Seq<u64>, m: u64, i: int)
    requires
        0 <= i < s.len(),
    ensures
        sum_sq_dev(s.take(i + 1), m) == sum_sq_dev(s.take(i), m) + sq_dev(s[i], m),
{
    assert(s.take(i + 1).drop_last() =~= s.take(i));
}

/// A sum of squared deviations of bounded samples from a bounded mean is at
/// most `count * MAX_SAMPLE_MICROS^2`.
proof fn lemma_sum_sq_dev_bounds(s: Seq<u64>, m: u64)
    requires
        forall|i: int| 0 <= i < s.len() ==> #[trigger] s[i] <= MAX_SAMPLE_MICROS,
        m <= MAX_SAMPLE_MICROS,
    ensures
        0 <= sum_sq_dev(s, m) <= s.len() * (MAX_SAMPLE_MICROS as int * MAX_SAMPLE_MICROS as int),
    decreases s.len(),
{
    let limit = MAX_SAMPLE_MICROS as int * MAX_SAMPLE_MICROS as int;
    if s.len() == 0 {
    } else {
        lemma_sum_sq_dev_bounds(s.drop_last(), m);
        let x = s.last() as int;
        let mm = m as int;
        assert(0 <= (x - mm) * (x - mm) <= MAX_SAMPLE_MICROS as int * MAX_SAMPLE_MICROS as int)
            by (nonlinear_arith)
            requires
                0 <= x <= MAX_SAMPLE_MICROS as int,
                0 <= mm <= MAX_SAMPLE_MICROS as int,
        ;
        assert(sq_dev(s.last(), m) == (x - mm) * (x - mm));
        assert(s.len() * limit == (s.len() - 1) * limit + limit) by (nonlinear_arith);
    }
}

/// Sample standard deviation: zero for a single sample, otherwise the floor
/// of the square root of the sample variance around the rounded mean.
pub fn stddev(times: &Vec<u64>, mean_value: u64) -> (r: u64)
    requires
        times@.len() > 0,
        bounded_samples(times@),
        mean_value == mean_spec(times@),
    ensures
        is_stddev(times@, r),
{
    let ghost s = times@;
    let n: usize = times.len();
    if n == 1 {
        return 0;
    }
    proof {
        lemma_mean_in_range(s, 0, MAX_SAMPLE_MICROS as int);
    }
    let mut acc: u128 = 0;
    let mut i: usize = 0;
    while i < n
        invariant
            0 <= i <= n,
            n == s.len(),
            times@ == s,
            bounded_samples(s),
            mean_value <= MAX_SAMPLE_MICROS,
            acc == sum_sq_dev(s.take(i as int), mean_value),
        decreases n - i,
    {
        proof {
            lemma_sum_sq_dev_take_step(s, mean_value, i as int);
            lemma_sum_sq_dev_bounds(s.take(i as int), mean_value);
            lemma_mul_inequality(
                i as int,
                MAX_SAMPLE_COUNT as int,
                MAX_SAMPLE_MICROS as int * MAX_SAMPLE_MICROS as int,
            );
        }
        let x = times[i];
        let d: u64 = if x >= mean_value {
            x - mean_value
        } else {
            mean_value - x
        };
        proof {
            let xi = s[i as int] as int;
            let mm = mean_value as int;
            assert((xi - mm) * (xi - mm) == (mm - xi) * (mm - xi)) by (nonlinear_arith);
            assert(sq_dev(s[i as int], mean_value) == d as int * d as int);
            assert(acc + d as int * d as int <= u128::MAX) by (nonlinear_arith)
                requires
                    0 <= acc <= MAX_SAMPLE_COUNT as int * (MAX_SAMPLE_MICROS as int
                        * MAX_SAMPLE_MICROS as int),
                    0 <= d as int <= MAX_SAMPLE_MICROS as int,
                    MAX_SAMPLE_COUNT == 0x1000_0000u64,
                    MAX_SAMPLE_MICROS == 0x4000_0000_0000u64,
            ;
        }
        acc = acc + (d as u128) * (d as u128);
        i = i + 1;
    }
    proof {
        assert(s.take(n as int) =~= s);
        lemma_sum_sq_dev_bounds(s, mean_value);
        lemma_div_pos_is_pos(sum_sq_dev(s, mean_value), n - 1 as int);
        lemma_sum_sq_dev_bounds(s, mean_value);
    }
    let variance: u128 = acc / (n as u128 - 1);
    proof {
        lemma_div_is_ordered(0, sum_sq_dev(s, mean_value), n - 1 as int);
    }
    isqrt_u128(variance)
}

} // verus!
