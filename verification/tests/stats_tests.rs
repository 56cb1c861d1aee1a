use hyperfine::outlier::{compute_mad, outlier_warning};
use hyperfine::stats::{isqrt_u128, max, mean, median, min, sort_samples, stddev};
use hyperfine::types::Warnings;

#[test]
fn mean_rounds_toward_zero() {
    assert_eq!(4, mean(&vec![2, 4, 7]));
    assert_eq!(5, mean(&vec![5]));
    assert_eq!(105_000, mean(&vec![100_000, 110_000]));
}

#[test]
fn median_is_the_sorted_midpoint() {
    assert_eq!(3, median(&vec![5, 1, 3]));
    assert_eq!(2, median(&vec![4, 1, 3, 2]));
    assert_eq!(7, median(&vec![7]));
}

#[test]
fn min_and_max_find_the_extremes() {
    let samples = vec![9, 2, 17, 4];
    assert_eq!(2, min(&samples));
    assert_eq!(17, max(&samples));
}

#[test]
fn sorting_samples_is_ascending_and_keeps_them_all() {
    let sorted = sort_samples(&vec![9, 2, 17, 4, 2]);
    assert_eq!(vec![2, 2, 4, 9, 17], sorted);
}

#[test]
fn a_single_sample_has_zero_stddev() {
    assert_eq!(0, stddev(&vec![42], 42));
}

#[test]
fn stddev_is_the_floor_of_the_sample_deviation() {
    // samples 2, 4, 6: mean 4, squared deviations 4 + 0 + 4, variance 4
    let samples = vec![2, 4, 6];
    let m = mean(&samples);
    assert_eq!(4, m);
    assert_eq!(2, stddev(&samples, m));
}

#[test]
fn integer_square_roots_are_floors() {
    assert_eq!(0, isqrt_u128(0));
    assert_eq!(3, isqrt_u128(15));
    assert_eq!(4, isqrt_u128(16));
    assert_eq!(7_071, isqrt_u128(50_000_000));
    assert_eq!(u64::MAX, isqrt_u128(u128::MAX));
}

#[test]
fn mad_is_the_median_absolute_deviation() {
    let samples = vec![5_000_000, 1_000_000, 1_050_000, 980_000, 1_020_000];
    let med = median(&samples);
    assert_eq!(1_020_000, med);
    assert_eq!(30_000, compute_mad(&samples, med));
}

// A sample set whose first element is far above the rest yields the
// slow-initial-run classification, not the generic outliers warning.
#[test]
fn a_slow_first_run_is_classified_as_such() {
    let samples = vec![5_000_000, 1_000_000, 1_050_000, 980_000, 1_020_000];
    assert_eq!(
        Some(Warnings::SlowInitialRun(5_000_000)),
        outlier_warning(&samples)
    );
}

#[test]
fn an_outlier_elsewhere_gives_the_generic_warning() {
    let samples = vec![1_000_000, 1_050_000, 980_000, 1_020_000, 5_000_000];
    assert_eq!(Some(Warnings::OutliersDetected), outlier_warning(&samples));
}

#[test]
fn unremarkable_samples_give_no_outlier_warning() {
    let samples = vec![1_000_000, 1_010_000, 990_000, 1_020_000, 980_000];
    assert_eq!(None, outlier_warning(&samples));
}

#[test]
fn identical_samples_give_no_outlier_warning() {
    // zero deviation: every score counts as zero
    let samples = vec![1_000_000, 1_000_000, 1_000_000];
    assert_eq!(None, outlier_warning(&samples));
}
