use hyperfine::relative_speed::{compare_mean_time, compute, compute_with_check};
use hyperfine::types::{BenchmarkResult, SortOrder};
use std::cmp::Ordering;

fn create_result(name: &str, mean: u64) -> BenchmarkResult {
    BenchmarkResult {
        command: name.into(),
        mean,
        stddev: Some(1_000_000),
        median: mean,
        user: mean,
        system: 0,
        min: mean,
        max: mean,
        times: None,
        exit_codes: Vec::new(),
        parameters: Vec::new(),
    }
}

#[test]
fn test_compute_relative_speed() {
    let results = vec![
        create_result("cmd1", 3_000_000),
        create_result("cmd2", 2_000_000),
        create_result("cmd3", 5_000_000),
    ];

    let annotated_results = compute_with_check(results, SortOrder::Command).unwrap();

    // ratios in thousandths: 1.5, 1.0, 2.5
    assert_eq!(1500, annotated_results[0].relative_speed);
    assert_eq!(1000, annotated_results[1].relative_speed);
    assert_eq!(2500, annotated_results[2].relative_speed);
}

#[test]
fn test_compute_relative_speed_for_zero_times() {
    let results = vec![create_result("cmd1", 1_000_000), create_result("cmd2", 0)];

    let annotated_results = compute_with_check(results, SortOrder::Command);

    assert!(annotated_results.is_none());
}

#[test]
fn only_the_first_fastest_result_is_flagged() {
    let results = vec![
        create_result("cmd1", 3_000_000),
        create_result("cmd2", 2_000_000),
        create_result("cmd3", 2_000_000),
    ];
    let annotated = compute(results, SortOrder::Command);
    assert!(!annotated[0].is_fastest);
    assert!(annotated[1].is_fastest);
    assert!(!annotated[2].is_fastest);
}

#[test]
fn unchecked_ranking_with_zero_mean_uses_the_infinity_sentinel() {
    let results = vec![create_result("cmd1", 1_000_000), create_result("cmd2", 0)];
    let annotated = compute(results, SortOrder::Command);
    assert_eq!(u64::MAX, annotated[0].relative_speed);
    assert_eq!(1000, annotated[1].relative_speed);
    assert_eq!(None, annotated[0].relative_speed_stddev);
    assert!(annotated[1].is_fastest);
}

#[test]
fn relative_speed_stddev_is_propagated() {
    // fastest: mean 2.0 s, stddev 1.0 s; the ratio of the fastest to itself
    // carries sqrt((0.5)^2 + (0.5)^2) ~ 0.707 of propagated uncertainty
    let results = vec![
        create_result("cmd1", 3_000_000),
        create_result("cmd2", 2_000_000),
    ];
    let annotated = compute_with_check(results, SortOrder::Command).unwrap();
    assert_eq!(Some(707), annotated[1].relative_speed_stddev);
}

#[test]
fn stddev_is_absent_when_either_input_is_unknown() {
    let mut slow = create_result("cmd1", 3_000_000);
    slow.stddev = None;
    let results = vec![slow, create_result("cmd2", 2_000_000)];
    let annotated = compute_with_check(results, SortOrder::Command).unwrap();
    assert_eq!(None, annotated[0].relative_speed_stddev);
    assert!(annotated[1].relative_speed_stddev.is_some());
}

#[test]
fn sorting_by_mean_time_reorders_ascending() {
    let results = vec![
        create_result("cmd1", 3_000_000),
        create_result("cmd2", 2_000_000),
        create_result("cmd3", 5_000_000),
    ];
    let annotated = compute(results, SortOrder::MeanTime);
    assert_eq!("cmd2", annotated[0].result.command);
    assert_eq!("cmd1", annotated[1].result.command);
    assert_eq!("cmd3", annotated[2].result.command);
}

#[test]
fn compare_mean_time_orders_by_mean() {
    let a = create_result("a", 1_000_000);
    let b = create_result("b", 2_000_000);
    assert_eq!(Ordering::Less, compare_mean_time(&a, &b));
    assert_eq!(Ordering::Greater, compare_mean_time(&b, &a));
    assert_eq!(Ordering::Equal, compare_mean_time(&a, &a));
}
