use hyperfine::export::markdown::{table_header, MarkdownExporter};
use hyperfine::parse::parse_duration;
use hyperfine::types::BenchmarkResult;
use hyperfine::units::Unit;

fn result(
    command: &str,
    mean: u64,
    stddev: u64,
    user: u64,
    system: u64,
    min: u64,
    max: u64,
    times: Vec<u64>,
) -> BenchmarkResult {
    BenchmarkResult::new(
        String::from(command),
        mean,
        Some(stddev),
        mean,
        user,
        system,
        min,
        max,
        times,
        Vec::new(),
        Vec::new(),
    )
}

/// Ensure the markdown output includes the table header and the multiple
/// benchmark results as a table. The list of actual times is not included
/// in the output.
///
/// This also demonstrates that the first entry's units (ms) are used to set
/// the units for all entries.
#[test]
fn test_markdown_format_ms() {
    let exporter = MarkdownExporter::default();

    let timing_results = vec![
        result(
            "sleep 0.1",
            105_700, // mean
            1_600,   // std dev
            900,     // user_mean
            1_100,   // system_mean
            102_300, // min
            108_000, // max
            vec![100_000, 100_000, 100_000],
        ),
        result(
            "sleep 2",
            2_005_000, // mean
            2_000,     // std dev
            900,       // user_mean
            1_200,     // system_mean
            2_002_000, // min
            2_008_000, // max
            vec![2_000_000, 2_000_000, 2_000_000],
        ),
    ];

    let formatted = exporter.serialize(&timing_results);

    let formatted_expected = format!(
        "{}\
| `sleep 0.1` | 105.7 ± 1.6 | 102.3…108.0 |
| `sleep 2` | 2005.0 ± 2.0 | 2002.0…2008.0 |
",
        table_header("ms".to_string())
    );

    assert_eq!(formatted_expected, formatted);
}

/// This (again) demonstrates that the first entry's units (s) are used to
/// set the units for all entries.
#[test]
fn test_markdown_format_s() {
    let exporter = MarkdownExporter::default();

    let timing_results = vec![
        result(
            "sleep 2",
            2_005_000, // mean
            2_000,     // std dev
            900,       // user_mean
            1_200,     // system_mean
            2_002_000, // min
            2_008_000, // max
            vec![2_000_000, 2_000_000, 2_000_000],
        ),
        result(
            "sleep 0.1",
            105_700, // mean
            1_600,   // std dev
            900,     // user_mean
            1_100,   // system_mean
            102_300, // min
            108_000, // max
            vec![100_000, 100_000, 100_000],
        ),
    ];

    let formatted = exporter.serialize(&timing_results);

    let formatted_expected = format!(
        "{}\
| `sleep 2` | 2.005 ± 0.002 | 2.002…2.008 |
| `sleep 0.1` | 0.106 ± 0.002 | 0.102…0.108 |
",
        table_header("s".to_string())
    );

    assert_eq!(formatted_expected, formatted);
}

#[test]
fn pipes_in_command_names_are_escaped() {
    let exporter = MarkdownExporter::default();
    let timing_results = vec![result(
        "cat x | wc -l",
        2_000_000,
        1_000,
        500,
        500,
        1_900_000,
        2_100_000,
        vec![2_000_000],
    )];
    let formatted = exporter.serialize(&timing_results);
    assert!(formatted.contains("| `cat x \\| wc -l` |"));
}

/// Serializing a two-entry result set and re-parsing it preserves the
/// command names and keeps means, minima and maxima within the displayed
/// rounding precision.
#[test]
fn markdown_serialization_round_trips_within_precision() {
    let exporter = MarkdownExporter::default();
    let entries: [(&str, u64, u64, u64); 2] = [
        ("first command", 105_731, 102_349, 108_021),
        ("second command", 93_444, 91_002, 97_911),
    ];
    let timing_results = vec![
        result(
            entries[0].0,
            entries[0].1,
            1_600,
            900,
            1_100,
            entries[0].2,
            entries[0].3,
            vec![entries[0].1],
        ),
        result(
            entries[1].0,
            entries[1].1,
            1_100,
            900,
            1_100,
            entries[1].2,
            entries[1].3,
            vec![entries[1].1],
        ),
    ];
    let formatted = exporter.serialize(&timing_results);
    let unit = Unit::MilliSecond;
    let step: i64 = 100;

    let lines: Vec<&str> = formatted.lines().collect();
    assert_eq!(4, lines.len());
    for (row, expected) in lines[2..].iter().zip(entries.iter()) {
        let cells: Vec<&str> = row.split('|').map(|c| c.trim()).collect();
        // "", command, mean ± stddev, min…max, ""
        assert_eq!(format!("`{}`", expected.0), cells[1]);
        let mean_text = cells[2].split(" ± ").next().unwrap();
        let mut range = cells[3].split('…');
        let min_text = range.next().unwrap();
        let max_text = range.next().unwrap();
        for (text, original) in [
            (mean_text, expected.1),
            (min_text, expected.2),
            (max_text, expected.3),
        ] {
            let back = parse_duration(text, unit).unwrap();
            let diff = back as i64 - original as i64;
            assert!(diff.abs() <= step / 2, "{}: diff {}", text, diff);
        }
    }
}
