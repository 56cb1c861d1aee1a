use hyperfine::parse::{parse_duration, parse_fixed};
use hyperfine::units::{format_duration, format_duration_unit, Unit};

#[test]
fn test_unit_short_name() {
    assert_eq!("s", Unit::Second.short_name());
    assert_eq!("ms", Unit::MilliSecond.short_name());
}

// Note - the values are rounded when formatted.
#[test]
fn test_unit_format() {
    let value: u64 = 123_456_789;
    assert_eq!("123.457", Unit::Second.format(value));
    assert_eq!("123456.8", Unit::MilliSecond.format(value));
}

#[test]
fn format_pads_fractions_with_zeros() {
    assert_eq!("0.000", Unit::Second.format(0));
    assert_eq!("0.0", Unit::MilliSecond.format(0));
    assert_eq!("1.050", Unit::Second.format(1_050_000));
    assert_eq!("0.2", Unit::MilliSecond.format(200));
}

#[test]
fn format_rounds_half_up() {
    // 1.45 ms rounds up to 1.5; 1.449 ms rounds down to 1.4
    assert_eq!("1.5", Unit::MilliSecond.format(1450));
    assert_eq!("1.4", Unit::MilliSecond.format(1449));
    assert_eq!("0.002", Unit::Second.format(1500));
    assert_eq!("0.001", Unit::Second.format(1499));
}

#[test]
fn duration_under_a_second_formats_as_milliseconds() {
    let (text, unit) = format_duration_unit(105_700, None);
    assert_eq!(Unit::MilliSecond, unit);
    assert_eq!("105.7", text);
}

#[test]
fn duration_of_a_second_or_more_formats_as_seconds() {
    let (text, unit) = format_duration_unit(2_005_000, None);
    assert_eq!(Unit::Second, unit);
    assert_eq!("2.005", text);
    assert_eq!("2005.0", format_duration(2_005_000, Some(Unit::MilliSecond)));
}

#[test]
fn parse_fixed_reads_digits_and_point() {
    assert_eq!(Some(123_457), parse_fixed("123.457", 3));
    assert_eq!(Some(1_057), parse_fixed("105.7", 1));
    assert_eq!(Some(0), parse_fixed("0.000", 3));
    assert_eq!(None, parse_fixed("123.45", 3));
    assert_eq!(None, parse_fixed("12a.457", 3));
    assert_eq!(None, parse_fixed(".457", 3));
    assert_eq!(None, parse_fixed("", 3));
}

#[test]
fn parse_duration_scales_back_to_microseconds() {
    assert_eq!(Some(123_457_000), parse_duration("123.457", Unit::Second));
    assert_eq!(Some(105_700), parse_duration("105.7", Unit::MilliSecond));
    assert_eq!(None, parse_duration("105.7", Unit::Second));
}

#[test]
fn formatting_then_parsing_stays_within_half_a_step() {
    let samples: [u64; 6] = [0, 999, 105_700, 123_456_789, 2_005_000, 1_499];
    for &micros in samples.iter() {
        for unit in [Unit::Second, Unit::MilliSecond] {
            let step: i64 = match unit {
                Unit::Second => 1000,
                Unit::MilliSecond => 100,
            };
            let text = unit.format(micros);
            let back = parse_duration(&text, unit).unwrap();
            let diff = back as i64 - micros as i64;
            assert!(diff <= step / 2, "{} in {:?}: diff {}", micros, unit, diff);
            assert!(diff >= 1 - step / 2, "{} in {:?}: diff {}", micros, unit, diff);
        }
    }
}
