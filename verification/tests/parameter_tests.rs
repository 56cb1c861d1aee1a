use hyperfine::parameter::{
    expand_commands, int_scan, numeric_scan, Decimal, ExpansionError, NumericType, ParameterAxis,
    ParameterScanError, ParameterValue,
};

fn int_values(values: &[i32]) -> Vec<ParameterValue> {
    values
        .iter()
        .map(|&v| ParameterValue::Numeric(NumericType::Int(v)))
        .collect()
}

fn text_values(values: &[&str]) -> Vec<ParameterValue> {
    values
        .iter()
        .map(|&v| ParameterValue::Text(String::from(v)))
        .collect()
}

// A numeric scan over [1, 3] with the default step yields exactly the three
// values, ascending.
#[test]
fn a_numeric_scan_counts_through_the_range() {
    let values = int_scan(1, 3, 1).unwrap();
    assert_eq!(
        vec![
            NumericType::Int(1),
            NumericType::Int(2),
            NumericType::Int(3)
        ],
        values
    );
}

#[test]
fn a_numeric_scan_with_a_larger_step_skips_values() {
    let values = int_scan(0, 10, 4).unwrap();
    assert_eq!(
        vec![
            NumericType::Int(0),
            NumericType::Int(4),
            NumericType::Int(8)
        ],
        values
    );
}

#[test]
fn an_empty_range_is_a_configuration_error() {
    assert_eq!(Err(ParameterScanError::EmptyRange), int_scan(5, 4, 1));
}

#[test]
fn a_zero_step_is_a_configuration_error() {
    assert_eq!(Err(ParameterScanError::ZeroStep), int_scan(1, 3, 0));
}

#[test]
fn mixed_numeric_kinds_are_a_configuration_error() {
    let r = numeric_scan(
        NumericType::Int(1),
        NumericType::Decimal(Decimal::new(30, 1).unwrap()),
        NumericType::Int(1),
    );
    assert_eq!(Err(ParameterScanError::MixedNumericTypes), r);
}

#[test]
fn a_decimal_scan_preserves_the_decimal_kind() {
    let min = Decimal::new(5, 1).unwrap(); // 0.5
    let max = Decimal::new(15, 1).unwrap(); // 1.5
    let step = Decimal::new(5, 1).unwrap(); // 0.5
    let values = numeric_scan(
        NumericType::Decimal(min),
        NumericType::Decimal(max),
        NumericType::Decimal(step),
    )
    .unwrap();
    let texts: Vec<String> = values
        .iter()
        .map(|v| match v {
            NumericType::Decimal(d) => d.to_text(),
            NumericType::Int(i) => i.to_string(),
        })
        .collect();
    assert_eq!(vec!["0.5", "1.0", "1.5"], texts);
}

#[test]
fn a_decimal_scan_that_leaves_the_mantissa_range_is_refused() {
    let min = Decimal::new(i64::MAX - 10, 0).unwrap();
    let max = Decimal::new(i64::MAX, 0).unwrap();
    let step = Decimal::new(100, 0).unwrap();
    let r = numeric_scan(
        NumericType::Decimal(min),
        NumericType::Decimal(max),
        NumericType::Decimal(step),
    );
    assert_eq!(Err(ParameterScanError::Overflow), r);
}

#[test]
fn decimal_arithmetic_aligns_scales() {
    let half = Decimal::new(5, 1).unwrap(); // 0.5
    let quarter = Decimal::new(25, 2).unwrap(); // 0.25
    let sum = half.checked_add(&quarter).unwrap();
    assert_eq!("0.75", sum.to_text());
    assert!(quarter.le(&half));
    assert!(!half.le(&quarter));
}

#[test]
fn decimal_rendering_keeps_sign_and_scale() {
    assert_eq!("2.5", Decimal::new(25, 1).unwrap().to_text());
    assert_eq!("-2.5", Decimal::new(-25, 1).unwrap().to_text());
    assert_eq!("25", Decimal::new(25, 0).unwrap().to_text());
    assert_eq!("0.025", Decimal::new(25, 3).unwrap().to_text());
    assert_eq!(None, Decimal::new(1, 19));
}

#[test]
fn decimal_conversion_truncates_toward_zero() {
    assert_eq!(Some(2), Decimal::new(25, 1).unwrap().to_u64());
    assert_eq!(None, Decimal::new(-25, 1).unwrap().to_u64());
    assert_eq!(Some(2), NumericType::Decimal(Decimal::new(25, 1).unwrap()).to_usize());
    assert_eq!(Some(5), NumericType::Int(5).to_usize());
    assert_eq!(None, NumericType::Int(-1).to_usize());
}

#[test]
fn fails_with_duplicate_parameter_names() {
    let templates = vec![(None, String::from("echo test"))];
    let axes = vec![
        ParameterAxis {
            name: String::from("x"),
            values: int_values(&[1, 2, 3]),
        },
        ParameterAxis {
            name: String::from("x"),
            values: text_values(&["a", "b", "c"]),
        },
    ];
    match expand_commands(&templates, &axes) {
        Err(ExpansionError::DuplicateParameterNames(names)) => {
            assert_eq!(vec![String::from("x")], names);
        },
        Ok(_) => panic!("duplicate parameter names were not refused"),
    }
}

// A numeric scan over [1, 3] combined with one command template produces
// exactly three commands, bound to 1, 2 and 3 in ascending order.
#[test]
fn parameter_expansion_binds_each_scan_value() {
    let templates = vec![(None, String::from("echo {x}"))];
    let values: Vec<ParameterValue> = int_scan(1, 3, 1)
        .unwrap()
        .into_iter()
        .map(ParameterValue::Numeric)
        .collect();
    let axes = vec![ParameterAxis {
        name: String::from("x"),
        values,
    }];
    let commands = expand_commands(&templates, &axes).unwrap();
    assert_eq!(3, commands.len());
    let shell: Vec<String> = commands.iter().map(|c| c.get_shell_command()).collect();
    assert_eq!(vec!["echo 1", "echo 2", "echo 3"], shell);
    assert_eq!("echo 2", commands[1].get_name());
    assert_eq!(1, commands[0].get_parameters().len());
}

#[test]
fn expansion_crosses_every_axis_with_every_template() {
    let templates = vec![
        (Some(String::from("first")), String::from("run {a} {b}")),
        (None, String::from("other {a}-{b}")),
    ];
    let axes = vec![
        ParameterAxis {
            name: String::from("a"),
            values: int_values(&[1, 2]),
        },
        ParameterAxis {
            name: String::from("b"),
            values: text_values(&["x", "y"]),
        },
    ];
    let commands = expand_commands(&templates, &axes).unwrap();
    assert_eq!(8, commands.len());
    let shell: Vec<String> = commands.iter().map(|c| c.get_shell_command()).collect();
    assert_eq!(
        vec![
            "run 1 x", "run 1 y", "run 2 x", "run 2 y", "other 1-x", "other 1-y", "other 2-x",
            "other 2-y",
        ],
        shell
    );
    assert_eq!("first", commands[0].get_name());
    assert_eq!("other 1-x", commands[4].get_name());
}

#[test]
fn expansion_without_axes_keeps_the_templates() {
    let templates = vec![(None, String::from("echo a")), (None, String::from("echo b"))];
    let commands = expand_commands(&templates, &Vec::new()).unwrap();
    assert_eq!(2, commands.len());
    assert_eq!("echo a", commands[0].get_shell_command());
    assert_eq!("echo b", commands[1].get_shell_command());
}
