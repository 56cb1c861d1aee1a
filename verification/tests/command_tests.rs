use hyperfine::command::Command;
use hyperfine::parameter::{NumericType, ParameterValue};
use hyperfine::text::replace_str;
use hyperfine::types::{CmdFailureAction, HyperfineOptions, OutputStyleOption, Runs};

#[test]
fn replace_substitutes_every_occurrence() {
    assert_eq!("a\\|b\\|c", replace_str("a|b|c", "|", "\\|"));
    assert_eq!("unchanged", replace_str("unchanged", "|", "\\|"));
    assert_eq!("", replace_str("", "|", "\\|"));
}

#[test]
fn replacement_does_not_rescan_its_own_output() {
    // the replacement spells out the pattern, yet each occurrence is
    // replaced exactly once
    assert_eq!("xxyxx", replace_str("xyx", "x", "xx"));
}

#[test]
fn a_plain_command_is_its_own_name() {
    let command = Command::new(None, String::from("sleep 1"));
    assert_eq!("sleep 1", command.get_name());
    assert_eq!("sleep 1", command.get_shell_command());
    assert!(command.get_parameters().is_empty());
}

#[test]
fn a_named_command_keeps_its_display_name() {
    let command = Command::new(Some(String::from("nap")), String::from("sleep 1"));
    assert_eq!("nap", command.get_name());
    assert_eq!("sleep 1", command.get_shell_command());
}

#[test]
fn parameters_are_substituted_into_the_shell_text() {
    let command = Command::new_parametrized(
        None,
        String::from("sleep {duration} && echo {word}"),
        vec![
            (
                String::from("duration"),
                ParameterValue::Numeric(NumericType::Int(2)),
            ),
            (
                String::from("word"),
                ParameterValue::Text(String::from("done")),
            ),
        ],
    );
    assert_eq!("sleep 2 && echo done", command.get_shell_command());
    assert_eq!("sleep 2 && echo done", command.get_name());
}

#[test]
fn unknown_tokens_stay_in_place() {
    let command = Command::new_parametrized(
        None,
        String::from("echo {other}"),
        vec![(
            String::from("x"),
            ParameterValue::Numeric(NumericType::Int(1)),
        )],
    );
    assert_eq!("echo {other}", command.get_shell_command());
}

#[test]
fn default_options_match_the_documented_baseline() {
    let options = HyperfineOptions::default();
    assert_eq!(0, options.warmup_count);
    assert_eq!(10, options.runs.min);
    assert_eq!(None, options.runs.max);
    assert_eq!(3_000_000, options.min_time_micros);
    assert_eq!(CmdFailureAction::RaiseError, options.failure_action);
    assert_eq!(None, options.preparation_command);
    assert_eq!(None, options.cleanup_command);
    assert_eq!(OutputStyleOption::Full, options.output_style);
    assert_eq!("sh", options.shell);
    assert!(!options.show_output);
    assert!(options.time_unit.is_none());
    assert!(options.names.is_none());

    let runs = Runs::default();
    assert_eq!(10, runs.min);
    assert_eq!(None, runs.max);
}

#[test]
fn display_name_templates_are_substituted_too() {
    let command = Command::new_parametrized(
        Some(String::from("run with {x}")),
        String::from("echo {x}"),
        vec![(
            String::from("x"),
            ParameterValue::Numeric(NumericType::Int(7)),
        )],
    );
    assert_eq!("run with 7", command.get_name());
    assert_eq!("echo 7", command.get_shell_command());
}
