use friday::text::join_text;
use friday::{Action, Command, Config, Error, IoFailure};

fn args(words: &[&str]) -> Vec<String> {
    words.iter().map(|s| s.to_string()).collect()
}

#[test]
fn config_is_created() {
    let friday_file = "testing".to_string();
    let cfg = Config::build(&args(&["binary", "show"]), Some(friday_file.clone())).unwrap();
    assert_eq!(cfg, Config { action: Action::Show, file: friday_file, input: None });
}

#[test]
fn config_fails_for_invalid_enum() {
    let cfg = Config::build(&args(&["binary", "invalid"]), None);
    assert!(cfg.is_err());
}

#[test]
fn multiple_inputs_are_joined() {
    let cfg = Config::build_with_home(
        &args(&["binary", "add", "these", "args", "are", "joined", "together"]),
        None,
        Some("/home/u".to_string()),
    )
    .unwrap();
    assert_eq!(cfg.input, Some("these args are joined together".to_string()));
}

#[test]
fn single_input_is_kept() {
    let cfg = Config::build_with_home(
        &args(&["binary", "add", "this is a single string argument"]),
        None,
        Some("/home/u".to_string()),
    )
    .unwrap();
    assert_eq!(cfg.input, Some("this is a single string argument".to_string()));
}

#[test]
fn blank_file_setting_uses_home() {
    let cfg = Config::build_with_home(&args(&["binary"]), Some("  ".to_string()), Some("/home/u".to_string())).unwrap();
    assert_eq!(cfg.action, Action::Help);
    assert_eq!(cfg.file, "/home/u/friday.md");
    let err = Config::build_with_home(&args(&["binary", "edit"]), None, None);
    assert_eq!(err, Err(Error::InvalidArgument("failed to get users home dir".to_string())));
}

#[test]
fn unknown_action_names_the_word() {
    assert_eq!(Action::parse("nope"), Err(Error::InvalidCommand("nope".to_string())));
    assert_eq!(Action::parse("edit"), Ok(Action::Edit));
    assert_eq!(Action::parse(""), Ok(Action::Help));
    assert_eq!(Command::parse("add"), Ok(Command::Add));
    assert_eq!(Command::parse("edit"), Err(Error::InvalidArgument("edit".to_string())));
}

#[test]
fn error_messages() {
    assert_eq!(Error::InvalidArgument("x".to_string()).message(), "Invalid argument: x");
    assert_eq!(Error::InvalidCommand("y".to_string()).message(), "Invalid command: y");
    assert_eq!(Error::NotFound("section z".to_string()).message(), "section z not found");
    assert_eq!(Error::IO(IoFailure::UnexpectedEof).message(), "IO error: early eof");
    assert_eq!(Error::UnsupportedTransferEncoding.message(), "Transfer-Encoding is not supported");
    assert_eq!(Error::ConstructionError.message_bytes(), b"worker pool size must be greater than zero".to_vec());
}

#[test]
fn join_text_joins() {
    assert_eq!(join_text("ab", "ç"), "abç");
    assert_eq!(join_text("", ""), "");
}

#[test]
fn integration_test_it_prints_help_on_empty_action() {
    let cfg = Config::build_with_home(&args(&["friday"]), Some("sth".to_string()), None).unwrap();
    assert_eq!(cfg.action, Action::Help);
    let output_str = friday::config::help_text();
    assert!(
        output_str.contains("manage stuff to do on fridays"),
        "expected '{}' to contain 'manage stuff to do on fridays'",
        output_str
    )
}

#[test]
fn editor_command_splits_arguments() {
    assert_eq!(friday::config::editor_command("code -w"), vec!["code".to_string(), "-w".to_string()]);
    assert_eq!(friday::config::editor_command("  "), vec!["vi".to_string()]);
    assert_eq!(friday::config::editor_command(""), vec!["vi".to_string()]);
}
