use fmt_runner::cli_entry::{default_config_name, parse_command};
use fmt_runner::CliCommand;

#[test]
fn test_as_str_names_each_command() {
    assert_eq!(CliCommand::Init.as_str(), "init");
    assert_eq!(CliCommand::Format.as_str(), "format");
    assert_eq!(CliCommand::Check.as_str(), "check");
}

#[test]
fn test_parse_command_roundtrip() {
    assert_eq!(parse_command("init"), Some(CliCommand::Init));
    assert_eq!(parse_command("format"), Some(CliCommand::Format));
    assert_eq!(parse_command("check"), Some(CliCommand::Check));
    assert_eq!(parse_command("frobnicate"), None);
    assert_eq!(parse_command(""), None);
}

#[test]
fn test_default_config_name_appends_yml() {
    assert_eq!(default_config_name("jvfmt"), "jvfmt.yml");
    assert_eq!(default_config_name("my-tool"), "my-tool.yml");
}
