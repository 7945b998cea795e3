use sshmgr_tui::runtime::{resolve_parts, resolve_path, PathPart};
use sshmgr_tui::cli::{parse_args, CliCommand, HELP};
use sshmgr_tui::runtime::{is_request_filename, is_valid_token};
use sshmgr_tui::workspace::move_index;

#[test]
fn validates_token_and_request_names() {
    assert!(is_valid_token(&"a".repeat(64)));
    assert!(!is_valid_token(&"A".repeat(64)));
    assert!(is_request_filename(&format!(
        "request-1-{}.json",
        "b".repeat(32)
    )));
    assert!(!is_request_filename(&format!(
        "request-0-{}.json",
        "b".repeat(32)
    )));
}

#[test]
fn index_movement_is_clamped() {
    assert_eq!(move_index(0, -1, 3), 0);
    assert_eq!(move_index(2, 1, 3), 2);
    assert_eq!(move_index(4, -1, 0), 0);
}

fn args(values: &[&str]) -> Vec<String> {
    values.iter().map(|value| value.to_string()).collect()
}

#[test]
fn parses_normal_and_helper_modes() {
    assert_eq!(parse_args(&args(&["--create-runtime"])), CliCommand::CreateRuntime);
    assert!(matches!(
        parse_args(&args(&["--snapshot", "./snapshot.json"])),
        CliCommand::Run { .. }
    ));
    assert!(matches!(
        parse_args(&args(&["--cleanup-runtime", "/tmp/wezterm-sshmgr-one"])),
        CliCommand::CleanupRuntime { .. }
    ));
    assert!(matches!(
        parse_args(&args(&["--replace-file", "a", "b"])),
        CliCommand::ReplaceFile { .. }
    ));
    assert_eq!(parse_args(&Vec::<String>::new()), CliCommand::Help);
}

#[test]
fn help_documents_compatible_flags() {
    for flag in [
        "--snapshot",
        "--create-runtime",
        "--cleanup-runtime",
        "--replace-file",
    ] {
        assert!(HELP.contains(flag));
    }
}

#[test]
fn paths_resolve_lexically_against_the_working_directory() {
    assert_eq!(resolve_path("./a/../b/./c", "/work"), "/work/b/c");
    assert_eq!(resolve_path("/x/../../y", "/work"), "/y");
    assert_eq!(resolve_path("/", "/work"), "/");
    let parts = vec![
        PathPart::Root("/".to_owned()),
        PathPart::Parent,
        PathPart::Name("a".to_owned()),
        PathPart::Current,
        PathPart::Name("b".to_owned()),
        PathPart::Parent,
    ];
    assert_eq!(resolve_parts(&parts), vec![PathPart::Root("/".to_owned()), PathPart::Name("a".to_owned())]);
}
