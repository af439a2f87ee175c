use rsb::exit_code::{classify_error, classify_lowercase_message, RsbError, RsbExitCode};

#[test]
fn codes_and_names() {
    assert_eq!(RsbExitCode::Success.code(), 0);
    assert_eq!(RsbExitCode::BuildError.code(), 1);
    assert_eq!(RsbExitCode::ConfigError.code(), 2);
    assert_eq!(RsbExitCode::ToolError.code(), 3);
    assert_eq!(RsbExitCode::GraphError.code(), 4);
    assert_eq!(RsbExitCode::IoError.code(), 5);
    assert_eq!(RsbExitCode::Interrupted.code(), 130);
    assert_eq!(RsbExitCode::ToolError.name(), "TOOL_ERROR");
    assert_eq!(RsbExitCode::Interrupted.name(), "INTERRUPTED");
    assert_eq!(RsbExitCode::Success.name(), "SUCCESS");
}

#[test]
fn error_keeps_code_and_message() {
    let e = RsbError::new(RsbExitCode::GraphError, "cycle".to_string());
    assert_eq!(e.exit_code, RsbExitCode::GraphError);
    assert_eq!(e.message, "cycle");
}

#[test]
fn typed_errors_keep_their_code() {
    assert_eq!(classify_error(Some(RsbExitCode::IoError), "cycle detected"), RsbExitCode::IoError);
}

#[test]
fn messages_are_classified_by_phrase() {
    assert_eq!(classify_error(None, "Build interrupted by user"), RsbExitCode::Interrupted);
    assert_eq!(classify_error(None, "Got Ctrl+C"), RsbExitCode::Interrupted);
    assert_eq!(classify_error(None, "No rsb.toml found in /x"), RsbExitCode::ConfigError);
    assert_eq!(classify_error(None, "Unknown field `foo`"), RsbExitCode::ConfigError);
    assert_eq!(classify_error(None, "Undefined variable: ${x}"), RsbExitCode::ConfigError);
    assert_eq!(classify_error(None, "Some required tools are missing"), RsbExitCode::ToolError);
    assert_eq!(classify_error(None, "Tool version mismatch for ruff"), RsbExitCode::ToolError);
    assert_eq!(classify_error(None, "Cycle detected in graph"), RsbExitCode::GraphError);
    assert_eq!(classify_error(None, "Output conflict: a.o"), RsbExitCode::GraphError);
    assert_eq!(classify_error(None, "ruff failed"), RsbExitCode::BuildError);
    assert_eq!(classify_error(None, ""), RsbExitCode::BuildError);
}

#[test]
fn interrupt_wins_over_other_phrases() {
    assert_eq!(classify_lowercase_message("interrupted: unknown processor"), RsbExitCode::Interrupted);
    assert_eq!(classify_lowercase_message("unknown processor and cycle detected"), RsbExitCode::ConfigError);
}
