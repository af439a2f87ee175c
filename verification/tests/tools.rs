use rsb::exit_code::RsbExitCode;
use rsb::tools::{
    check_line, check_outcome, confirms, insert_sorted, install_hint, install_outcome, install_plan, list_line, text_less,
    tool_map, ToolEntry, ToolUser,
};

fn user(name: &str, enabled: bool, tools: &[&str]) -> ToolUser {
    ToolUser {
        processor: name.to_string(),
        enabled,
        tools: tools.iter().map(|t| t.to_string()).collect(),
    }
}

fn entries(r: &[ToolEntry]) -> Vec<(String, Vec<String>)> {
    r.iter().map(|e| (e.tool.clone(), e.processors.clone())).collect()
}

fn s(v: &[&str]) -> Vec<String> {
    v.iter().map(|x| x.to_string()).collect()
}

#[test]
fn install_hints_for_known_tools() {
    assert_eq!(install_hint("ruff"), Some("pip install ruff"));
    assert_eq!(install_hint("clang++"), Some("apt install clang"));
    assert_eq!(install_hint("jsonlint"), Some("npm install -g jsonlint"));
    assert_eq!(
        install_hint("cargo"),
        Some("curl --proto '=https' --tlsv1.2 -sSf https://sh.rustup.rs | sh")
    );
    assert_eq!(install_hint("rumdl"), Some("cargo install rumdl"));
    assert_eq!(install_hint("protoc"), Some("apt install protobuf-compiler"));
}

#[test]
fn install_hint_unknown_tool() {
    assert_eq!(install_hint("frobnicate"), None);
    assert_eq!(install_hint("Ruff"), None);
    assert_eq!(install_hint(""), None);
}

#[test]
fn tool_map_lists_enabled_processors_sorted() {
    let users = vec![
        user("ruff", true, &["ruff"]),
        user("pylint", false, &["pylint", "python3"]),
        user("mypy", true, &["python3", "mypy"]),
        user("black", true, &["python3"]),
    ];
    let r = tool_map(&users, false);
    assert_eq!(
        entries(&r),
        vec![
            ("mypy".to_string(), s(&["mypy"])),
            ("python3".to_string(), s(&["black", "mypy"])),
            ("ruff".to_string(), s(&["ruff"])),
        ]
    );
}

#[test]
fn tool_map_show_all_includes_disabled() {
    let users = vec![
        user("ruff", true, &["ruff"]),
        user("pylint", false, &["pylint", "python3"]),
        user("mypy", true, &["python3", "mypy"]),
        user("black", true, &["python3", "python3"]),
    ];
    let r = tool_map(&users, true);
    assert_eq!(
        entries(&r),
        vec![
            ("mypy".to_string(), s(&["mypy"])),
            ("pylint".to_string(), s(&["pylint"])),
            ("python3".to_string(), s(&["black", "mypy", "pylint"])),
            ("ruff".to_string(), s(&["ruff"])),
        ]
    );
}

#[test]
fn tool_map_empty() {
    assert!(tool_map(&[], true).is_empty());
    assert!(tool_map(&[user("ruff", false, &["ruff"])], false).is_empty());
}

#[test]
fn check_outcome_fails_on_a_missing_tool() {
    assert!(check_outcome(&[true, true]).is_ok());
    assert!(check_outcome(&[]).is_ok());
    let err = check_outcome(&[true, false, true]).unwrap_err();
    assert_eq!(err.exit_code, RsbExitCode::ToolError);
    assert_eq!(err.message, "Some required tools are missing");
}

#[test]
fn install_outcome_fails_on_a_failed_install() {
    assert!(install_outcome(&[true]).is_ok());
    let err = install_outcome(&[false]).unwrap_err();
    assert_eq!(err.exit_code, RsbExitCode::ToolError);
    assert_eq!(err.message, "Some tools failed to install");
}

#[test]
fn confirms_yes_answers() {
    assert!(confirms("y\n"));
    assert!(confirms("  Yes  "));
    assert!(confirms("YES\n"));
    assert!(!confirms("no\n"));
    assert!(!confirms(""));
    assert!(!confirms("yep"));
    assert!(!confirms("\n"));
}

#[test]
fn install_plan_for_a_named_tool() {
    let (plan, skipped) = install_plan(Some("ruff"), &[], &[]).unwrap();
    assert_eq!(plan, vec![("ruff".to_string(), "pip install ruff")]);
    assert!(skipped.is_empty());
}

#[test]
fn install_plan_for_an_unknown_named_tool() {
    let err = install_plan(Some("frob"), &[], &[]).unwrap_err();
    assert_eq!(err, "No install hint known for tool 'frob'");
}

#[test]
fn install_plan_for_missing_tools() {
    let tools = s(&["jq", "frob", "ruff", "mdl"]);
    let (plan, skipped) = install_plan(None, &tools, &[false, false, true, false]).unwrap();
    assert_eq!(
        plan,
        vec![("jq".to_string(), "apt install jq"), ("mdl".to_string(), "gem install mdl")]
    );
    assert_eq!(skipped, s(&["frob"]));
}

#[test]
fn list_line_joins_processors() {
    let e = ToolEntry { tool: "python3".to_string(), processors: s(&["black", "mypy"]) };
    assert_eq!(list_line(&e), "python3 (black, mypy)");
    let one = ToolEntry { tool: "ruff".to_string(), processors: s(&["ruff"]) };
    assert_eq!(list_line(&one), "ruff (ruff)");
}

#[test]
fn text_order_is_byte_order() {
    assert!(text_less("a", "b"));
    assert!(text_less("", "a"));
    assert!(text_less("ab", "abc"));
    assert!(!text_less("abc", "ab"));
    assert!(!text_less("a", "a"));
    assert!(text_less("Z", "a"));
    assert!(text_less("z", "é"));
}

#[test]
fn insert_sorted_keeps_order_and_drops_repeats() {
    let mut v = s(&["b", "d"]);
    insert_sorted(&mut v, "c");
    insert_sorted(&mut v, "a");
    insert_sorted(&mut v, "d");
    insert_sorted(&mut v, "e");
    assert_eq!(v, s(&["a", "b", "c", "d", "e"]));
}

#[test]
fn check_line_found_or_missing() {
    let e = ToolEntry { tool: "ruff".to_string(), processors: s(&["lint", "ruff"]) };
    assert_eq!(check_line(&e, Some("/usr/bin/ruff")), "ruff (lint, ruff) found /usr/bin/ruff");
    assert_eq!(check_line(&e, None), "ruff (lint, ruff) missing \u{2014} install with: pip install ruff");
    let other = ToolEntry { tool: "frobnicate".to_string(), processors: s(&["x"]) };
    assert_eq!(check_line(&other, None), "frobnicate (x) missing");
}
