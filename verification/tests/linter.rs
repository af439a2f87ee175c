use rsb::config::LintConfig;
use rsb::linter::{is_python_file, LintItem, Linter};

#[test]
fn lint_item_paths() {
    let item = LintItem::new(
        "/proj/src/pkg/mod.py".to_string(),
        "/proj/out/lint",
        "/proj",
        "ruff",
        &vec!["--quiet".to_string()],
    );
    assert_eq!(item.stub_path, "/proj/out/lint/src_pkg_mod.py.lint");
    assert_eq!(item.cache_key(), "lint:src/pkg/mod.py");
    assert_eq!(item.display_name(), "src/pkg/mod.py");
    let run = item.lint_run();
    assert_eq!(run.program, "ruff");
    assert_eq!(run.args, vec!["check".to_string(), "--quiet".to_string(), "/proj/src/pkg/mod.py".to_string()]);
    assert_eq!(run.dir, "/proj");
}

#[test]
fn lint_item_outside_root_and_other_linter() {
    let item = LintItem::new("other/x.py".to_string(), "stubs", "/proj", "pylint", &vec![]);
    assert_eq!(item.stub_path, "stubs/other_x.py.lint");
    assert_eq!(item.display_name(), "other/x.py");
    assert_eq!(item.lint_run().args, vec!["other/x.py".to_string()]);
}

#[test]
fn linter_stub_dir_and_items() {
    let linter = Linter::new("/proj".to_string(), LintConfig::default());
    assert_eq!(linter.stub_dir, "/proj/out/lint");
    let items = linter.find_python_files(vec!["/proj/a.py".to_string(), "/proj/b/c.py".to_string()]);
    assert_eq!(items.len(), 2);
    assert_eq!(items[1].stub_path, "/proj/out/lint/b_c.py.lint");
    assert_eq!(items[0].linter, "ruff");
}

#[test]
fn should_lint_needs_pyproject_or_python_tests() {
    assert!(Linter::should_lint(true, false, false));
    assert!(Linter::should_lint(false, true, true));
    assert!(!Linter::should_lint(false, true, false));
    assert!(!Linter::should_lint(false, false, true));
}

#[test]
fn lintable_paths() {
    assert!(Linter::is_lintable_project_path("/proj/src/a.py"));
    assert!(!Linter::is_lintable_project_path("/proj/.venv/lib/a.py"));
    assert!(!Linter::is_lintable_project_path("/proj/build/a.py"));
    assert!(!Linter::is_lintable_project_path("/proj/src/a.txt"));
    assert!(is_python_file("x.py"));
    assert!(!is_python_file("x.pyc"));
    assert!(!is_python_file("py"));
}

fn strings(v: &[&str]) -> Vec<String> {
    v.iter().map(|x| x.to_string()).collect()
}

#[test]
fn python_sources_from_project_or_tests() {
    let project = strings(&["/p/a.py", "/p/.venv/lib/x.py", "/p/README.md", "/p/pkg/b.py", "/p/out/c.py"]);
    let tests = strings(&["/p/tests/t.py", "/p/tests/data.json"]);
    assert_eq!(Linter::python_sources(true, &project, true, &tests), strings(&["/p/a.py", "/p/pkg/b.py"]));
    assert_eq!(Linter::python_sources(false, &project, true, &tests), strings(&["/p/tests/t.py"]));
    assert!(Linter::python_sources(false, &project, false, &tests).is_empty());
}
