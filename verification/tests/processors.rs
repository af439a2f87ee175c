use rsb::config::{CheckerConfigWithCommand, InstallerConfig, ScanConfig};
use rsb::graph::Product;
use rsb::processors::base::ProcessorBase;
use rsb::processors::checkers::installers::{GemProcessor, NpmProcessor, PipProcessor};
use rsb::processors::checkers::simple::{create_mypy_default, create_ruff_default};
use rsb::processors::ProcessorType;

fn s(v: &[&str]) -> Vec<String> {
    v.iter().map(|x| x.to_string()).collect()
}

fn scan() -> ScanConfig {
    ScanConfig {
        scan_dir: String::new(),
        extensions: s(&[".py"]),
        exclude_dirs: vec![],
        exclude_files: vec![],
        exclude_paths: vec![],
    }
}

fn checker(command: &str, args: &[&str]) -> CheckerConfigWithCommand {
    CheckerConfigWithCommand {
        command: command.to_string(),
        args: s(args),
        scan: scan(),
        dep_inputs: vec![],
        dep_auto: vec![],
        batch: true,
    }
}

fn installer(tool: &str, command: &str) -> InstallerConfig {
    InstallerConfig { tool: tool.to_string(), command: command.to_string(), args: s(&["--quiet"]), scan: scan(), extra_inputs: vec![] }
}

fn product(input: &str) -> Product {
    Product { id: 0, processor: "p".to_string(), inputs: s(&[input]), outputs: vec![] }
}

#[test]
fn base_kinds() {
    let b = ProcessorBase::checker("ruff", "Lint with ruff");
    assert_eq!(b.description(), "Lint with ruff");
    assert_eq!(b.processor_type(), ProcessorType::Checker);
    assert_eq!(ProcessorBase::generator("g", "d").processor_type(), ProcessorType::Generator);
    assert_eq!(ProcessorBase::creator("c", "d").processor_type(), ProcessorType::Creator);
    assert_eq!(ProcessorBase::explicit("e", "d").processor_type(), ProcessorType::Explicit);
}

#[test]
fn ruff_checks_with_subcommand() {
    let ruff = create_ruff_default(checker("ruff", &["--fix"]));
    let run = ruff.check_files(&["a.py", "b.py"]);
    assert_eq!(run.tool, "ruff");
    assert_eq!(run.subcommand, Some("check".to_string()));
    assert_eq!(run.args, s(&["--fix"]));
    assert_eq!(run.files, s(&["a.py", "b.py"]));
    assert_eq!(ruff.required_tools(), s(&["ruff"]));
    assert!(ruff.supports_batch());
    let one = ruff.execute(&product("c.py"));
    assert_eq!(one.files, s(&["c.py"]));
}

#[test]
fn mypy_without_subcommand() {
    let mypy = create_mypy_default(checker("mypy", &[]));
    let run = mypy.check_files(&["a.py"]);
    assert_eq!(run.subcommand, None);
    assert_eq!(run.tool, "mypy");
}

#[test]
fn installers_run_beside_their_manifest() {
    let gem = GemProcessor::new(installer("bundle", "install"));
    let run = gem.execute(&product("app/Gemfile"));
    assert_eq!(run.program, "bundle");
    assert_eq!(run.args, s(&["install", "--quiet"]));
    assert_eq!(run.anchor, "app/Gemfile");
    let npm = NpmProcessor::new(installer("npm", "ci"));
    assert_eq!(npm.execute(&product("web/package.json")).args, s(&["ci", "--quiet"]));
    let pip = PipProcessor::new(installer("pip", "install"));
    let run = pip.execute(&product("py/requirements.txt"));
    assert_eq!(run.args, s(&["install", "-r", "requirements.txt", "--quiet"]));
    assert_eq!(run.anchor, "py/requirements.txt");
}
