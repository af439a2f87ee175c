//! Configuration data: the project configuration and each processor's settings.

use vstd::prelude::*;
use crate::text::strings_view;

verus! {

/// Where a processor looks for its input files.
pub struct ScanConfig {
    /// Directory to scan, relative to the project root ("" for the root itself).
    pub scan_dir: String,
    /// File-name endings to match, such as ".py".
    pub extensions: Vec<String>,
    /// Path segments that exclude a file, such as "/.git/".
    pub exclude_dirs: Vec<String>,
    /// File names to skip.
    pub exclude_files: Vec<String>,
    /// Paths relative to the project root to skip.
    pub exclude_paths: Vec<String>,
}

impl ScanConfig {
    pub fn scan_dir(&self) -> (r: &str)
        ensures
            r@ == self.scan_dir@,
    {
        self.scan_dir.as_str()
    }

    pub fn extensions(&self) -> (r: &Vec<String>)
        ensures
            r == &self.extensions,
    {
        &self.extensions
    }

    pub fn exclude_dirs(&self) -> (r: &Vec<String>)
        ensures
            r == &self.exclude_dirs,
    {
        &self.exclude_dirs
    }

    pub fn exclude_files(&self) -> (r: &Vec<String>)
        ensures
            r == &self.exclude_files,
    {
        &self.exclude_files
    }

    pub fn exclude_paths(&self) -> (r: &Vec<String>)
        ensures
            r == &self.exclude_paths,
    {
        &self.exclude_paths
    }
}

/// The project configuration (`rsb.toml`).
pub struct Config {
    pub lint: LintConfig,
    pub completions: CompletionsConfig,
}

/// Which shells completions are generated for.
pub struct CompletionsConfig {
    /// The shells to generate completions for by default.
    pub shells: Vec<String>,
}

/// The Python linter and its arguments.
pub struct LintConfig {
    /// The Python linter to use (ruff, pylint, flake8, ...).
    pub linter: String,
    /// Additional arguments to pass to the linter.
    pub args: Vec<String>,
}

/// The default shells: bash.
pub fn default_shells() -> (r: Vec<String>)
    ensures
        strings_view(r@) == seq!["bash"@],
{
    let mut v: Vec<String> = Vec::new();
    v.push(String::from_str("bash"));
    assert(strings_view(v@) == seq!["bash"@]);
    v
}

/// The default linter: ruff.
pub fn default_linter() -> (r: String)
    ensures
        r@ == "ruff"@,
{
    String::from_str("ruff")
}

impl Default for CompletionsConfig {
    fn default() -> (r: Self)
        ensures
            strings_view(r.shells@) == seq!["bash"@],
    {
        Self { shells: default_shells() }
    }
}

impl Default for LintConfig {
    fn default() -> (r: Self)
        ensures
            r.linter@ == "ruff"@,
            r.args@.len() == 0,
    {
        Self { linter: default_linter(), args: Vec::new() }
    }
}

impl Default for Config {
    fn default() -> (r: Self)
        ensures
            r.lint.linter@ == "ruff"@,
            r.lint.args@.len() == 0,
            strings_view(r.completions.shells@) == seq!["bash"@],
    {
        Self { lint: LintConfig::default(), completions: CompletionsConfig::default() }
    }
}

/// Settings shared by most checkers.
pub struct StandardConfig {
    pub scan: ScanConfig,
    pub args: Vec<String>,
    pub dep_inputs: Vec<String>,
    pub dep_auto: Vec<String>,
    pub batch: bool,
    pub max_jobs: Option<usize>,
}

/// Settings of a checker that runs a configurable command.
pub struct CheckerConfigWithCommand {
    pub command: String,
    pub args: Vec<String>,
    pub scan: ScanConfig,
    pub dep_inputs: Vec<String>,
    pub dep_auto: Vec<String>,
    pub batch: bool,
}

/// What distinguishes one simple checker from another.
pub struct SimpleCheckerParams {
    pub description: &'static str,
    /// A subcommand given to the tool before the arguments.
    pub subcommand: Option<&'static str>,
    /// Arguments given before the configured ones.
    pub prepend_args: Vec<&'static str>,
    /// Tools needed besides the command.
    pub extra_tools: Vec<&'static str>,
}

/// Settings of a checker that only takes extra arguments.
pub struct ArgsCheckerConfig {
    pub args: Vec<String>,
    pub scan: ScanConfig,
    pub dep_inputs: Vec<String>,
    pub dep_auto: Vec<String>,
    pub batch: bool,
    pub max_jobs: Option<usize>,
}

pub type CheckpatchConfig = ArgsCheckerConfig;
pub type CppcheckConfig = ArgsCheckerConfig;
pub type CpplintConfig = ArgsCheckerConfig;

/// Settings of luacheck.
pub struct LuacheckConfig {
    /// The luacheck command.
    pub checker: String,
    pub args: Vec<String>,
    pub scan: ScanConfig,
    pub dep_inputs: Vec<String>,
    pub dep_auto: Vec<String>,
    pub batch: bool,
    pub max_jobs: Option<usize>,
}

/// Settings of a package installer run in the directory of its manifest.
pub struct InstallerConfig {
    /// The installer command (bundler, npm, pip).
    pub tool: String,
    /// Its subcommand (such as `install`).
    pub command: String,
    pub args: Vec<String>,
    pub scan: ScanConfig,
    pub extra_inputs: Vec<String>,
}

pub type GemConfig = InstallerConfig;
pub type NpmConfig = InstallerConfig;
pub type PipConfig = InstallerConfig;

/// Settings of markdownlint.
pub struct MarkdownlintConfig {
    pub markdownlint_bin: String,
    pub standard: StandardConfig,
}

/// Settings of the C/C++ dependency analyzer.
pub struct CppAnalyzerConfig {
    pub cc: String,
    pub cxx: String,
    pub cflags: Vec<String>,
    pub cxxflags: Vec<String>,
    pub include_paths: Vec<String>,
    /// Packages whose include paths `pkg-config` gives.
    pub pkg_config: Vec<String>,
    /// Shell commands that each print one include path.
    pub include_path_commands: Vec<String>,
    /// Path segments that exclude a source file from scanning.
    pub src_exclude_dirs: Vec<String>,
}

/// Settings of the technical-term checker.
pub struct TechCheckConfig {
    /// Directory of `.txt` files listing the terms, one per line.
    pub tech_files_dir: String,
    pub scan: ScanConfig,
    pub extra_inputs: Vec<String>,
    pub auto_inputs: Vec<String>,
    pub batch: bool,
}

} // verus!

pub mod variables;
pub mod toml_value;
