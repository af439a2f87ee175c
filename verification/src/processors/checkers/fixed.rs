//! Checkers with a fixed tool: checkpatch, cppcheck, cpplint, luacheck and markdownlint.

use vstd::prelude::*;
use crate::config::{CheckpatchConfig, CppcheckConfig, CpplintConfig, LuacheckConfig, MarkdownlintConfig};
use crate::graph::Product;
use crate::processors::{
    CheckerRun, ProcessorType, checker_run, strings_view, strs_view, to_strings, concat_strings,
};
use crate::processors::base::ProcessorBase;

verus! {

/// Runs the kernel's checkpatch.pl on C source files.
pub struct CheckpatchProcessor {
    pub config: CheckpatchConfig,
}

impl CheckpatchProcessor {
    pub fn new(config: CheckpatchConfig) -> (r: Self)
        ensures
            r.config == config,
    {
        Self { config }
    }

    /// checkpatch.pl --no-tree -f <args> <primary input>
    pub fn execute_product(&self, product: &Product) -> (r: CheckerRun)
        requires
            product.inputs@.len() > 0,
        ensures
            r.tool@ == "checkpatch.pl"@,
            r.subcommand is None,
            strings_view(r.args@) == seq!["--no-tree"@, "-f"@] + strings_view(self.config.args@),
            strings_view(r.files@) == seq![product.inputs@[0]@],
            r.dir is None,
    {
        let lead: Vec<&str> = vec!["--no-tree", "-f"];
        let lead_s = to_strings(lead.as_slice());
        let args = concat_strings(lead_s, &self.config.args);
        let files: Vec<&str> = vec![product.primary_input()];
        assert(strs_view(lead@) == seq!["--no-tree"@, "-f"@]);
        assert(strs_view(files@) == seq![product.inputs@[0]@]);
        checker_run("checkpatch.pl", None, &args, files.as_slice())
    }

    pub fn description(&self) -> (r: &str)
        ensures
            r@ == "Run kernel checkpatch.pl on C source files"@,
    {
        "Run kernel checkpatch.pl on C source files"
    }

    pub fn required_tools(&self) -> (r: Vec<String>)
        ensures
            strings_view(r@) == seq!["checkpatch.pl"@, "perl"@],
    {
        let v: Vec<&str> = vec!["checkpatch.pl", "perl"];
        assert(strs_view(v@) == seq!["checkpatch.pl"@, "perl"@]);
        to_strings(v.as_slice())
    }

    pub fn supports_batch(&self) -> (r: bool)
        ensures
            !r,
    {
        false
    }
}

/// Runs cppcheck static analysis on C/C++ source files, in the project root.
pub struct CppcheckProcessor {
    pub project_root: String,
    pub config: CppcheckConfig,
}

impl CppcheckProcessor {
    pub fn new(project_root: String, config: CppcheckConfig) -> (r: Self)
        ensures
            r.project_root == project_root,
            r.config == config,
    {
        Self { project_root, config }
    }

    /// cppcheck <args> <primary input>, run in the project root.
    pub fn execute_product(&self, product: &Product) -> (r: CheckerRun)
        requires
            product.inputs@.len() > 0,
        ensures
            r.tool@ == "cppcheck"@,
            r.subcommand is None,
            strings_view(r.args@) == strings_view(self.config.args@),
            strings_view(r.files@) == seq![product.inputs@[0]@],
            r.dir matches Some(d) && d@ == self.project_root@,
    {
        let files: Vec<&str> = vec![product.primary_input()];
        assert(strs_view(files@) == seq![product.inputs@[0]@]);
        let mut r = checker_run("cppcheck", None, &self.config.args, files.as_slice());
        r.dir = Some(self.project_root.clone());
        r
    }

    pub fn required_tools(&self) -> (r: Vec<String>)
        ensures
            strings_view(r@) == seq!["cppcheck"@],
    {
        let v: Vec<&str> = vec!["cppcheck"];
        assert(strs_view(v@) == seq!["cppcheck"@]);
        to_strings(v.as_slice())
    }
}

/// Runs cpplint (Google's C++ style checker) on C/C++ source files.
pub struct CpplintProcessor {
    pub config: CpplintConfig,
}

impl CpplintProcessor {
    pub fn new(config: CpplintConfig) -> (r: Self)
        ensures
            r.config == config,
    {
        Self { config }
    }

    /// cpplint <args> <primary input>
    pub fn execute_product(&self, product: &Product) -> (r: CheckerRun)
        requires
            product.inputs@.len() > 0,
        ensures
            r.tool@ == "cpplint"@,
            r.subcommand is None,
            strings_view(r.args@) == strings_view(self.config.args@),
            strings_view(r.files@) == seq![product.inputs@[0]@],
            r.dir is None,
    {
        let files: Vec<&str> = vec![product.primary_input()];
        assert(strs_view(files@) == seq![product.inputs@[0]@]);
        checker_run("cpplint", None, &self.config.args, files.as_slice())
    }

    pub fn required_tools(&self) -> (r: Vec<String>)
        ensures
            strings_view(r@) == seq!["cpplint"@],
    {
        let v: Vec<&str> = vec!["cpplint"];
        assert(strs_view(v@) == seq!["cpplint"@]);
        to_strings(v.as_slice())
    }
}

/// Lints Lua scripts with luacheck.
pub struct LuacheckProcessor {
    pub config: LuacheckConfig,
}

impl LuacheckProcessor {
    pub fn new(config: LuacheckConfig) -> (r: Self)
        ensures
            r.config == config,
    {
        Self { config }
    }

    /// <checker> <args> <files>, for one or more files.
    pub fn check_files(&self, files: &[&str]) -> (r: CheckerRun)
        ensures
            r.tool@ == self.config.checker@,
            r.subcommand is None,
            strings_view(r.args@) == strings_view(self.config.args@),
            strings_view(r.files@) == strs_view(files@),
            r.dir is None,
    {
        checker_run(self.config.checker.as_str(), None, &self.config.args, files)
    }

    /// The run that checks a product's primary input.
    pub fn execute_product(&self, product: &Product) -> (r: CheckerRun)
        requires
            product.inputs@.len() > 0,
        ensures
            r.tool@ == self.config.checker@,
            r.subcommand is None,
            strings_view(r.args@) == strings_view(self.config.args@),
            strings_view(r.files@) == seq![product.inputs@[0]@],
            r.dir is None,
    {
        let files: Vec<&str> = vec![product.primary_input()];
        assert(strs_view(files@) == seq![product.inputs@[0]@]);
        self.check_files(files.as_slice())
    }

    pub fn required_tools(&self) -> (r: Vec<String>)
        ensures
            strings_view(r@) == seq![self.config.checker@],
    {
        let mut v: Vec<String> = Vec::new();
        v.push(self.config.checker.clone());
        assert(strings_view(v@) == seq![self.config.checker@]);
        v
    }

    pub fn supports_batch(&self) -> (r: bool)
        ensures
            r == self.config.batch,
    {
        self.config.batch
    }
}

/// Lints Markdown files with markdownlint.
pub struct MarkdownlintProcessor {
    pub base: ProcessorBase,
    pub config: MarkdownlintConfig,
}

impl MarkdownlintProcessor {
    pub fn new(config: MarkdownlintConfig) -> (r: Self)
        ensures
            r.config == config,
            r.base.description@ == "Lint Markdown files using markdownlint"@,
            r.base.processor_type == ProcessorType::Checker,
    {
        Self {
            base: ProcessorBase::checker("markdownlint", "Lint Markdown files using markdownlint"),
            config,
        }
    }

    pub fn required_tools(&self) -> (r: Vec<String>)
        ensures
            strings_view(r@) == seq![self.config.markdownlint_bin@],
    {
        let mut v: Vec<String> = Vec::new();
        v.push(self.config.markdownlint_bin.clone());
        assert(strings_view(v@) == seq![self.config.markdownlint_bin@]);
        v
    }

    /// <markdownlint_bin> <args> <primary input>
    pub fn execute(&self, product: &Product) -> (r: CheckerRun)
        requires
            product.inputs@.len() > 0,
        ensures
            r.tool@ == self.config.markdownlint_bin@,
            r.subcommand is None,
            strings_view(r.args@) == strings_view(self.config.standard.args@),
            strings_view(r.files@) == seq![product.inputs@[0]@],
            r.dir is None,
    {
        let files: Vec<&str> = vec![product.primary_input()];
        assert(strs_view(files@) == seq![product.inputs@[0]@]);
        checker_run(self.config.markdownlint_bin.as_str(), None, &self.config.standard.args, files.as_slice())
    }
}

} // verus!
