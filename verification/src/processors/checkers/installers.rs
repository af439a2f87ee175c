//! Dependency installers, run in the directory of their manifest: Bundler, npm and pip.

use vstd::prelude::*;
use crate::config::{GemConfig, NpmConfig, PipConfig};
use crate::graph::Product;
use crate::paths::{path_file_name, file_name_spec};
use crate::processors::{AnchoredRun, clone_strings, concat_strings};
use crate::text::strings_view;

verus! {

/// `tool command args...`, run in the manifest's directory.
fn tool_command_run(tool: &String, command: &String, args: &Vec<String>, manifest: &str) -> (r: AnchoredRun)
    ensures
        r.program@ == tool@,
        strings_view(r.args@) == seq![command@] + strings_view(args@),
        r.anchor@ == manifest@,
{
    let mut lead: Vec<String> = Vec::new();
    lead.push(command.clone());
    assert(strings_view(lead@) == seq![command@]);
    AnchoredRun { program: tool.clone(), args: concat_strings(lead, args), anchor: String::from_str(manifest) }
}

/// Installs Ruby dependencies with Bundler.
pub struct GemProcessor {
    pub config: GemConfig,
}

impl GemProcessor {
    pub fn new(config: GemConfig) -> (r: Self)
        ensures
            r.config == config,
    {
        Self { config }
    }

    /// `<bundler> <command> <args>` in the Gemfile's directory.
    pub fn execute_gem(&self, gemfile: &str) -> (r: AnchoredRun)
        ensures
            r.program@ == self.config.tool@,
            strings_view(r.args@) == seq![self.config.command@] + strings_view(self.config.args@),
            r.anchor@ == gemfile@,
    {
        tool_command_run(&self.config.tool, &self.config.command, &self.config.args, gemfile)
    }

    pub fn execute(&self, product: &Product) -> (r: AnchoredRun)
        requires
            product.inputs@.len() > 0,
        ensures
            r.program@ == self.config.tool@,
            strings_view(r.args@) == seq![self.config.command@] + strings_view(self.config.args@),
            r.anchor@ == product.inputs@[0]@,
    {
        self.execute_gem(product.primary_input())
    }

    pub fn description(&self) -> (r: &str)
        ensures
            r@ == "Install Ruby dependencies using Bundler"@,
    {
        "Install Ruby dependencies using Bundler"
    }

    pub fn required_tools(&self) -> (r: Vec<String>)
        ensures
            strings_view(r@) == seq![self.config.tool@],
    {
        let mut v: Vec<String> = Vec::new();
        v.push(self.config.tool.clone());
        assert(strings_view(v@) == seq![self.config.tool@]);
        v
    }
}

/// Installs Node.js dependencies with npm.
pub struct NpmProcessor {
    pub config: NpmConfig,
}

impl NpmProcessor {
    pub fn new(config: NpmConfig) -> (r: Self)
        ensures
            r.config == config,
    {
        Self { config }
    }

    /// `<npm> <command> <args>` in the package.json's directory.
    pub fn execute_npm(&self, package_json: &str) -> (r: AnchoredRun)
        ensures
            r.program@ == self.config.tool@,
            strings_view(r.args@) == seq![self.config.command@] + strings_view(self.config.args@),
            r.anchor@ == package_json@,
    {
        tool_command_run(&self.config.tool, &self.config.command, &self.config.args, package_json)
    }

    pub fn execute(&self, product: &Product) -> (r: AnchoredRun)
        requires
            product.inputs@.len() > 0,
        ensures
            r.program@ == self.config.tool@,
            strings_view(r.args@) == seq![self.config.command@] + strings_view(self.config.args@),
            r.anchor@ == product.inputs@[0]@,
    {
        self.execute_npm(product.primary_input())
    }

    pub fn description(&self) -> (r: &str)
        ensures
            r@ == "Install Node.js dependencies using npm"@,
    {
        "Install Node.js dependencies using npm"
    }

    pub fn required_tools(&self) -> (r: Vec<String>)
        ensures
            strings_view(r@) == seq![self.config.tool@],
    {
        let mut v: Vec<String> = Vec::new();
        v.push(self.config.tool.clone());
        assert(strings_view(v@) == seq![self.config.tool@]);
        v
    }
}

/// Installs Python dependencies with pip.
pub struct PipProcessor {
    pub config: PipConfig,
}

/// The file name of a path, or empty when it has none.
pub open spec fn file_name_or_empty(path: Seq<char>) -> Seq<char> {
    match file_name_spec(path) {
        Some(n) => n,
        None => Seq::empty(),
    }
}

impl PipProcessor {
    pub fn new(config: PipConfig) -> (r: Self)
        ensures
            r.config == config,
    {
        Self { config }
    }

    /// `<pip> install -r <file name> <args>` in the requirements file's directory.
    pub fn execute_pip(&self, requirements_txt: &str) -> (r: AnchoredRun)
        ensures
            r.program@ == self.config.tool@,
            strings_view(r.args@) == seq!["install"@, "-r"@, file_name_or_empty(requirements_txt@)]
                + strings_view(self.config.args@),
            r.anchor@ == requirements_txt@,
    {
        let name = match path_file_name(requirements_txt) {
            Some(n) => n,
            None => String::new(),
        };
        let mut lead: Vec<String> = Vec::new();
        lead.push(String::from_str("install"));
        lead.push(String::from_str("-r"));
        let ghost nv = name@;
        lead.push(name);
        assert(strings_view(lead@) == seq!["install"@, "-r"@, nv]);
        AnchoredRun {
            program: self.config.tool.clone(),
            args: concat_strings(lead, &self.config.args),
            anchor: String::from_str(requirements_txt),
        }
    }

    pub fn execute(&self, product: &Product) -> (r: AnchoredRun)
        requires
            product.inputs@.len() > 0,
        ensures
            r.program@ == self.config.tool@,
            strings_view(r.args@) == seq!["install"@, "-r"@, file_name_or_empty(product.inputs@[0]@)]
                + strings_view(self.config.args@),
            r.anchor@ == product.inputs@[0]@,
    {
        self.execute_pip(product.primary_input())
    }

    pub fn description(&self) -> (r: &str)
        ensures
            r@ == "Install Python dependencies using pip"@,
    {
        "Install Python dependencies using pip"
    }

    pub fn required_tools(&self) -> (r: Vec<String>)
        ensures
            strings_view(r@) == seq![self.config.tool@],
    {
        let mut v: Vec<String> = Vec::new();
        v.push(self.config.tool.clone());
        assert(strings_view(v@) == seq![self.config.tool@]);
        v
    }
}

} // verus!
