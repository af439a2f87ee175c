//! A checker driven entirely by data: a command and a few parameters.

use vstd::prelude::*;
use crate::config::{CheckerConfigWithCommand, SimpleCheckerParams};
use crate::graph::Product;
use crate::processors::{CheckerRun, checker_run, to_strings, concat_strings};
use crate::text::{strings_view, strs_view};

verus! {

/// A checker processor described by data.
pub struct SimpleChecker {
    pub config: CheckerConfigWithCommand,
    pub params: SimpleCheckerParams,
}

/// The arguments of a simple checker: the parameters' leading arguments, then the configured ones.
pub open spec fn simple_args(prepend: Seq<Seq<char>>, args: Seq<Seq<char>>) -> Seq<Seq<char>> {
    prepend + args
}

impl SimpleChecker {
    pub fn new(config: CheckerConfigWithCommand, params: SimpleCheckerParams) -> (r: Self)
        ensures
            r.config == config,
            r.params == params,
    {
        Self { config, params }
    }

    pub fn description(&self) -> (r: &str)
        ensures
            r@ == self.params.description@,
    {
        self.params.description
    }

    /// The configured command, then the parameters' extra tools.
    pub fn required_tools(&self) -> (r: Vec<String>)
        ensures
            strings_view(r@) == seq![self.config.command@] + strs_view(self.params.extra_tools@),
    {
        let mut tools: Vec<String> = Vec::new();
        tools.push(self.config.command.clone());
        let extra = to_strings(self.params.extra_tools.as_slice());
        concat_strings(tools, &extra)
    }

    /// The run that checks the files: the command, the subcommand, the
    /// parameters' leading arguments and the configured ones, then the files.
    pub fn check_files(&self, files: &[&str]) -> (r: CheckerRun)
        ensures
            r.tool@ == self.config.command@,
            match self.params.subcommand {
                Some(s) => r.subcommand matches Some(t) && t@ == s@,
                None => r.subcommand is None,
            },
            strings_view(r.args@) == simple_args(
                strs_view(self.params.prepend_args@),
                strings_view(self.config.args@),
            ),
            strings_view(r.files@) == strs_view(files@),
            r.dir is None,
    {
        let lead = to_strings(self.params.prepend_args.as_slice());
        let combined = concat_strings(lead, &self.config.args);
        checker_run(self.config.command.as_str(), self.params.subcommand, &combined, files)
    }

    /// The run that checks a product's primary input.
    pub fn execute(&self, product: &Product) -> (r: CheckerRun)
        requires
            product.inputs@.len() > 0,
        ensures
            r.tool@ == self.config.command@,
            match self.params.subcommand {
                Some(s) => r.subcommand matches Some(t) && t@ == s@,
                None => r.subcommand is None,
            },
            strings_view(r.args@) == simple_args(
                strs_view(self.params.prepend_args@),
                strings_view(self.config.args@),
            ),
            strings_view(r.files@) == seq![product.inputs@[0]@],
            r.dir is None,
    {
        let files: Vec<&str> = vec![product.primary_input()];
        let r = self.check_files(files.as_slice());
        assert(strs_view(files@) == seq![product.inputs@[0]@]);
        r
    }

    pub fn supports_batch(&self) -> (r: bool)
        ensures
            r == self.config.batch,
    {
        self.config.batch
    }
}


/// The parameters are: an empty description, the given subcommand, leading
/// arguments and extra tools.
pub open spec fn has_params(
    p: SimpleCheckerParams,
    sub: Option<Seq<char>>,
    prepend: Seq<Seq<char>>,
    extra: Seq<Seq<char>>,
) -> bool {
    &&& p.description@ == ""@
    &&& match sub {
        Some(s) => p.subcommand matches Some(t) && t@ == s,
        None => p.subcommand is None,
    }
    &&& strs_view(p.prepend_args@) == prepend
    &&& strs_view(p.extra_tools@) == extra
}

/// The ruff checker.
pub fn create_ruff_default(config: CheckerConfigWithCommand) -> (r: SimpleChecker)
    ensures
        r.config == config,
        has_params(r.params, Some("check"@), Seq::<Seq<char>>::empty(), Seq::<Seq<char>>::empty()),
{
    let prepend_args: Vec<&'static str> = vec![];
    let extra_tools: Vec<&'static str> = vec![];
    let r = SimpleChecker::new(
        config,
        SimpleCheckerParams { description: "", subcommand: Some("check"), prepend_args, extra_tools },
    );
    assert(strs_view(r.params.prepend_args@) == Seq::<Seq<char>>::empty());
    assert(strs_view(r.params.extra_tools@) == Seq::<Seq<char>>::empty());
    r
}

/// The pylint checker.
pub fn create_pylint_default(config: CheckerConfigWithCommand) -> (r: SimpleChecker)
    ensures
        r.config == config,
        has_params(r.params, None, Seq::<Seq<char>>::empty(), seq!["python3"@]),
{
    let prepend_args: Vec<&'static str> = vec![];
    let extra_tools: Vec<&'static str> = vec!["python3"];
    let r = SimpleChecker::new(
        config,
        SimpleCheckerParams { description: "", subcommand: None, prepend_args, extra_tools },
    );
    assert(strs_view(r.params.prepend_args@) == Seq::<Seq<char>>::empty());
    assert(strs_view(r.params.extra_tools@) == seq!["python3"@]);
    r
}

/// The pytest checker.
pub fn create_pytest_default(config: CheckerConfigWithCommand) -> (r: SimpleChecker)
    ensures
        r.config == config,
        has_params(r.params, None, Seq::<Seq<char>>::empty(), seq!["python3"@]),
{
    let prepend_args: Vec<&'static str> = vec![];
    let extra_tools: Vec<&'static str> = vec!["python3"];
    let r = SimpleChecker::new(
        config,
        SimpleCheckerParams { description: "", subcommand: None, prepend_args, extra_tools },
    );
    assert(strs_view(r.params.prepend_args@) == Seq::<Seq<char>>::empty());
    assert(strs_view(r.params.extra_tools@) == seq!["python3"@]);
    r
}

/// The black checker.
pub fn create_black_default(config: CheckerConfigWithCommand) -> (r: SimpleChecker)
    ensures
        r.config == config,
        has_params(r.params, None, seq!["--check"@], seq!["python3"@]),
{
    let prepend_args: Vec<&'static str> = vec!["--check"];
    let extra_tools: Vec<&'static str> = vec!["python3"];
    let r = SimpleChecker::new(
        config,
        SimpleCheckerParams { description: "", subcommand: None, prepend_args, extra_tools },
    );
    assert(strs_view(r.params.prepend_args@) == seq!["--check"@]);
    assert(strs_view(r.params.extra_tools@) == seq!["python3"@]);
    r
}

/// The doctest checker.
pub fn create_doctest_default(config: CheckerConfigWithCommand) -> (r: SimpleChecker)
    ensures
        r.config == config,
        has_params(r.params, None, seq!["-m"@, "doctest"@], Seq::<Seq<char>>::empty()),
{
    let prepend_args: Vec<&'static str> = vec!["-m", "doctest"];
    let extra_tools: Vec<&'static str> = vec![];
    let r = SimpleChecker::new(
        config,
        SimpleCheckerParams { description: "", subcommand: None, prepend_args, extra_tools },
    );
    assert(strs_view(r.params.prepend_args@) == seq!["-m"@, "doctest"@]);
    assert(strs_view(r.params.extra_tools@) == Seq::<Seq<char>>::empty());
    r
}

/// The mypy checker.
pub fn create_mypy_default(config: CheckerConfigWithCommand) -> (r: SimpleChecker)
    ensures
        r.config == config,
        has_params(r.params, None, Seq::<Seq<char>>::empty(), seq!["python3"@]),
{
    let prepend_args: Vec<&'static str> = vec![];
    let extra_tools: Vec<&'static str> = vec!["python3"];
    let r = SimpleChecker::new(
        config,
        SimpleCheckerParams { description: "", subcommand: None, prepend_args, extra_tools },
    );
    assert(strs_view(r.params.prepend_args@) == Seq::<Seq<char>>::empty());
    assert(strs_view(r.params.extra_tools@) == seq!["python3"@]);
    r
}

/// The pyrefly checker.
pub fn create_pyrefly_default(config: CheckerConfigWithCommand) -> (r: SimpleChecker)
    ensures
        r.config == config,
        has_params(r.params, Some("check"@), seq!["--disable-project-excludes-heuristics"@], Seq::<Seq<char>>::empty()),
{
    let prepend_args: Vec<&'static str> = vec!["--disable-project-excludes-heuristics"];
    let extra_tools: Vec<&'static str> = vec![];
    let r = SimpleChecker::new(
        config,
        SimpleCheckerParams { description: "", subcommand: Some("check"), prepend_args, extra_tools },
    );
    assert(strs_view(r.params.prepend_args@) == seq!["--disable-project-excludes-heuristics"@]);
    assert(strs_view(r.params.extra_tools@) == Seq::<Seq<char>>::empty());
    r
}

/// The rumdl checker.
pub fn create_rumdl_default(config: CheckerConfigWithCommand) -> (r: SimpleChecker)
    ensures
        r.config == config,
        has_params(r.params, Some("check"@), Seq::<Seq<char>>::empty(), Seq::<Seq<char>>::empty()),
{
    let prepend_args: Vec<&'static str> = vec![];
    let extra_tools: Vec<&'static str> = vec![];
    let r = SimpleChecker::new(
        config,
        SimpleCheckerParams { description: "", subcommand: Some("check"), prepend_args, extra_tools },
    );
    assert(strs_view(r.params.prepend_args@) == Seq::<Seq<char>>::empty());
    assert(strs_view(r.params.extra_tools@) == Seq::<Seq<char>>::empty());
    r
}

/// The yamllint checker.
pub fn create_yamllint_default(config: CheckerConfigWithCommand) -> (r: SimpleChecker)
    ensures
        r.config == config,
        has_params(r.params, None, Seq::<Seq<char>>::empty(), seq!["python3"@]),
{
    let prepend_args: Vec<&'static str> = vec![];
    let extra_tools: Vec<&'static str> = vec!["python3"];
    let r = SimpleChecker::new(
        config,
        SimpleCheckerParams { description: "", subcommand: None, prepend_args, extra_tools },
    );
    assert(strs_view(r.params.prepend_args@) == Seq::<Seq<char>>::empty());
    assert(strs_view(r.params.extra_tools@) == seq!["python3"@]);
    r
}

/// The jq checker.
pub fn create_jq_default(config: CheckerConfigWithCommand) -> (r: SimpleChecker)
    ensures
        r.config == config,
        has_params(r.params, None, seq!["empty"@], Seq::<Seq<char>>::empty()),
{
    let prepend_args: Vec<&'static str> = vec!["empty"];
    let extra_tools: Vec<&'static str> = vec![];
    let r = SimpleChecker::new(
        config,
        SimpleCheckerParams { description: "", subcommand: None, prepend_args, extra_tools },
    );
    assert(strs_view(r.params.prepend_args@) == seq!["empty"@]);
    assert(strs_view(r.params.extra_tools@) == Seq::<Seq<char>>::empty());
    r
}

/// The jsonlint checker.
pub fn create_jsonlint_default(config: CheckerConfigWithCommand) -> (r: SimpleChecker)
    ensures
        r.config == config,
        has_params(r.params, None, Seq::<Seq<char>>::empty(), seq!["python3"@]),
{
    let prepend_args: Vec<&'static str> = vec![];
    let extra_tools: Vec<&'static str> = vec!["python3"];
    let r = SimpleChecker::new(
        config,
        SimpleCheckerParams { description: "", subcommand: None, prepend_args, extra_tools },
    );
    assert(strs_view(r.params.prepend_args@) == Seq::<Seq<char>>::empty());
    assert(strs_view(r.params.extra_tools@) == seq!["python3"@]);
    r
}

/// The taplo checker.
pub fn create_taplo_default(config: CheckerConfigWithCommand) -> (r: SimpleChecker)
    ensures
        r.config == config,
        has_params(r.params, Some("check"@), Seq::<Seq<char>>::empty(), Seq::<Seq<char>>::empty()),
{
    let prepend_args: Vec<&'static str> = vec![];
    let extra_tools: Vec<&'static str> = vec![];
    let r = SimpleChecker::new(
        config,
        SimpleCheckerParams { description: "", subcommand: Some("check"), prepend_args, extra_tools },
    );
    assert(strs_view(r.params.prepend_args@) == Seq::<Seq<char>>::empty());
    assert(strs_view(r.params.extra_tools@) == Seq::<Seq<char>>::empty());
    r
}

/// The eslint checker.
pub fn create_eslint_default(config: CheckerConfigWithCommand) -> (r: SimpleChecker)
    ensures
        r.config == config,
        has_params(r.params, None, Seq::<Seq<char>>::empty(), seq!["node"@]),
{
    let prepend_args: Vec<&'static str> = vec![];
    let extra_tools: Vec<&'static str> = vec!["node"];
    let r = SimpleChecker::new(
        config,
        SimpleCheckerParams { description: "", subcommand: None, prepend_args, extra_tools },
    );
    assert(strs_view(r.params.prepend_args@) == Seq::<Seq<char>>::empty());
    assert(strs_view(r.params.extra_tools@) == seq!["node"@]);
    r
}

/// The jshint checker.
pub fn create_jshint_default(config: CheckerConfigWithCommand) -> (r: SimpleChecker)
    ensures
        r.config == config,
        has_params(r.params, None, Seq::<Seq<char>>::empty(), seq!["node"@]),
{
    let prepend_args: Vec<&'static str> = vec![];
    let extra_tools: Vec<&'static str> = vec!["node"];
    let r = SimpleChecker::new(
        config,
        SimpleCheckerParams { description: "", subcommand: None, prepend_args, extra_tools },
    );
    assert(strs_view(r.params.prepend_args@) == Seq::<Seq<char>>::empty());
    assert(strs_view(r.params.extra_tools@) == seq!["node"@]);
    r
}

/// The htmlhint checker.
pub fn create_htmlhint_default(config: CheckerConfigWithCommand) -> (r: SimpleChecker)
    ensures
        r.config == config,
        has_params(r.params, None, Seq::<Seq<char>>::empty(), seq!["node"@]),
{
    let prepend_args: Vec<&'static str> = vec![];
    let extra_tools: Vec<&'static str> = vec!["node"];
    let r = SimpleChecker::new(
        config,
        SimpleCheckerParams { description: "", subcommand: None, prepend_args, extra_tools },
    );
    assert(strs_view(r.params.prepend_args@) == Seq::<Seq<char>>::empty());
    assert(strs_view(r.params.extra_tools@) == seq!["node"@]);
    r
}

/// The stylelint checker.
pub fn create_stylelint_default(config: CheckerConfigWithCommand) -> (r: SimpleChecker)
    ensures
        r.config == config,
        has_params(r.params, None, Seq::<Seq<char>>::empty(), seq!["node"@]),
{
    let prepend_args: Vec<&'static str> = vec![];
    let extra_tools: Vec<&'static str> = vec!["node"];
    let r = SimpleChecker::new(
        config,
        SimpleCheckerParams { description: "", subcommand: None, prepend_args, extra_tools },
    );
    assert(strs_view(r.params.prepend_args@) == Seq::<Seq<char>>::empty());
    assert(strs_view(r.params.extra_tools@) == seq!["node"@]);
    r
}

/// The checkstyle checker.
pub fn create_checkstyle_default(config: CheckerConfigWithCommand) -> (r: SimpleChecker)
    ensures
        r.config == config,
        has_params(r.params, None, Seq::<Seq<char>>::empty(), Seq::<Seq<char>>::empty()),
{
    let prepend_args: Vec<&'static str> = vec![];
    let extra_tools: Vec<&'static str> = vec![];
    let r = SimpleChecker::new(
        config,
        SimpleCheckerParams { description: "", subcommand: None, prepend_args, extra_tools },
    );
    assert(strs_view(r.params.prepend_args@) == Seq::<Seq<char>>::empty());
    assert(strs_view(r.params.extra_tools@) == Seq::<Seq<char>>::empty());
    r
}

/// The cmake checker.
pub fn create_cmake_default(config: CheckerConfigWithCommand) -> (r: SimpleChecker)
    ensures
        r.config == config,
        has_params(r.params, Some("--lint"@), Seq::<Seq<char>>::empty(), Seq::<Seq<char>>::empty()),
{
    let prepend_args: Vec<&'static str> = vec![];
    let extra_tools: Vec<&'static str> = vec![];
    let r = SimpleChecker::new(
        config,
        SimpleCheckerParams { description: "", subcommand: Some("--lint"), prepend_args, extra_tools },
    );
    assert(strs_view(r.params.prepend_args@) == Seq::<Seq<char>>::empty());
    assert(strs_view(r.params.extra_tools@) == Seq::<Seq<char>>::empty());
    r
}

/// The hadolint checker.
pub fn create_hadolint_default(config: CheckerConfigWithCommand) -> (r: SimpleChecker)
    ensures
        r.config == config,
        has_params(r.params, None, Seq::<Seq<char>>::empty(), Seq::<Seq<char>>::empty()),
{
    let prepend_args: Vec<&'static str> = vec![];
    let extra_tools: Vec<&'static str> = vec![];
    let r = SimpleChecker::new(
        config,
        SimpleCheckerParams { description: "", subcommand: None, prepend_args, extra_tools },
    );
    assert(strs_view(r.params.prepend_args@) == Seq::<Seq<char>>::empty());
    assert(strs_view(r.params.extra_tools@) == Seq::<Seq<char>>::empty());
    r
}

/// The htmllint checker.
pub fn create_htmllint_default(config: CheckerConfigWithCommand) -> (r: SimpleChecker)
    ensures
        r.config == config,
        has_params(r.params, None, Seq::<Seq<char>>::empty(), seq!["node"@]),
{
    let prepend_args: Vec<&'static str> = vec![];
    let extra_tools: Vec<&'static str> = vec!["node"];
    let r = SimpleChecker::new(
        config,
        SimpleCheckerParams { description: "", subcommand: None, prepend_args, extra_tools },
    );
    assert(strs_view(r.params.prepend_args@) == Seq::<Seq<char>>::empty());
    assert(strs_view(r.params.extra_tools@) == seq!["node"@]);
    r
}

/// The jslint checker.
pub fn create_jslint_default(config: CheckerConfigWithCommand) -> (r: SimpleChecker)
    ensures
        r.config == config,
        has_params(r.params, None, Seq::<Seq<char>>::empty(), seq!["node"@]),
{
    let prepend_args: Vec<&'static str> = vec![];
    let extra_tools: Vec<&'static str> = vec!["node"];
    let r = SimpleChecker::new(
        config,
        SimpleCheckerParams { description: "", subcommand: None, prepend_args, extra_tools },
    );
    assert(strs_view(r.params.prepend_args@) == Seq::<Seq<char>>::empty());
    assert(strs_view(r.params.extra_tools@) == seq!["node"@]);
    r
}

/// The perlcritic checker.
pub fn create_perlcritic_default(config: CheckerConfigWithCommand) -> (r: SimpleChecker)
    ensures
        r.config == config,
        has_params(r.params, None, Seq::<Seq<char>>::empty(), seq!["perl"@]),
{
    let prepend_args: Vec<&'static str> = vec![];
    let extra_tools: Vec<&'static str> = vec!["perl"];
    let r = SimpleChecker::new(
        config,
        SimpleCheckerParams { description: "", subcommand: None, prepend_args, extra_tools },
    );
    assert(strs_view(r.params.prepend_args@) == Seq::<Seq<char>>::empty());
    assert(strs_view(r.params.extra_tools@) == seq!["perl"@]);
    r
}

/// The php_lint checker.
pub fn create_php_lint_default(config: CheckerConfigWithCommand) -> (r: SimpleChecker)
    ensures
        r.config == config,
        has_params(r.params, Some("-l"@), Seq::<Seq<char>>::empty(), Seq::<Seq<char>>::empty()),
{
    let prepend_args: Vec<&'static str> = vec![];
    let extra_tools: Vec<&'static str> = vec![];
    let r = SimpleChecker::new(
        config,
        SimpleCheckerParams { description: "", subcommand: Some("-l"), prepend_args, extra_tools },
    );
    assert(strs_view(r.params.prepend_args@) == Seq::<Seq<char>>::empty());
    assert(strs_view(r.params.extra_tools@) == Seq::<Seq<char>>::empty());
    r
}

/// The slidev checker.
pub fn create_slidev_default(config: CheckerConfigWithCommand) -> (r: SimpleChecker)
    ensures
        r.config == config,
        has_params(r.params, Some("build"@), Seq::<Seq<char>>::empty(), seq!["node"@]),
{
    let prepend_args: Vec<&'static str> = vec![];
    let extra_tools: Vec<&'static str> = vec!["node"];
    let r = SimpleChecker::new(
        config,
        SimpleCheckerParams { description: "", subcommand: Some("build"), prepend_args, extra_tools },
    );
    assert(strs_view(r.params.prepend_args@) == Seq::<Seq<char>>::empty());
    assert(strs_view(r.params.extra_tools@) == seq!["node"@]);
    r
}

/// The standard checker.
pub fn create_standard_default(config: CheckerConfigWithCommand) -> (r: SimpleChecker)
    ensures
        r.config == config,
        has_params(r.params, None, Seq::<Seq<char>>::empty(), seq!["node"@]),
{
    let prepend_args: Vec<&'static str> = vec![];
    let extra_tools: Vec<&'static str> = vec!["node"];
    let r = SimpleChecker::new(
        config,
        SimpleCheckerParams { description: "", subcommand: None, prepend_args, extra_tools },
    );
    assert(strs_view(r.params.prepend_args@) == Seq::<Seq<char>>::empty());
    assert(strs_view(r.params.extra_tools@) == seq!["node"@]);
    r
}

/// The svglint checker.
pub fn create_svglint_default(config: CheckerConfigWithCommand) -> (r: SimpleChecker)
    ensures
        r.config == config,
        has_params(r.params, None, Seq::<Seq<char>>::empty(), Seq::<Seq<char>>::empty()),
{
    let prepend_args: Vec<&'static str> = vec![];
    let extra_tools: Vec<&'static str> = vec![];
    let r = SimpleChecker::new(
        config,
        SimpleCheckerParams { description: "", subcommand: None, prepend_args, extra_tools },
    );
    assert(strs_view(r.params.prepend_args@) == Seq::<Seq<char>>::empty());
    assert(strs_view(r.params.extra_tools@) == Seq::<Seq<char>>::empty());
    r
}

/// The tidy checker.
pub fn create_tidy_default(config: CheckerConfigWithCommand) -> (r: SimpleChecker)
    ensures
        r.config == config,
        has_params(r.params, Some("-errors"@), Seq::<Seq<char>>::empty(), Seq::<Seq<char>>::empty()),
{
    let prepend_args: Vec<&'static str> = vec![];
    let extra_tools: Vec<&'static str> = vec![];
    let r = SimpleChecker::new(
        config,
        SimpleCheckerParams { description: "", subcommand: Some("-errors"), prepend_args, extra_tools },
    );
    assert(strs_view(r.params.prepend_args@) == Seq::<Seq<char>>::empty());
    assert(strs_view(r.params.extra_tools@) == Seq::<Seq<char>>::empty());
    r
}

/// The xmllint checker.
pub fn create_xmllint_default(config: CheckerConfigWithCommand) -> (r: SimpleChecker)
    ensures
        r.config == config,
        has_params(r.params, Some("--noout"@), Seq::<Seq<char>>::empty(), Seq::<Seq<char>>::empty()),
{
    let prepend_args: Vec<&'static str> = vec![];
    let extra_tools: Vec<&'static str> = vec![];
    let r = SimpleChecker::new(
        config,
        SimpleCheckerParams { description: "", subcommand: Some("--noout"), prepend_args, extra_tools },
    );
    assert(strs_view(r.params.prepend_args@) == Seq::<Seq<char>>::empty());
    assert(strs_view(r.params.extra_tools@) == Seq::<Seq<char>>::empty());
    r
}

/// The yq checker.
pub fn create_yq_default(config: CheckerConfigWithCommand) -> (r: SimpleChecker)
    ensures
        r.config == config,
        has_params(r.params, Some("."@), Seq::<Seq<char>>::empty(), Seq::<Seq<char>>::empty()),
{
    let prepend_args: Vec<&'static str> = vec![];
    let extra_tools: Vec<&'static str> = vec![];
    let r = SimpleChecker::new(
        config,
        SimpleCheckerParams { description: "", subcommand: Some("."), prepend_args, extra_tools },
    );
    assert(strs_view(r.params.prepend_args@) == Seq::<Seq<char>>::empty());
    assert(strs_view(r.params.extra_tools@) == Seq::<Seq<char>>::empty());
    r
}

/// The cppcheck checker.
pub fn create_cppcheck_default(config: CheckerConfigWithCommand) -> (r: SimpleChecker)
    ensures
        r.config == config,
        has_params(r.params, None, Seq::<Seq<char>>::empty(), Seq::<Seq<char>>::empty()),
{
    let prepend_args: Vec<&'static str> = vec![];
    let extra_tools: Vec<&'static str> = vec![];
    let r = SimpleChecker::new(
        config,
        SimpleCheckerParams { description: "", subcommand: None, prepend_args, extra_tools },
    );
    assert(strs_view(r.params.prepend_args@) == Seq::<Seq<char>>::empty());
    assert(strs_view(r.params.extra_tools@) == Seq::<Seq<char>>::empty());
    r
}

/// The cpplint checker.
pub fn create_cpplint_default(config: CheckerConfigWithCommand) -> (r: SimpleChecker)
    ensures
        r.config == config,
        has_params(r.params, None, Seq::<Seq<char>>::empty(), Seq::<Seq<char>>::empty()),
{
    let prepend_args: Vec<&'static str> = vec![];
    let extra_tools: Vec<&'static str> = vec![];
    let r = SimpleChecker::new(
        config,
        SimpleCheckerParams { description: "", subcommand: None, prepend_args, extra_tools },
    );
    assert(strs_view(r.params.prepend_args@) == Seq::<Seq<char>>::empty());
    assert(strs_view(r.params.extra_tools@) == Seq::<Seq<char>>::empty());
    r
}

/// The checkpatch checker.
pub fn create_checkpatch_default(config: CheckerConfigWithCommand) -> (r: SimpleChecker)
    ensures
        r.config == config,
        has_params(r.params, None, seq!["--no-tree"@, "-f"@], seq!["perl"@]),
{
    let prepend_args: Vec<&'static str> = vec!["--no-tree", "-f"];
    let extra_tools: Vec<&'static str> = vec!["perl"];
    let r = SimpleChecker::new(
        config,
        SimpleCheckerParams { description: "", subcommand: None, prepend_args, extra_tools },
    );
    assert(strs_view(r.params.prepend_args@) == seq!["--no-tree"@, "-f"@]);
    assert(strs_view(r.params.extra_tools@) == seq!["perl"@]);
    r
}

/// The shellcheck checker.
pub fn create_shellcheck_default(config: CheckerConfigWithCommand) -> (r: SimpleChecker)
    ensures
        r.config == config,
        has_params(r.params, None, Seq::<Seq<char>>::empty(), Seq::<Seq<char>>::empty()),
{
    let prepend_args: Vec<&'static str> = vec![];
    let extra_tools: Vec<&'static str> = vec![];
    let r = SimpleChecker::new(
        config,
        SimpleCheckerParams { description: "", subcommand: None, prepend_args, extra_tools },
    );
    assert(strs_view(r.params.prepend_args@) == Seq::<Seq<char>>::empty());
    assert(strs_view(r.params.extra_tools@) == Seq::<Seq<char>>::empty());
    r
}

/// The luacheck checker.
pub fn create_luacheck_default(config: CheckerConfigWithCommand) -> (r: SimpleChecker)
    ensures
        r.config == config,
        has_params(r.params, None, Seq::<Seq<char>>::empty(), Seq::<Seq<char>>::empty()),
{
    let prepend_args: Vec<&'static str> = vec![];
    let extra_tools: Vec<&'static str> = vec![];
    let r = SimpleChecker::new(
        config,
        SimpleCheckerParams { description: "", subcommand: None, prepend_args, extra_tools },
    );
    assert(strs_view(r.params.prepend_args@) == Seq::<Seq<char>>::empty());
    assert(strs_view(r.params.extra_tools@) == Seq::<Seq<char>>::empty());
    r
}

} // verus!
