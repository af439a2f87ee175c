//! Exit codes, and the classification of errors into them.

use vstd::prelude::*;
use crate::text::{seq_contains, str_contains};

verus! {

/// Exit codes, letting CI scripts distinguish error kinds.
#[derive(Debug, Clone, Copy, PartialEq, Eq, Structural)]
pub enum RsbExitCode {
    Success,
    BuildError,
    ConfigError,
    ToolError,
    GraphError,
    IoError,
    Interrupted,
}

impl RsbExitCode {
    /// The process exit status of each code.
    pub open spec fn spec_code(self) -> u8 {
        match self {
            RsbExitCode::Success => 0,
            RsbExitCode::BuildError => 1,
            RsbExitCode::ConfigError => 2,
            RsbExitCode::ToolError => 3,
            RsbExitCode::GraphError => 4,
            RsbExitCode::IoError => 5,
            RsbExitCode::Interrupted => 130,
        }
    }

    /// The name of each code.
    pub open spec fn spec_name(self) -> Seq<char> {
        match self {
            RsbExitCode::Success => "SUCCESS"@,
            RsbExitCode::BuildError => "BUILD_ERROR"@,
            RsbExitCode::ConfigError => "CONFIG_ERROR"@,
            RsbExitCode::ToolError => "TOOL_ERROR"@,
            RsbExitCode::GraphError => "GRAPH_ERROR"@,
            RsbExitCode::IoError => "IO_ERROR"@,
            RsbExitCode::Interrupted => "INTERRUPTED"@,
        }
    }

    /// The process exit status.
    pub fn code(self) -> (c: u8)
        ensures
            c == self.spec_code(),
    {
        match self {
            RsbExitCode::Success => 0,
            RsbExitCode::BuildError => 1,
            RsbExitCode::ConfigError => 2,
            RsbExitCode::ToolError => 3,
            RsbExitCode::GraphError => 4,
            RsbExitCode::IoError => 5,
            RsbExitCode::Interrupted => 130,
        }
    }

    /// The code's name, such as `BUILD_ERROR`.
    pub fn name(self) -> (n: &'static str)
        ensures
            n@ == self.spec_name(),
    {
        match self {
            RsbExitCode::Success => "SUCCESS",
            RsbExitCode::BuildError => "BUILD_ERROR",
            RsbExitCode::ConfigError => "CONFIG_ERROR",
            RsbExitCode::ToolError => "TOOL_ERROR",
            RsbExitCode::GraphError => "GRAPH_ERROR",
            RsbExitCode::IoError => "IO_ERROR",
            RsbExitCode::Interrupted => "INTERRUPTED",
        }
    }
}

/// Distinct codes have distinct exit statuses and distinct names.
pub proof fn lemma_codes_distinct(a: RsbExitCode, b: RsbExitCode)
    requires
        a != b,
    ensures
        a.spec_code() != b.spec_code(),
        a.spec_name() != b.spec_name(),
{
    reveal_strlit("SUCCESS");
    reveal_strlit("BUILD_ERROR");
    reveal_strlit("CONFIG_ERROR");
    reveal_strlit("TOOL_ERROR");
    reveal_strlit("GRAPH_ERROR");
    reveal_strlit("IO_ERROR");
    reveal_strlit("INTERRUPTED");
    if a.spec_name() == b.spec_name() {
        assert(a.spec_name().len() == b.spec_name().len());
        assert(a.spec_name()[0] == b.spec_name()[0]);
        assert(a.spec_name()[1] == b.spec_name()[1]);
    }
}

/// A typed error that carries an exit code for classification.
pub struct RsbError {
    pub exit_code: RsbExitCode,
    pub message: String,
}

impl RsbError {
    pub fn new(exit_code: RsbExitCode, message: String) -> (r: Self)
        ensures
            r.exit_code == exit_code,
            r.message@ == message@,
    {
        Self { exit_code, message }
    }
}

/// What `str::to_lowercase` gives for a text (full Unicode lowercase mapping).
pub uninterp spec fn lowercase_of(s: Seq<char>) -> Seq<char>;

/// Lowercases a text.
///
/// Trusted: calls `str::to_lowercase`; claims only that the result is a
/// function of the text, named `lowercase_of`.
#[verifier::external_body]
pub(crate) fn to_lowercase(s: &str) -> (r: String)
    ensures
        r@ == lowercase_of(s@),
{
    s.to_lowercase()
}

pub open spec fn is_config_message(lower: Seq<char>) -> bool {
    seq_contains(lower, "no rsb.toml found"@) || seq_contains(lower, "rsb.toml already exists"@)
        || seq_contains(lower, "unknown processor"@) || seq_contains(lower, "unknown shell"@)
        || seq_contains(lower, "undefined variable"@) || seq_contains(lower, "failed to parse config"@)
        || seq_contains(lower, "failed to substitute variables"@) || seq_contains(
        lower,
        "deny_unknown_fields"@,
    ) || seq_contains(lower, "unknown field"@)
}

/// The exit code that an error message (already lowercased) points to.
pub open spec fn classify_spec(lower: Seq<char>) -> RsbExitCode {
    if seq_contains(lower, "interrupted"@) || seq_contains(lower, "ctrl+c"@) {
        RsbExitCode::Interrupted
    } else if is_config_message(lower) {
        RsbExitCode::ConfigError
    } else if seq_contains(lower, "tool version mismatch"@) || seq_contains(lower, "tools are missing"@) {
        RsbExitCode::ToolError
    } else if seq_contains(lower, "cycle detected"@) || seq_contains(lower, "output conflict"@) {
        RsbExitCode::GraphError
    } else {
        RsbExitCode::BuildError
    }
}

/// How an error message (lowercased) is classified, phrase by phrase and in
/// this order of precedence: an interruption (`interrupted`, `ctrl+c`); a
/// configuration error (`no rsb.toml found`, `rsb.toml already exists`,
/// `unknown processor`, `unknown shell`, `undefined variable`, `failed to
/// parse config`, `failed to substitute variables`, `deny_unknown_fields`,
/// `unknown field`); a tool error (`tool version mismatch`, `tools are
/// missing`); a graph error (`cycle detected`, `output conflict`); else a
/// build error.
pub proof fn lemma_classify_phrases(lower: Seq<char>)
    ensures
        seq_contains(lower, "interrupted"@) || seq_contains(lower, "ctrl+c"@) ==> classify_spec(lower)
            == RsbExitCode::Interrupted,
        !seq_contains(lower, "interrupted"@) && !seq_contains(lower, "ctrl+c"@) && (seq_contains(
            lower,
            "no rsb.toml found"@,
        ) || seq_contains(lower, "rsb.toml already exists"@) || seq_contains(lower, "unknown processor"@)
            || seq_contains(lower, "unknown shell"@) || seq_contains(lower, "undefined variable"@)
            || seq_contains(lower, "failed to parse config"@) || seq_contains(
            lower,
            "failed to substitute variables"@,
        ) || seq_contains(lower, "deny_unknown_fields"@) || seq_contains(lower, "unknown field"@))
            ==> classify_spec(lower) == RsbExitCode::ConfigError,
        !seq_contains(lower, "interrupted"@) && !seq_contains(lower, "ctrl+c"@) && !seq_contains(
            lower,
            "no rsb.toml found"@,
        ) && !seq_contains(lower, "rsb.toml already exists"@) && !seq_contains(lower, "unknown processor"@)
            && !seq_contains(lower, "unknown shell"@) && !seq_contains(lower, "undefined variable"@)
            && !seq_contains(lower, "failed to parse config"@) && !seq_contains(
            lower,
            "failed to substitute variables"@,
        ) && !seq_contains(lower, "deny_unknown_fields"@) && !seq_contains(lower, "unknown field"@)
            ==> classify_spec(lower) == if seq_contains(lower, "tool version mismatch"@) || seq_contains(
            lower,
            "tools are missing"@,
        ) {
            RsbExitCode::ToolError
        } else if seq_contains(lower, "cycle detected"@) || seq_contains(lower, "output conflict"@) {
            RsbExitCode::GraphError
        } else {
            RsbExitCode::BuildError
        },
{
}

/// Classifies a lowercased error message by the phrases it contains;
/// messages that match no phrase are build errors.
pub fn classify_lowercase_message(lower: &str) -> (c: RsbExitCode)
    ensures
        c == classify_spec(lower@),
{
    if str_contains(lower, "interrupted") || str_contains(lower, "ctrl+c") {
        RsbExitCode::Interrupted
    } else if str_contains(lower, "no rsb.toml found") || str_contains(lower, "rsb.toml already exists")
        || str_contains(lower, "unknown processor") || str_contains(lower, "unknown shell")
        || str_contains(lower, "undefined variable") || str_contains(lower, "failed to parse config")
        || str_contains(lower, "failed to substitute variables") || str_contains(
        lower,
        "deny_unknown_fields",
    ) || str_contains(lower, "unknown field") {
        RsbExitCode::ConfigError
    } else if str_contains(lower, "tool version mismatch") || str_contains(lower, "tools are missing") {
        RsbExitCode::ToolError
    } else if str_contains(lower, "cycle detected") || str_contains(lower, "output conflict") {
        RsbExitCode::GraphError
    } else if str_contains(lower, "build completed with") && str_contains(lower, "error") {
        RsbExitCode::BuildError
    } else {
        RsbExitCode::BuildError
    }
}

/// Classifies an error into an exit code: the code a typed error carries
/// (`typed`) wins; otherwise the message (with its causes) is lowercased
/// and matched against known phrases.
pub fn classify_error(typed: Option<RsbExitCode>, message: &str) -> (c: RsbExitCode)
    ensures
        c == match typed {
            Some(t) => t,
            None => classify_spec(lowercase_of(message@)),
        },
{
    if let Some(t) = typed {
        return t;
    }
    let lower = to_lowercase(message);
    classify_lowercase_message(lower.as_str())
}

} // verus!
