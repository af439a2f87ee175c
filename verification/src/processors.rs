//! Processors: what kind each is, and the commands checkers run.

pub mod base;
pub mod checkers;

use vstd::prelude::*;
use crate::text::{strings_view, strs_view};

verus! {

/// What a processor does with its inputs.
#[derive(Debug, Clone, Copy, PartialEq, Eq, Structural)]
pub enum ProcessorType {
    Generator,
    Creator,
    Checker,
    Explicit,
}

/// A checker command to run: the tool, an optional subcommand, the
/// arguments, then the files to check.
pub struct CheckerRun {
    pub tool: String,
    pub subcommand: Option<String>,
    pub args: Vec<String>,
    pub files: Vec<String>,
    /// The directory to run in, when not the current one.
    pub dir: Option<String>,
}

/// A command to run in the directory of a manifest file (a Gemfile,
/// `package.json` or `requirements.txt`).
pub struct AnchoredRun {
    pub program: String,
    pub args: Vec<String>,
    /// The manifest; the command runs in its directory.
    pub anchor: String,
}

/// Owned copies of strings.
pub fn to_strings(v: &[&str]) -> (r: Vec<String>)
    ensures
        strings_view(r@) == strs_view(v@),
{
    let mut r: Vec<String> = Vec::new();
    let mut i: usize = 0;
    while i < v.len()
        invariant
            i <= v@.len(),
            strings_view(r@) == strs_view(v@).take(i as int),
        decreases v@.len() - i,
    {
        let ghost old_r = strings_view(r@);
        r.push(String::from_str(v[i]));
        assert(strings_view(r@) == old_r.push(v@[i as int]@));
        assert(strs_view(v@).take(i + 1) == strs_view(v@).take(i as int).push(v@[i as int]@));
        i = i + 1;
    }
    assert(strs_view(v@).take(v@.len() as int) == strs_view(v@));
    r
}

/// Copies of strings.
pub fn clone_strings(v: &Vec<String>) -> (r: Vec<String>)
    ensures
        strings_view(r@) == strings_view(v@),
{
    let mut r: Vec<String> = Vec::new();
    let mut i: usize = 0;
    while i < v.len()
        invariant
            i <= v@.len(),
            strings_view(r@) == strings_view(v@).take(i as int),
        decreases v@.len() - i,
    {
        let ghost old_r = strings_view(r@);
        r.push(v[i].clone());
        assert(strings_view(r@) == old_r.push(v@[i as int]@));
        assert(strings_view(v@).take(i + 1) == strings_view(v@).take(i as int).push(v@[i as int]@));
        i = i + 1;
    }
    assert(strings_view(v@).take(v@.len() as int) == strings_view(v@));
    r
}

/// `a` followed by `b`.
pub fn concat_strings(a: Vec<String>, b: &Vec<String>) -> (r: Vec<String>)
    ensures
        strings_view(r@) == strings_view(a@) + strings_view(b@),
{
    let mut r = a;
    let ghost r0 = strings_view(r@);
    let mut i: usize = 0;
    while i < b.len()
        invariant
            i <= b@.len(),
            strings_view(r@) == r0 + strings_view(b@).take(i as int),
        decreases b@.len() - i,
    {
        let ghost old_r = strings_view(r@);
        r.push(b[i].clone());
        assert(strings_view(r@) == old_r.push(b@[i as int]@));
        assert(strings_view(b@).take(i + 1) == strings_view(b@).take(i as int).push(b@[i as int]@));
        i = i + 1;
    }
    assert(strings_view(b@).take(b@.len() as int) == strings_view(b@));
    r
}

/// The run of `tool` (with an optional subcommand) on some files.
pub fn checker_run(tool: &str, subcommand: Option<&str>, args: &Vec<String>, files: &[&str]) -> (r: CheckerRun)
    ensures
        r.tool@ == tool@,
        match subcommand {
            Some(s) => r.subcommand matches Some(t) && t@ == s@,
            None => r.subcommand is None,
        },
        strings_view(r.args@) == strings_view(args@),
        strings_view(r.files@) == strs_view(files@),
        r.dir is None,
{
    let sub = match subcommand {
        Some(s) => Some(String::from_str(s)),
        None => None,
    };
    CheckerRun {
        tool: String::from_str(tool),
        subcommand: sub,
        args: clone_strings(args),
        files: to_strings(files),
        dir: None,
    }
}

} // verus!
