//! Dependency analyzers: they find the files a source file depends on
//! (headers it includes, images a document shows).

pub mod cpp;
pub mod markdown;

use vstd::prelude::*;

verus! {

/// A program to run and its arguments.
pub struct CommandLine {
    pub program: String,
    pub args: Vec<String>,
}

} // verus!
