//! A build tool's core logic: configuration and its variables, file
//! selection, the commands processors run, the dependencies of C/C++ and
//! Markdown sources, the scheduling of build products, the tools processors
//! need, checksums, exit codes, and the checking of technical terms in
//! Markdown documents.

pub mod text;
pub mod exit_code;
pub mod config;
pub mod tech_check;
pub mod checksum;
pub mod graph;
pub mod processors;
pub mod paths;
pub mod file_index;
pub mod linter;
pub mod executor;
pub mod db;
pub mod tools;
pub mod analyzers;
