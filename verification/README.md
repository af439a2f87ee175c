# rsb

The core of `rsb`, an incremental build tool, written in Verus: each
function of the library carries a contract that Verus proves.

- `src/` is the verified library: configuration and its `[vars]` section,
  file selection, the commands checkers and installers run, the
  dependencies of C/C++ sources (from the compiler's `-MM` output) and of
  Markdown documents (from their links), the levels in which build products
  can run side by side, the counts of a build, the tools processors need,
  checksums, exit codes, and the checking and fixing of technical terms in
  Markdown documents.
- `app/` is the command line around it: it reads and writes files, runs
  the linter, the compiler and other tools, walks the project, and hands
  the library plain values.
- `tests/` runs the library on concrete inputs.

Outside crates the library calls through trusted wrappers: `sha2` and
`hex` (checksums), `toml` (the `[vars]` section), and `std::path` (path
operations). Each wrapper says in its documentation what its contract
claims of the call. Markdown links are found by a scanner of the library's
own, proved against a statement of the link syntax.
