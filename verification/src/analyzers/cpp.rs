//! The C/C++ analyzer: the headers a source file includes, as the
//! compiler's `-MM` output lists them.

use vstd::prelude::*;
use crate::analyzers::CommandLine;
use crate::text::{
    strings_view, seq_contains, str_contains, str_eq, to_chars, from_chars, sub_vec, trim,
    trim_chars, words, split_whitespace_chars, vecs_view, first_index, first_char, replace_all,
    replace_all_exec, seq_starts_with, append_str,
};
use crate::processors::clone_strings;
use crate::config::CppAnalyzerConfig;
use crate::file_index::FileIndex;
use crate::graph::Product;
use crate::paths::{
    is_absolute_spec, surely_relative, path_starts_with_spec, strip_prefix_spec, extension_spec, path_is_absolute,
    path_starts_with, path_strip_prefix, path_extension,
};

verus! {

/// The dependency part of `-MM` output: continuation lines joined, the
/// text after the first `:`, split at white space, without its first word
/// (the source file itself).
pub open spec fn dep_tokens_spec(content: Seq<char>) -> Seq<Seq<char>> {
    let joined = replace_all(content, seq!['\\', '\n'], seq![' ']);
    match first_index(joined, ':') {
        None => seq![],
        Some(p) => {
            let toks = words(joined.skip(p + 1));
            if toks.len() == 0 {
                seq![]
            } else {
                toks.drop_first()
            }
        },
    }
}

/// A dependency as the project sees it: a relative path (among them any
/// text with neither a root nor a prefix, `surely_relative`) stays as it is;
/// an absolute one counts when its canonical form lies under the canonical
/// project root, and is then given relative to the root (directly, or from
/// its canonical form); other absolute paths are system headers.
pub open spec fn resolve_dep(token: Seq<char>, root: Seq<char>, canonical: Option<Seq<char>>) -> Option<Seq<char>> {
    if surely_relative(token) || !is_absolute_spec(token) {
        Some(token)
    } else {
        match canonical {
            Some(c) => if path_starts_with_spec(c, root) {
                match strip_prefix_spec(token, root) {
                    Some(rel) => Some(rel),
                    None => strip_prefix_spec(c, root),
                }
            } else {
                None
            },
            None => None,
        }
    }
}

/// The dependencies, in order, that `resolve_dep` keeps.
pub open spec fn resolve_deps(tokens: Seq<Seq<char>>, root: Seq<char>, canonical: Seq<Option<Seq<char>>>) -> Seq<Seq<char>>
    decreases tokens.len(),
{
    if tokens.len() == 0 || canonical.len() != tokens.len() {
        seq![]
    } else {
        let rest = resolve_deps(tokens.drop_last(), root, canonical.drop_last());
        match resolve_dep(tokens.last(), root, canonical.last()) {
            Some(p) => rest.push(p),
            None => rest,
        }
    }
}

pub open spec fn opt_view(o: Option<String>) -> Option<Seq<char>> {
    match o {
        Some(s) => Some(s@),
        None => None,
    }
}

pub open spec fn opts_view(v: Seq<Option<String>>) -> Seq<Option<Seq<char>>> {
    v.map_values(|o: Option<String>| opt_view(o))
}

/// `-I` flags for include directories.
pub open spec fn include_flags(paths: Seq<Seq<char>>) -> Seq<Seq<char>> {
    paths.map_values(|p: Seq<char>| "-I"@ + p)
}

/// The words of `pkg-config --cflags-only-I` output that are `-I` flags,
/// without the `-I`.
pub open spec fn include_dirs_of(ws: Seq<Seq<char>>) -> Seq<Seq<char>>
    decreases ws.len(),
{
    if ws.len() == 0 {
        seq![]
    } else {
        let rest = include_dirs_of(ws.drop_last());
        if seq_starts_with(ws.last(), "-I"@) {
            rest.push(ws.last().skip(2))
        } else {
            rest
        }
    }
}

/// An extension that marks a C or C++ source file to scan.
pub open spec fn is_source_ext(ext: Seq<char>) -> bool {
    ext == "c"@ || ext == "cc"@ || ext == "cpp"@ || ext == "cxx"@
}

/// A path whose extension marks a C or C++ source file.
pub open spec fn has_source_ext(path: Seq<char>) -> bool {
    match extension_spec(path) {
        Some(e) => is_source_ext(e),
        None => false,
    }
}

/// A path whose extension marks a C++ source file.
pub open spec fn has_cpp_ext(path: Seq<char>) -> bool {
    match extension_spec(path) {
        Some(e) => is_cpp_ext(e),
        None => false,
    }
}

/// The path contains one of the segments.
pub open spec fn excluded_by(path: Seq<char>, dirs: Seq<String>) -> bool {
    exists|k: int| 0 <= k < dirs.len() && seq_contains(path, #[trigger] dirs[k]@)
}

/// An extension that marks a C++ source file.
pub open spec fn is_cpp_ext(ext: Seq<char>) -> bool {
    ext == "cc"@ || ext == "cpp"@ || ext == "cxx"@
}

/// The extensions whose files make the analyzer apply to a project.
pub open spec fn detect_exts() -> Seq<Seq<char>> {
    seq![".c"@, ".cc"@, ".cpp"@, ".cxx"@, ".h"@, ".hh"@, ".hpp"@, ".hxx"@]
}

/// Finds the headers C and C++ source files include.
pub struct CppDepAnalyzer {
    pub config: CppAnalyzerConfig,
    pub verbose: bool,
    /// The include directories from `pkg-config`, kept once worked out.
    pub pkg_config_paths: Option<Vec<String>>,
    /// The include directories from the include path commands, kept once
    /// worked out.
    pub command_paths: Option<Vec<String>>,
}

/// What running one include path command gave: whether it ran and exited
/// with success, what it printed, and whether its trimmed output names an
/// existing directory.
pub struct CommandOutcome {
    pub succeeded: bool,
    pub stdout: String,
    pub names_dir: bool,
}

/// The include directories a `pkg-config` run gives: the `-I` directories
/// of its output when it succeeded, none when it failed.
pub open spec fn pkg_run_paths(succeeded: bool, stdout: Seq<char>) -> Seq<Seq<char>> {
    if succeeded {
        include_dirs_of(words(stdout))
    } else {
        seq![]
    }
}

/// The include directories the command runs give, in order: the trimmed
/// output of each run that succeeded, printed something, and names a
/// directory.
pub open spec fn command_run_paths(runs: Seq<CommandOutcome>) -> Seq<Seq<char>>
    decreases runs.len(),
{
    if runs.len() == 0 {
        seq![]
    } else {
        let rest = command_run_paths(runs.drop_last());
        let o = runs.last();
        if o.succeeded && trim(o.stdout@).len() > 0 && o.names_dir {
            rest.push(trim(o.stdout@))
        } else {
            rest
        }
    }
}

fn push_include_flags(args: &mut Vec<String>, paths: &[String])
    ensures
        strings_view(final(args)@) == strings_view(old(args)@) + include_flags(strings_view(paths@)),
{
    let ghost a0 = strings_view(args@);
    let mut i: usize = 0;
    while i < paths.len()
        invariant
            i <= paths@.len(),
            strings_view(args@) == a0 + include_flags(strings_view(paths@)).take(i as int),
        decreases paths@.len() - i,
    {
        let mut f = String::new();
        append_str(&mut f, "-I");
        append_str(&mut f, paths[i].as_str());
        let ghost prev = strings_view(args@);
        args.push(f);
        proof {
            assert(f@ == "-I"@ + paths@[i as int]@);
            assert(include_flags(strings_view(paths@))[i as int] == "-I"@ + paths@[i as int]@);
            assert(strings_view(args@) =~= prev.push(f@));
            assert(strings_view(args@) =~= a0 + include_flags(strings_view(paths@)).take(i + 1));
        }
        i = i + 1;
    }
    assert(include_flags(strings_view(paths@)).take(paths@.len() as int) == include_flags(strings_view(paths@)));
}

impl CppDepAnalyzer {
    pub fn new(config: CppAnalyzerConfig, verbose: bool) -> (r: Self)
        ensures
            r.config == config,
            r.verbose == verbose,
            r.pkg_config_paths is None,
            r.command_paths is None,
    {
        CppDepAnalyzer { config, verbose, pkg_config_paths: None, command_paths: None }
    }

    /// Whether `pkg-config` still has to be run: packages are configured
    /// and no answer is kept yet.
    pub fn needs_pkg_config_run(&self) -> (r: bool)
        ensures
            r == (self.pkg_config_paths is None && self.config.pkg_config@.len() > 0),
    {
        self.pkg_config_paths.is_none() && self.config.pkg_config.len() > 0
    }

    /// The include directories from `pkg-config`. The first call works them
    /// out and keeps them: none without packages, else what the run of
    /// `pkg_config_command` gave (`succeeded` and its output; none when it
    /// failed). Later calls give the kept directories and leave the
    /// analyzer as it is, whatever run they are handed.
    pub fn pkg_config_include_dirs(&mut self, succeeded: bool, stdout: &str) -> (r: Vec<String>)
        ensures
            old(self).pkg_config_paths matches Some(kept) ==> strings_view(r@) == strings_view(kept@)
                && *final(self) == *old(self),
            old(self).pkg_config_paths is None ==> strings_view(r@) == (if old(
                self,
            ).config.pkg_config@.len() == 0 {
                seq![]
            } else {
                pkg_run_paths(succeeded, stdout@)
            }),
            final(self).pkg_config_paths matches Some(kept) && strings_view(kept@) == strings_view(r@),
            final(self).config == old(self).config,
            final(self).verbose == old(self).verbose,
            final(self).command_paths == old(self).command_paths,
    {
        match &self.pkg_config_paths {
            Some(kept) => {
                return clone_strings(kept);
            },
            None => {},
        }
        let paths = if self.config.pkg_config.len() == 0 {
            Vec::new()
        } else if succeeded {
            Self::pkg_config_include_paths(stdout)
        } else {
            Vec::new()
        };
        let r = clone_strings(&paths);
        self.pkg_config_paths = Some(paths);
        r
    }

    /// Whether the include path commands still have to be run: some
    /// command is not blank and no answer is kept yet.
    pub fn needs_command_runs(&self) -> (r: bool)
        ensures
            r == (self.command_paths is None && nonblank(strings_view(self.config.include_path_commands@)).len()
                > 0),
    {
        self.command_paths.is_none() && self.include_path_command_lines().len() > 0
    }

    /// The include directories from the include path commands. The first
    /// call works them out from `runs`, the outcomes of the commands of
    /// `include_path_command_lines` in order, and keeps them: the trimmed
    /// output of each run that succeeded, printed something and names a
    /// directory. Later calls give the kept directories and leave the
    /// analyzer as it is, whatever runs they are handed.
    pub fn command_include_dirs(&mut self, runs: &[CommandOutcome]) -> (r: Vec<String>)
        ensures
            old(self).command_paths matches Some(kept) ==> strings_view(r@) == strings_view(kept@)
                && *final(self) == *old(self),
            old(self).command_paths is None ==> strings_view(r@) == command_run_paths(runs@),
            final(self).command_paths matches Some(kept) && strings_view(kept@) == strings_view(r@),
            final(self).config == old(self).config,
            final(self).verbose == old(self).verbose,
            final(self).pkg_config_paths == old(self).pkg_config_paths,
    {
        match &self.command_paths {
            Some(kept) => {
                return clone_strings(kept);
            },
            None => {},
        }
        let mut paths: Vec<String> = Vec::new();
        let mut i: usize = 0;
        while i < runs.len()
            invariant
                i <= runs@.len(),
                strings_view(paths@) == command_run_paths(runs@.take(i as int)),
            decreases runs@.len() - i,
        {
            proof {
                assert(runs@.take(i + 1).drop_last() == runs@.take(i as int));
                assert(runs@.take(i + 1).last() == runs@[i as int]);
            }
            let o = &runs[i];
            if o.succeeded && o.names_dir {
                match Self::command_output_path(o.stdout.as_str()) {
                    Some(p) => {
                        let ghost before = strings_view(paths@);
                        paths.push(p);
                        assert(strings_view(paths@) == before.push(trim(o.stdout@)));
                    },
                    None => {},
                }
            }
            i = i + 1;
        }
        assert(runs@.take(runs@.len() as int) == runs@);
        let r = clone_strings(&paths);
        self.command_paths = Some(paths);
        r
    }

    pub fn description(&self) -> (r: &'static str)
        ensures
            r@ == "Scan C/C++ source files for #include dependencies"@,
    {
        "Scan C/C++ source files for #include dependencies"
    }

    /// Whether a source path contains one of the configured exclude-dir segments.
    pub fn is_excluded(&self, path: &str) -> (r: bool)
        ensures
            r == excluded_by(path@, self.config.src_exclude_dirs@),
    {
        let mut k: usize = 0;
        while k < self.config.src_exclude_dirs.len()
            invariant
                k <= self.config.src_exclude_dirs@.len(),
                forall|j: int| 0 <= j < k ==> !seq_contains(path@, #[trigger] self.config.src_exclude_dirs@[j]@),
            decreases self.config.src_exclude_dirs@.len() - k,
        {
            if str_contains(path, self.config.src_exclude_dirs[k].as_str()) {
                assert(seq_contains(path@, self.config.src_exclude_dirs@[k as int]@));
                assert(excluded_by(path@, self.config.src_exclude_dirs@));
                return true;
            }
            k = k + 1;
        }
        false
    }

    /// The dependency tokens of Makefile-style `-MM` output
    /// (`target.o: source.c header1.h \` and continuation lines): the
    /// words after the first `:`, without the source file itself.
    pub fn dep_tokens(content: &str) -> (r: Vec<String>)
        ensures
            strings_view(r@) == dep_tokens_spec(content@),
    {
        let chars = to_chars(content);
        let pat: Vec<char> = vec!['\\', '\n'];
        let rep: Vec<char> = vec![' '];
        assert(pat@ == seq!['\\', '\n'] && rep@ == seq![' ']);
        let joined = replace_all_exec(&chars, &pat, &rep);
        let mut r: Vec<String> = Vec::new();
        match first_char(joined.as_slice(), ':') {
            None => {},
            Some(p) => {
                let rest = sub_vec(joined.as_slice(), p + 1, joined.len());
                assert(rest@ == joined@.skip(p + 1));
                let toks = split_whitespace_chars(rest.as_slice());
                let ghost tv = vecs_view(toks@);
                let mut i: usize = 1;
                while i < toks.len()
                    invariant
                        1 <= i <= toks@.len() || toks@.len() == 0,
                        tv == vecs_view(toks@),
                        toks@.len() > 0 ==> strings_view(r@) == tv.drop_first().take(i - 1),
                        toks@.len() == 0 ==> r@.len() == 0,
                    decreases toks@.len() - i,
                {
                    let s = from_chars(toks[i].as_slice());
                    r.push(s);
                    proof {
                        assert(strings_view(r@) =~= tv.drop_first().take(i as int));
                    }
                    i = i + 1;
                }
                proof {
                    if toks@.len() > 0 {
                        assert(tv.drop_first().take(toks@.len() - 1) == tv.drop_first());
                    } else {
                        assert(strings_view(r@) =~= seq![]);
                    }
                }
            },
        }
        r
    }

    /// The project-local headers among the dependency tokens, given the
    /// canonical project root and the canonical form of each token (`None`
    /// where the token is relative, or where it could not be resolved).
    pub fn resolve_dep_tokens(tokens: &[String], canonical_root: &str, canonical: &[Option<String>]) -> (r: Vec<String>)
        requires
            canonical@.len() == tokens@.len(),
        ensures
            strings_view(r@) == resolve_deps(strings_view(tokens@), canonical_root@, opts_view(canonical@)),
    {
        let ghost tv = strings_view(tokens@);
        let ghost cv = opts_view(canonical@);
        let mut r: Vec<String> = Vec::new();
        let mut i: usize = 0;
        while i < tokens.len()
            invariant
                i <= tokens@.len() == canonical@.len(),
                tv == strings_view(tokens@),
                cv == opts_view(canonical@),
                strings_view(r@) == resolve_deps(tv.take(i as int), canonical_root@, cv.take(i as int)),
            decreases tokens@.len() - i,
        {
            proof {
                assert(tv.take(i + 1).drop_last() == tv.take(i as int));
                assert(cv.take(i + 1).drop_last() == cv.take(i as int));
                assert(tv.take(i + 1).last() == tokens@[i as int]@);
                assert(cv.take(i + 1).last() == opt_view(canonical@[i as int]));
            }
            let token = tokens[i].as_str();
            let kept: Option<String> = if !path_is_absolute(token) {
                Some(tokens[i].clone())
            } else {
                match &canonical[i] {
                    Some(c) => {
                        if path_starts_with(c.as_str(), canonical_root) {
                            match path_strip_prefix(token, canonical_root) {
                                Some(rel) => Some(rel),
                                None => path_strip_prefix(c.as_str(), canonical_root),
                            }
                        } else {
                            None
                        }
                    },
                    None => None,
                }
            };
            match kept {
                Some(p) => {
                    r.push(p);
                    proof {
                        assert(strings_view(r@) =~= strings_view(r@.drop_last()).push(r@.last()@));
                    }
                },
                None => {},
            }
            i = i + 1;
        }
        proof {
            assert(tv.take(tokens@.len() as int) == tv);
            assert(cv.take(canonical@.len() as int) == cv);
        }
        r
    }

    /// The project-local headers a `-MM` output lists, given the canonical
    /// project root and the canonical form of each of its dependency
    /// tokens (see `dep_tokens`).
    pub fn parse_dep_file(&self, content: &str, canonical_root: &str, canonical: &[Option<String>]) -> (r: Vec<String>)
        requires
            canonical@.len() == dep_tokens_spec(content@).len(),
        ensures
            strings_view(r@) == resolve_deps(dep_tokens_spec(content@), canonical_root@, opts_view(canonical@)),
    {
        let tokens = Self::dep_tokens(content);
        Self::resolve_dep_tokens(tokens.as_slice(), canonical_root, canonical)
    }

    /// The `pkg-config` query for the include directories of the configured
    /// packages; none when no package is configured.
    pub fn pkg_config_command(&self) -> (r: Option<CommandLine>)
        ensures
            self.config.pkg_config@.len() == 0 <==> r is None,
            r matches Some(c) ==> c.program@ == "pkg-config"@ && strings_view(c.args@) == seq![
                "--cflags-only-I"@,
            ] + strings_view(self.config.pkg_config@),
    {
        if self.config.pkg_config.len() == 0 {
            return None;
        }
        let mut args: Vec<String> = Vec::new();
        args.push("--cflags-only-I".to_string());
        let mut pkgs = clone_strings(&self.config.pkg_config);
        let ghost a0 = strings_view(args@);
        let ghost pv = pkgs@;
        args.append(&mut pkgs);
        proof {
            assert(strings_view(args@) =~= a0 + strings_view(pv));
        }
        Some(CommandLine { program: "pkg-config".to_string(), args })
    }

    /// The include directories in `pkg-config --cflags-only-I` output: its
    /// `-I` words without the `-I`.
    pub fn pkg_config_include_paths(stdout: &str) -> (r: Vec<String>)
        ensures
            strings_view(r@) == include_dirs_of(words(stdout@)),
    {
        let chars = to_chars(stdout);
        let ws = split_whitespace_chars(chars.as_slice());
        let ghost wv = vecs_view(ws@);
        let mut r: Vec<String> = Vec::new();
        let mut i: usize = 0;
        while i < ws.len()
            invariant
                i <= ws@.len(),
                wv == vecs_view(ws@),
                strings_view(r@) == include_dirs_of(wv.take(i as int)),
            decreases ws@.len() - i,
        {
            proof {
                assert(wv.take(i + 1).drop_last() == wv.take(i as int));
                assert(wv.take(i + 1).last() == ws@[i as int]@);
            }
            let w = &ws[i];
            if w.len() >= 2 && w[0] == '-' && w[1] == 'I' {
                let d = from_chars(sub_vec(w.as_slice(), 2, w.len()).as_slice());
                r.push(d);
                proof {
                    assert(w@.subrange(0, 2) =~= "-I"@) by {
                        reveal_strlit("-I");
                    }
                    assert(w@.subrange(2, w@.len() as int) == w@.skip(2));
                    assert(strings_view(r@) =~= strings_view(r@.drop_last()).push(w@.skip(2)));
                }
            } else {
                proof {
                    reveal_strlit("-I");
                    if w@.len() >= 2 {
                        assert(w@.subrange(0, 2) != "-I"@) by {
                            assert(w@.subrange(0, 2)[0] == w@[0]);
                            assert(w@.subrange(0, 2)[1] == w@[1]);
                        }
                    }
                }
            }
            i = i + 1;
        }
        assert(wv.take(ws@.len() as int) == wv);
        r
    }

    /// The shell commands that print include directories: each configured
    /// command that is not blank, run as `sh -c <command>`.
    pub fn include_path_command_lines(&self) -> (r: Vec<CommandLine>)
        ensures
            r@.len() == nonblank(strings_view(self.config.include_path_commands@)).len(),
            forall|i: int| 0 <= i < r@.len() ==> (#[trigger] r@[i]).program@ == "sh"@ && strings_view(
                r@[i].args@,
            ) == seq!["-c"@, nonblank(strings_view(self.config.include_path_commands@))[i]],
    {
        let cmds = &self.config.include_path_commands;
        let ghost cv = strings_view(cmds@);
        let mut r: Vec<CommandLine> = Vec::new();
        let mut i: usize = 0;
        while i < cmds.len()
            invariant
                i <= cmds@.len(),
                cv == strings_view(cmds@),
                r@.len() == nonblank(cv.take(i as int)).len(),
                forall|j: int| 0 <= j < r@.len() ==> (#[trigger] r@[j]).program@ == "sh"@ && strings_view(
                    r@[j].args@,
                ) == seq!["-c"@, nonblank(cv.take(i as int))[j]],
            decreases cmds@.len() - i,
        {
            proof {
                assert(cv.take(i + 1).drop_last() == cv.take(i as int));
                assert(cv.take(i + 1).last() == cmds@[i as int]@);
            }
            let t = trim_chars(to_chars(cmds[i].as_str()).as_slice());
            if t.len() > 0 {
                let mut args: Vec<String> = Vec::new();
                args.push("-c".to_string());
                args.push(cmds[i].clone());
                proof {
                    assert(strings_view(args@) =~= seq!["-c"@, cmds@[i as int]@]);
                }
                r.push(CommandLine { program: "sh".to_string(), args });
            }
            i = i + 1;
        }
        assert(cv.take(cmds@.len() as int) == cv);
        r
    }

    /// The include directory a command printed: its trimmed output, unless
    /// that is empty.
    pub fn command_output_path(stdout: &str) -> (r: Option<String>)
        ensures
            trim(stdout@).len() == 0 <==> r is None,
            r matches Some(p) ==> p@ == trim(stdout@),
    {
        let t = trim_chars(to_chars(stdout).as_slice());
        if t.len() == 0 {
            None
        } else {
            Some(from_chars(t.as_slice()))
        }
    }

    /// The compiler run that lists a source file's dependencies: the C++
    /// compiler for C++ sources, else the C compiler, with `-MM`, the
    /// configured include directories, those from `pkg-config` and from the
    /// include path commands, the language's flags, and the source.
    pub fn scan_command(&self, source: &str, is_cpp: bool, pkg_paths: &[String], command_paths: &[String]) -> (r: CommandLine)
        ensures
            r.program@ == (if is_cpp { self.config.cxx@ } else { self.config.cc@ }),
            strings_view(r.args@) == seq!["-MM"@] + include_flags(strings_view(self.config.include_paths@))
                + include_flags(strings_view(pkg_paths@)) + include_flags(strings_view(command_paths@))
                + strings_view(if is_cpp { self.config.cxxflags@ } else { self.config.cflags@ }) + seq![source@],
    {
        let mut args: Vec<String> = Vec::new();
        args.push("-MM".to_string());
        push_include_flags(&mut args, self.config.include_paths.as_slice());
        push_include_flags(&mut args, pkg_paths);
        push_include_flags(&mut args, command_paths);
        let flags = if is_cpp {
            &self.config.cxxflags
        } else {
            &self.config.cflags
        };
        let ghost a0 = strings_view(args@);
        let mut i: usize = 0;
        while i < flags.len()
            invariant
                i <= flags@.len(),
                strings_view(args@) == a0 + strings_view(flags@).take(i as int),
            decreases flags@.len() - i,
        {
            let ghost prev = strings_view(args@);
            let fl = flags[i].clone();
            assert(fl@ == flags@[i as int]@);
            args.push(fl);
            proof {
                assert(strings_view(args@) =~= prev.push(flags@[i as int]@));
                assert(strings_view(args@) =~= a0 + strings_view(flags@).take(i + 1));
            }
            i = i + 1;
        }
        assert(strings_view(flags@).take(flags@.len() as int) == strings_view(flags@));
        let ghost before_source = strings_view(args@);
        args.push(source.to_string());
        proof {
            assert(strings_view(args@) =~= before_source.push(source@));
            assert(strings_view(args@) =~= seq!["-MM"@] + include_flags(strings_view(self.config.include_paths@))
                + include_flags(strings_view(pkg_paths@)) + include_flags(strings_view(command_paths@))
                + strings_view(flags@) + seq![source@]);
        }
        let program = if is_cpp {
            self.config.cxx.clone()
        } else {
            self.config.cc.clone()
        };
        CommandLine { program, args }
    }

    /// Whether a source file is C++ (by its extension) rather than C.
    pub fn is_cpp_source(source: &str) -> (r: bool)
        ensures
            r == has_cpp_ext(source@),
    {
        match path_extension(source) {
            Some(e) => str_eq(e.as_str(), "cc") || str_eq(e.as_str(), "cpp") || str_eq(e.as_str(), "cxx"),
            None => false,
        }
    }

    /// The source file to scan for a product: its first input, when that
    /// is a C or C++ source file outside the excluded directories.
    pub fn source_to_scan(&self, product: &Product) -> (r: Option<String>)
        ensures
            r == (if product.inputs@.len() > 0 && !excluded_by(product.inputs@[0]@, self.config.src_exclude_dirs@)
                && has_source_ext(product.inputs@[0]@) {
                Some(product.inputs@[0])
            } else {
                None::<String>
            }),
    {
        if product.inputs.len() == 0 {
            return None;
        }
        let source = product.inputs[0].as_str();
        if self.is_excluded(source) {
            return None;
        }
        let is_source = match path_extension(source) {
            Some(e) => str_eq(e.as_str(), "c") || str_eq(e.as_str(), "cc") || str_eq(e.as_str(), "cpp")
                || str_eq(e.as_str(), "cxx"),
            None => false,
        };
        if is_source {
            Some(product.inputs[0].clone())
        } else {
            None
        }
    }

    /// Whether the project has C or C++ files (sources or headers).
    pub fn auto_detect(&self, index: &FileIndex) -> (r: bool)
        ensures
            r == exists|i: int, k: int|
                0 <= i < index.files@.len() && 0 <= k < detect_exts().len() && crate::text::seq_ends_with(
                    #[trigger] index.files@[i]@,
                    #[trigger] detect_exts()[k],
                ),
    {
        let exts: [&str; 8] = [".c", ".cc", ".cpp", ".cxx", ".h", ".hh", ".hpp", ".hxx"];
        let mut k: usize = 0;
        while k < 8
            invariant
                k <= 8,
                forall|j: int| 0 <= j < 8 ==> (#[trigger] exts@[j])@ == detect_exts()[j],
                forall|i: int, j: int|
                    0 <= i < index.files@.len() && 0 <= j < k ==> !crate::text::seq_ends_with(
                        #[trigger] index.files@[i]@,
                        #[trigger] detect_exts()[j],
                    ),
            decreases 8 - k,
        {
            if index.has_extension(exts[k]) {
                return true;
            }
            k = k + 1;
        }
        false
    }
}

/// The texts that are not blank, in order.
pub open spec fn nonblank(s: Seq<Seq<char>>) -> Seq<Seq<char>>
    decreases s.len(),
{
    if s.len() == 0 {
        seq![]
    } else {
        let rest = nonblank(s.drop_last());
        if trim(s.last()).len() > 0 {
            rest.push(s.last())
        } else {
            rest
        }
    }
}

} // verus!
