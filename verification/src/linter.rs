//! Python linting: one lint item per Python file, with a stub file that
//! marks a successful lint.

use vstd::prelude::*;
use crate::config::LintConfig;
use crate::text::{
    to_chars, from_chars, str_eq, str_contains, seq_contains, append_str, strings_view,
};
use crate::paths::{
    path_strip_prefix, strip_prefix_spec, path_join, join_spec, path_extension, extension_spec,
};
use crate::processors::{clone_strings, concat_strings};

verus! {

/// A Python file to lint.
pub struct LintItem {
    /// Path to the Python file.
    pub source_path: String,
    /// Path to the stub file marking a successful lint.
    pub stub_path: String,
    /// Linter command.
    pub linter: String,
    /// Additional linter arguments.
    pub linter_args: Vec<String>,
    /// Project root, for relative display.
    pub project_root: String,
}

/// Path separators (`/` and `\`) replaced by underscores.
pub open spec fn flatten_separators(s: Seq<char>) -> Seq<char> {
    s.map_values(|c: char| if c == '/' || c == '\\' { '_' } else { c })
}

/// The path relative to the project root, or the path itself when it is not under the root.
pub open spec fn relative_or_self(path: Seq<char>, root: Seq<char>) -> Seq<char> {
    match strip_prefix_spec(path, root) {
        Some(rel) => rel,
        None => path,
    }
}

/// The stub file of a source: its relative path with separators flattened,
/// plus `.lint`, in the stub directory.
pub open spec fn stub_path_spec(source: Seq<char>, stub_dir: Seq<char>, root: Seq<char>) -> Seq<char> {
    join_spec(stub_dir, flatten_separators(relative_or_self(source, root)) + ".lint"@)
}

fn relative_or_self_exec(path: &str, root: &str) -> (r: String)
    ensures
        r@ == relative_or_self(path@, root@),
{
    match path_strip_prefix(path, root) {
        Some(rel) => rel,
        None => String::from_str(path),
    }
}

/// A lint command: the linter, its arguments and the file, run in a directory.
pub struct LintRun {
    pub program: String,
    pub args: Vec<String>,
    pub dir: String,
}

impl LintItem {
    pub fn new(
        source_path: String,
        stub_dir: &str,
        project_root: &str,
        linter: &str,
        linter_args: &Vec<String>,
    ) -> (r: Self)
        ensures
            r.source_path@ == source_path@,
            r.stub_path@ == stub_path_spec(source_path@, stub_dir@, project_root@),
            r.linter@ == linter@,
            strings_view(r.linter_args@) == strings_view(linter_args@),
            r.project_root@ == project_root@,
    {
        let rel = relative_or_self_exec(source_path.as_str(), project_root);
        let c = to_chars(rel.as_str());
        let mut flat: Vec<char> = Vec::new();
        let mut i: usize = 0;
        while i < c.len()
            invariant
                i <= c@.len(),
                flat@ == flatten_separators(c@.take(i as int)),
            decreases c@.len() - i,
        {
            let ch = c[i];
            flat.push(if ch == '/' || ch == '\\' { '_' } else { ch });
            assert(flatten_separators(c@.take(i + 1)) == flatten_separators(c@.take(i as int)).push(
                if ch == '/' || ch == '\\' { '_' } else { ch },
            ));
            i = i + 1;
        }
        assert(c@.take(c@.len() as int) == c@);
        let mut stub_name = from_chars(flat.as_slice());
        append_str(&mut stub_name, ".lint");
        let stub_path = path_join(stub_dir, stub_name.as_str());
        Self {
            source_path,
            stub_path,
            linter: String::from_str(linter),
            linter_args: clone_strings(linter_args),
            project_root: String::from_str(project_root),
        }
    }

    /// The cache key: `lint:` and the path relative to the project root.
    pub fn cache_key(&self) -> (r: String)
        ensures
            r@ == "lint:"@ + relative_or_self(self.source_path@, self.project_root@),
    {
        let rel = relative_or_self_exec(self.source_path.as_str(), self.project_root.as_str());
        let mut k = String::from_str("lint:");
        append_str(&mut k, rel.as_str());
        k
    }

    /// The path relative to the project root.
    pub fn display_name(&self) -> (r: String)
        ensures
            r@ == relative_or_self(self.source_path@, self.project_root@),
    {
        relative_or_self_exec(self.source_path.as_str(), self.project_root.as_str())
    }

    /// The lint command: the linter (with `check` first for ruff, which
    /// would otherwise fix files), the configured arguments and the file, run
    /// in the project root.
    pub fn lint_run(&self) -> (r: LintRun)
        ensures
            r.program@ == self.linter@,
            strings_view(r.args@) == (if self.linter@ == "ruff"@ {
                seq!["check"@]
            } else {
                Seq::<Seq<char>>::empty()
            }) + strings_view(self.linter_args@) + seq![self.source_path@],
            r.dir@ == self.project_root@,
    {
        let mut lead: Vec<String> = Vec::new();
        if str_eq(self.linter.as_str(), "ruff") {
            lead.push(String::from_str("check"));
        }
        let args = concat_strings(lead, &self.linter_args);
        let mut tail: Vec<String> = Vec::new();
        tail.push(self.source_path.clone());
        let all = concat_strings(args, &tail);
        proof {
            assert(strings_view(tail@) == seq![self.source_path@]);
            if self.linter@ == "ruff"@ {
                assert(strings_view(lead@) == seq!["check"@]);
            } else {
                assert(strings_view(lead@) == Seq::<Seq<char>>::empty());
            }
        }
        LintRun { program: self.linter.clone(), args: all, dir: self.project_root.clone() }
    }
}

/// Lints the Python files of a project.
pub struct Linter {
    pub project_root: String,
    pub lint_config: LintConfig,
    pub stub_dir: String,
}

/// Segments of directories whose Python files are not linted.
pub open spec fn skipped_segments() -> Seq<Seq<char>> {
    seq![
        "/.venv/"@,
        "/__pycache__/"@,
        "/.git/"@,
        "/out/"@,
        "/node_modules/"@,
        "/.tox/"@,
        "/build/"@,
        "/dist/"@,
        "/.eggs/"@,
    ]
}

/// A path found in the project is linted: it is a `.py` file outside the skipped directories.
pub open spec fn lintable_in_project(path: Seq<char>) -> bool {
    &&& forall|k: int| 0 <= k < skipped_segments().len() ==> !seq_contains(path, #[trigger] skipped_segments()[k])
    &&& extension_spec(path) == Some("py"@)
}

/// A path found in the project is linted exactly when its extension is
/// `py` and none of `/.venv/`, `/__pycache__/`, `/.git/`, `/out/`,
/// `/node_modules/`, `/.tox/`, `/build/`, `/dist/`, `/.eggs/` occurs in it.
pub proof fn lemma_lintable_law(path: Seq<char>)
    ensures
        lintable_in_project(path) == (extension_spec(path) == Some("py"@) && !seq_contains(path, "/.venv/"@)
            && !seq_contains(path, "/__pycache__/"@) && !seq_contains(path, "/.git/"@) && !seq_contains(
            path,
            "/out/"@,
        ) && !seq_contains(path, "/node_modules/"@) && !seq_contains(path, "/.tox/"@) && !seq_contains(
            path,
            "/build/"@,
        ) && !seq_contains(path, "/dist/"@) && !seq_contains(path, "/.eggs/"@)),
{
    let sk = skipped_segments();
    assert(sk[0] == "/.venv/"@);
    assert(sk[1] == "/__pycache__/"@);
    assert(sk[2] == "/.git/"@);
    assert(sk[3] == "/out/"@);
    assert(sk[4] == "/node_modules/"@);
    assert(sk[5] == "/.tox/"@);
    assert(sk[6] == "/build/"@);
    assert(sk[7] == "/dist/"@);
    assert(sk[8] == "/.eggs/"@);
    assert(sk.len() == 9);
}

/// A path has the extension `py`.
pub open spec fn is_python(path: Seq<char>) -> bool {
    extension_spec(path) == Some("py"@)
}

/// Whether a path has the extension `py`.
pub fn is_python_file(path: &str) -> (r: bool)
    ensures
        r == is_python(path@),
{
    match path_extension(path) {
        Some(e) => str_eq(e.as_str(), "py"),
        None => false,
    }
}

impl Linter {
    /// A linter for the project, with stubs under `out/lint`.
    pub fn new(project_root: String, lint_config: LintConfig) -> (r: Self)
        ensures
            r.project_root@ == project_root@,
            r.lint_config == lint_config,
            r.stub_dir@ == join_spec(project_root@, "out/lint"@),
    {
        let stub_dir = path_join(project_root.as_str(), "out/lint");
        Self { project_root, lint_config, stub_dir }
    }

    /// Linting is enabled when the project has a `pyproject.toml`, or a
    /// `tests` directory that holds Python files.
    pub fn should_lint(pyproject_exists: bool, tests_exists: bool, tests_has_python: bool) -> (r: bool)
        ensures
            r == (pyproject_exists || (tests_exists && tests_has_python)),
    {
        pyproject_exists || (tests_exists && tests_has_python)
    }

    /// Whether a path found in the project is linted: a `.py` file outside
    /// virtual environments, caches, VCS and build directories.
    pub fn is_lintable_project_path(path: &str) -> (r: bool)
        ensures
            r == lintable_in_project(path@),
    {
        let segs: Vec<&str> = vec![
            "/.venv/",
            "/__pycache__/",
            "/.git/",
            "/out/",
            "/node_modules/",
            "/.tox/",
            "/build/",
            "/dist/",
            "/.eggs/",
        ];
        let mut k: usize = 0;
        while k < segs.len()
            invariant
                k <= segs@.len(),
                segs@.len() == skipped_segments().len(),
                forall|j: int| 0 <= j < segs@.len() ==> #[trigger] segs@[j]@ == skipped_segments()[j],
                forall|j: int| 0 <= j < k ==> !seq_contains(path@, #[trigger] skipped_segments()[j]),
            decreases segs@.len() - k,
        {
            if str_contains(path, segs[k]) {
                return false;
            }
            k = k + 1;
        }
        is_python_file(path)
    }

    /// The Python files to lint, from the paths found under the project
    /// root and under its `tests` directory: with a `pyproject.toml`, the
    /// project's lintable paths; else, when `tests` exists, its `.py`
    /// files; else none. Paths keep the order they were found in.
    pub fn python_sources(
        pyproject_exists: bool,
        project_paths: &[String],
        tests_exists: bool,
        tests_paths: &[String],
    ) -> (r: Vec<String>)
        ensures
            strings_view(r@) == if pyproject_exists {
                strings_view(project_paths@).filter(|p: Seq<char>| lintable_in_project(p))
            } else if tests_exists {
                strings_view(tests_paths@).filter(|p: Seq<char>| is_python(p))
            } else {
                seq![]
            },
    {
        let mut r: Vec<String> = Vec::new();
        proof {
            reveal(Seq::filter);
        }
        if pyproject_exists {
            let ghost pv = strings_view(project_paths@);
            let mut i: usize = 0;
            while i < project_paths.len()
                invariant
                    i <= project_paths@.len(),
                    pv == strings_view(project_paths@),
                    strings_view(r@) == pv.take(i as int).filter(|p: Seq<char>| lintable_in_project(p)),
                decreases project_paths@.len() - i,
            {
                proof {
                    reveal(Seq::filter);
                    assert(pv.take(i + 1).drop_last() == pv.take(i as int));
                    assert(pv.take(i + 1).last() == project_paths@[i as int]@);
                }
                if Self::is_lintable_project_path(project_paths[i].as_str()) {
                    let ghost before = strings_view(r@);
                    r.push(project_paths[i].clone());
                    assert(strings_view(r@) == before.push(project_paths@[i as int]@));
                }
                i = i + 1;
            }
            assert(pv.take(project_paths@.len() as int) == pv);
        } else if tests_exists {
            let ghost tv = strings_view(tests_paths@);
            let mut i: usize = 0;
            while i < tests_paths.len()
                invariant
                    i <= tests_paths@.len(),
                    tv == strings_view(tests_paths@),
                    strings_view(r@) == tv.take(i as int).filter(|p: Seq<char>| is_python(p)),
                decreases tests_paths@.len() - i,
            {
                proof {
                    reveal(Seq::filter);
                    assert(tv.take(i + 1).drop_last() == tv.take(i as int));
                    assert(tv.take(i + 1).last() == tests_paths@[i as int]@);
                }
                if is_python_file(tests_paths[i].as_str()) {
                    let ghost before = strings_view(r@);
                    r.push(tests_paths[i].clone());
                    assert(strings_view(r@) == before.push(tests_paths@[i as int]@));
                }
                i = i + 1;
            }
            assert(tv.take(tests_paths@.len() as int) == tv);
        }
        r
    }

    /// The lint items of the given Python files.
    pub fn find_python_files(&self, paths: Vec<String>) -> (r: Vec<LintItem>)
        ensures
            r@.len() == paths@.len(),
            forall|k: int|
                0 <= k < paths@.len() ==> (#[trigger] r@[k]).source_path@ == paths@[k]@ && r@[k].stub_path@
                    == stub_path_spec(paths@[k]@, self.stub_dir@, self.project_root@) && r@[k].linter@
                    == self.lint_config.linter@ && strings_view(r@[k].linter_args@) == strings_view(
                    self.lint_config.args@,
                ) && r@[k].project_root@ == self.project_root@,
    {
        let mut r: Vec<LintItem> = Vec::new();
        let mut i: usize = 0;
        while i < paths.len()
            invariant
                i <= paths@.len(),
                r@.len() == i,
                forall|k: int|
                    0 <= k < i ==> (#[trigger] r@[k]).source_path@ == paths@[k]@ && r@[k].stub_path@
                        == stub_path_spec(paths@[k]@, self.stub_dir@, self.project_root@) && r@[k].linter@
                        == self.lint_config.linter@ && strings_view(r@[k].linter_args@) == strings_view(
                        self.lint_config.args@,
                    ) && r@[k].project_root@ == self.project_root@,
            decreases paths@.len() - i,
        {
            let item = LintItem::new(
                paths[i].clone(),
                self.stub_dir.as_str(),
                self.project_root.as_str(),
                self.lint_config.linter.as_str(),
                &self.lint_config.args,
            );
            r.push(item);
            i = i + 1;
        }
        r
    }
}

} // verus!
