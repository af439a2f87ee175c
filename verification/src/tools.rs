//! The external tools that processors need: which processors need which
//! tool, how to install a missing one, and what the `tools` command
//! reports.

use vstd::prelude::*;
use crate::text::{
    strings_view, str_eq, to_chars, append_str, trim, trim_chars, from_chars, join_with,
};
use crate::exit_code::{RsbError, RsbExitCode, lowercase_of, to_lowercase};

verus! {

/// Strict order of texts, character by character (the order of `str`,
/// since UTF-8 keeps the order of code points).
pub open spec fn text_lt(a: Seq<char>, b: Seq<char>) -> bool
    decreases a.len(),
{
    if a.len() == 0 {
        b.len() > 0
    } else if b.len() == 0 {
        false
    } else if a[0] != b[0] {
        a[0] < b[0]
    } else {
        text_lt(a.drop_first(), b.drop_first())
    }
}

/// No text comes before itself.
pub proof fn lemma_text_lt_irreflexive(a: Seq<char>)
    ensures
        !text_lt(a, a),
    decreases a.len(),
{
    if a.len() > 0 {
        lemma_text_lt_irreflexive(a.drop_first());
    }
}

/// The order of texts is transitive.
pub proof fn lemma_text_lt_transitive(a: Seq<char>, b: Seq<char>, c: Seq<char>)
    requires
        text_lt(a, b),
        text_lt(b, c),
    ensures
        text_lt(a, c),
    decreases a.len(),
{
    if a.len() > 0 && b.len() > 0 && c.len() > 0 && a[0] == b[0] && b[0] == c[0] {
        lemma_text_lt_transitive(a.drop_first(), b.drop_first(), c.drop_first());
    }
}

/// Of two different texts, one comes before the other.
pub proof fn lemma_text_lt_total(a: Seq<char>, b: Seq<char>)
    ensures
        text_lt(a, b) || text_lt(b, a) || a == b,
    decreases a.len(),
{
    if a.len() > 0 && b.len() > 0 {
        if a[0] == b[0] {
            lemma_text_lt_total(a.drop_first(), b.drop_first());
            if a.drop_first() == b.drop_first() {
                assert(a == seq![a[0]] + a.drop_first());
                assert(b == seq![b[0]] + b.drop_first());
            }
        }
    } else if a.len() == 0 && b.len() == 0 {
        assert(a == b);
    }
}

/// Of two texts, at most one comes before the other.
pub proof fn lemma_text_lt_asymmetric(a: Seq<char>, b: Seq<char>)
    requires
        text_lt(a, b),
    ensures
        !text_lt(b, a),
{
    if text_lt(b, a) {
        lemma_text_lt_transitive(a, b, a);
        lemma_text_lt_irreflexive(a);
    }
}

/// Whether `a` comes strictly before `b`.
pub fn text_less(a: &str, b: &str) -> (r: bool)
    ensures
        r == text_lt(a@, b@),
{
    let x = to_chars(a);
    let y = to_chars(b);
    let mut i: usize = 0;
    assert(x@.skip(0) == x@ && y@.skip(0) == y@);
    while i < x.len() && i < y.len() && x[i] == y[i]
        invariant
            i <= x@.len(),
            i <= y@.len(),
            x@.take(i as int) == y@.take(i as int),
            text_lt(a@, b@) == text_lt(x@.skip(i as int), y@.skip(i as int)),
        decreases x@.len() - i,
    {
        proof {
            assert(x@.skip(i as int).drop_first() == x@.skip(i + 1));
            assert(y@.skip(i as int).drop_first() == y@.skip(i + 1));
            assert(x@.take(i + 1) == x@.take(i as int).push(x@[i as int]));
            assert(y@.take(i + 1) == y@.take(i as int).push(y@[i as int]));
        }
        i = i + 1;
    }
    if i == x.len() {
        i < y.len()
    } else if i == y.len() {
        false
    } else {
        x[i] < y[i]
    }
}

/// The texts are strictly increasing: sorted, with no text twice.
pub open spec fn strictly_sorted(s: Seq<Seq<char>>) -> bool {
    forall|i: int, j: int| 0 <= i < j < s.len() ==> text_lt(#[trigger] s[i], #[trigger] s[j])
}

/// Inserting `x` after the texts below it and before the others keeps a
/// list strictly increasing.
pub proof fn lemma_insert_keeps_sorted(s0: Seq<Seq<char>>, i: int, x: Seq<char>)
    requires
        strictly_sorted(s0),
        0 <= i <= s0.len(),
        forall|j: int| 0 <= j < i ==> text_lt(#[trigger] s0[j], x),
        i < s0.len() ==> text_lt(x, s0[i]),
    ensures
        strictly_sorted(s0.insert(i, x)),
{
    let s1 = s0.insert(i, x);
    assert forall|a: int, b: int| 0 <= a < b < s1.len() implies text_lt(#[trigger] s1[a], #[trigger] s1[b]) by {
        if b < i {
            assert(s1[a] == s0[a] && s1[b] == s0[b]);
        } else if a > i {
            assert(s1[a] == s0[a - 1] && s1[b] == s0[b - 1]);
        } else if b == i {
            assert(s1[a] == s0[a]);
        } else if a == i {
            assert(s1[b] == s0[b - 1]);
            if b - 1 > i {
                lemma_text_lt_transitive(x, s0[i], s0[b - 1]);
            }
        } else {
            assert(s1[a] == s0[a] && s1[b] == s0[b - 1]);
        }
    }
}

/// Adds `x` to a strictly increasing list of texts, in its place, unless
/// it is there already.
pub fn insert_sorted(v: &mut Vec<String>, x: &str)
    requires
        strictly_sorted(strings_view(old(v)@)),
    ensures
        strictly_sorted(strings_view(final(v)@)),
        strings_view(final(v)@).to_set() == strings_view(old(v)@).to_set().insert(x@),
{
    let ghost s0 = strings_view(v@);
    let mut i: usize = 0;
    while i < v.len() && text_less(v[i].as_str(), x)
        invariant
            i <= v@.len(),
            strings_view(v@) == s0,
            forall|j: int| 0 <= j < i ==> text_lt(#[trigger] s0[j], x@),
        decreases v@.len() - i,
    {
        i = i + 1;
    }
    if i < v.len() && str_eq(v[i].as_str(), x) {
        proof {
            assert(s0[i as int] == x@);
            assert(s0.to_set().insert(x@) =~= s0.to_set());
        }
        return;
    }
    proof {
        if i < s0.len() {
            lemma_text_lt_total(s0[i as int], x@);
        }
    }
    v.insert(i, x.to_string());
    proof {
        let s1 = strings_view(v@);
        assert(s1 =~= s0.insert(i as int, x@));
        if i < s0.len() {
            assert(s0[i as int] != x@);
            lemma_text_lt_asymmetric(x@, s0[i as int]);
        }
        lemma_insert_keeps_sorted(s0, i as int, x@);
        assert(s1.to_set() =~= s0.to_set().insert(x@)) by {
            assert forall|t: Seq<char>| s0.to_set().insert(x@).contains(t) implies s1.to_set().contains(t) by {
                if t == x@ {
                    assert(s1[i as int] == t);
                } else {
                    assert(s0.contains(t));
                    let k = choose|k: int| 0 <= k < s0.len() && s0[k] == t;
                    if k < i {
                        assert(s1[k] == t);
                    } else {
                        assert(s1[k + 1] == t);
                    }
                }
            }
            assert forall|t: Seq<char>| s1.to_set().contains(t) implies s0.to_set().insert(x@).contains(t) by {
                assert(s1.contains(t));
                let k = choose|k: int| 0 <= k < s1.len() && s1[k] == t;
                if k < i {
                    assert(s0[k] == t);
                } else if k > i {
                    assert(s0[k - 1] == t);
                }
            }
        }
    }
}

/// A processor as the tools command sees it: its name, whether the
/// configuration enables it, and the tools it needs.
pub struct ToolUser {
    pub processor: String,
    pub enabled: bool,
    pub tools: Vec<String>,
}

/// A tool and the processors that need it.
pub struct ToolEntry {
    pub tool: String,
    pub processors: Vec<String>,
}

/// Processor `name` is listed (enabled, or all are shown) and needs `tool`.
pub open spec fn needs(users: Seq<ToolUser>, show_all: bool, tool: Seq<char>, name: Seq<char>) -> bool {
    exists|k: int|
        0 <= k < users.len() && (show_all || users[k].enabled) && #[trigger] users[k].processor@ == name
            && strings_view(users[k].tools@).contains(tool)
}

/// The (tool, processor) pairs a tool list holds.
pub open spec fn pairs_of(r: Seq<ToolEntry>) -> Set<(Seq<char>, Seq<char>)> {
    Set::new(
        |p: (Seq<char>, Seq<char>)|
            exists|i: int|
                0 <= i < r.len() && #[trigger] r[i].tool@ == p.0 && strings_view(
                    r[i].processors@,
                ).contains(p.1),
    )
}

pub open spec fn tools_of(r: Seq<ToolEntry>) -> Seq<Seq<char>> {
    r.map_values(|e: ToolEntry| e.tool@)
}

/// A tool list in order: tools strictly increasing, each with a strictly
/// increasing, non-empty list of processors.
pub open spec fn tool_list_ok(r: Seq<ToolEntry>) -> bool {
    &&& strictly_sorted(tools_of(r))
    &&& forall|i: int| 0 <= i < r.len() ==> strictly_sorted(strings_view(#[trigger] r[i].processors@))
    &&& forall|i: int| 0 <= i < r.len() ==> (#[trigger] r[i].processors@).len() > 0
}

/// The pairs of the first `k` processors, and of the first `j` tools of
/// processor `k`.
pub open spec fn needed_pairs(users: Seq<ToolUser>, show_all: bool, k: int, j: int) -> Set<(Seq<char>, Seq<char>)> {
    Set::new(
        |p: (Seq<char>, Seq<char>)|
            exists|q: int, t: int|
                0 <= q <= k && q < users.len() && (show_all || users[q].enabled) && 0 <= t < users[q].tools@.len()
                    && (q < k || t < j) && #[trigger] users[q].processor@ == p.1 && #[trigger] users[q].tools@[t]@ == p.0,
    )
}

/// Records that processor `name` needs `tool`.
fn add_pair(r: &mut Vec<ToolEntry>, tool: &str, name: &str)
    requires
        tool_list_ok(old(r)@),
    ensures
        tool_list_ok(final(r)@),
        pairs_of(final(r)@) == pairs_of(old(r)@).insert((tool@, name@)),
{
    let ghost r0 = r@;
    let mut i: usize = 0;
    while i < r.len() && text_less(r[i].tool.as_str(), tool)
        invariant
            i <= r@.len(),
            r@ == r0,
            forall|j: int| 0 <= j < i ==> text_lt(#[trigger] tools_of(r0)[j], tool@),
        decreases r@.len() - i,
    {
        i = i + 1;
    }
    if i < r.len() && str_eq(r[i].tool.as_str(), tool) {
        let mut e = r.remove(i);
        let ghost procs0 = strings_view(e.processors@);
        assert(e == r0[i as int]);
        insert_sorted(&mut e.processors, name);
        r.insert(i, e);
        proof {
            let r1 = r@;
            assert(tools_of(r1) =~= tools_of(r0));
            assert forall|q: int| 0 <= q < r1.len() implies strictly_sorted(strings_view(#[trigger] r1[q].processors@))
                && r1[q].processors@.len() > 0 by {
                if q != i {
                    assert(r1[q] == r0[q]);
                } else {
                    assert(strings_view(r1[q].processors@).to_set().contains(name@));
                    assert(strings_view(r1[q].processors@).contains(name@));
                }
            }
            assert(pairs_of(r1) =~= pairs_of(r0).insert((tool@, name@))) by {
                assert forall|p: (Seq<char>, Seq<char>)| #[trigger] pairs_of(r1).contains(p) == pairs_of(r0).insert(
                    (tool@, name@),
                ).contains(p) by {
                    if pairs_of(r1).contains(p) {
                        let q = choose|q: int|
                            0 <= q < r1.len() && #[trigger] r1[q].tool@ == p.0 && strings_view(
                                r1[q].processors@,
                            ).contains(p.1);
                        if q != i {
                            assert(r1[q] == r0[q]);
                            assert(r0[q].tool@ == p.0 && strings_view(r0[q].processors@).contains(p.1));
                        } else {
                            assert(strings_view(r1[q].processors@).to_set().contains(p.1));
                            assert(r0[q].tool@ == p.0);
                            assert(p.0 == tool@);
                            if p.1 == name@ {
                                assert(p == (tool@, name@));
                            } else {
                                assert(procs0.to_set().contains(p.1));
                                assert(procs0.contains(p.1));
                                assert(strings_view(r0[q].processors@).contains(p.1));
                            }
                        }
                        assert(pairs_of(r0).insert((tool@, name@)).contains(p));
                    }
                    if pairs_of(r0).insert((tool@, name@)).contains(p) {
                        if p == (tool@, name@) {
                            assert(strings_view(r1[i as int].processors@).to_set().contains(name@));
                            assert(strings_view(r1[i as int].processors@).contains(p.1));
                            assert(r1[i as int].tool@ == p.0);
                        } else {
                            let q = choose|q: int|
                                0 <= q < r0.len() && #[trigger] r0[q].tool@ == p.0 && strings_view(
                                    r0[q].processors@,
                                ).contains(p.1);
                            if q != i {
                                assert(r1[q] == r0[q]);
                                assert(r1[q].tool@ == p.0 && strings_view(r1[q].processors@).contains(p.1));
                            } else {
                                assert(procs0.to_set().contains(p.1));
                                assert(strings_view(r1[q].processors@).to_set().contains(p.1));
                                assert(strings_view(r1[q].processors@).contains(p.1));
                                assert(r1[q].tool@ == p.0);
                            }
                            assert(pairs_of(r1).contains(p));
                        }
                    }
                }
            }
        }
        return;
    }
    proof {
        if i < r0.len() {
            lemma_text_lt_total(tools_of(r0)[i as int], tool@);
            lemma_text_lt_asymmetric(tool@, tools_of(r0)[i as int]);
        }
        lemma_insert_keeps_sorted(tools_of(r0), i as int, tool@);
    }
    let mut procs: Vec<String> = Vec::new();
    procs.push(name.to_string());
    let e = ToolEntry { tool: tool.to_string(), processors: procs };
    r.insert(i, e);
    proof {
        let r1 = r@;
        assert(r1 == r0.insert(i as int, e));
        assert(tools_of(r1) =~= tools_of(r0).insert(i as int, tool@));
        assert(strings_view(e.processors@) =~= seq![name@]);
        assert forall|q: int| 0 <= q < r1.len() implies strictly_sorted(strings_view(#[trigger] r1[q].processors@))
            && r1[q].processors@.len() > 0 by {
            if q < i {
                assert(r1[q] == r0[q]);
            } else if q > i {
                assert(r1[q] == r0[q - 1]);
            }
        }
        assert(pairs_of(r1) =~= pairs_of(r0).insert((tool@, name@))) by {
            assert forall|p: (Seq<char>, Seq<char>)| #[trigger] pairs_of(r1).contains(p) == pairs_of(r0).insert(
                (tool@, name@),
            ).contains(p) by {
                if pairs_of(r1).contains(p) {
                    let q = choose|q: int|
                        0 <= q < r1.len() && #[trigger] r1[q].tool@ == p.0 && strings_view(
                            r1[q].processors@,
                        ).contains(p.1);
                    if q < i {
                        assert(r1[q] == r0[q]);
                        assert(r0[q].tool@ == p.0 && strings_view(r0[q].processors@).contains(p.1));
                    } else if q > i {
                        assert(r1[q] == r0[q - 1]);
                        assert(r0[q - 1].tool@ == p.0 && strings_view(r0[q - 1].processors@).contains(p.1));
                    } else {
                        assert(r1[q] == e);
                        assert(seq![name@].contains(p.1));
                        assert(p.1 == name@);
                        assert(p == (tool@, name@));
                    }
                }
                if pairs_of(r0).insert((tool@, name@)).contains(p) {
                    if p == (tool@, name@) {
                        assert(r1[i as int] == e);
                        assert(strings_view(r1[i as int].processors@)[0] == p.1);
                        assert(r1[i as int].tool@ == p.0);
                    } else {
                        let q = choose|q: int|
                            0 <= q < r0.len() && #[trigger] r0[q].tool@ == p.0 && strings_view(
                                r0[q].processors@,
                            ).contains(p.1);
                        if q < i {
                            assert(r1[q] == r0[q]);
                            assert(r1[q].tool@ == p.0 && strings_view(r1[q].processors@).contains(p.1));
                        } else {
                            assert(r1[q + 1] == r0[q]);
                            assert(r1[q + 1].tool@ == p.0 && strings_view(r1[q + 1].processors@).contains(p.1));
                        }
                    }
                }
            }
        }
    }
}

/// The tools the listed processors need, each with the processors that
/// need it: a processor is listed when `show_all` is set or it is enabled.
/// Tools and, for each tool, processors come in increasing order, each once.
pub fn tool_map(users: &[ToolUser], show_all: bool) -> (r: Vec<ToolEntry>)
    ensures
        tool_list_ok(r@),
        forall|t: Seq<char>, name: Seq<char>|
            #[trigger] pairs_of(r@).contains((t, name)) <==> needs(users@, show_all, t, name),
{
    let mut r: Vec<ToolEntry> = Vec::new();
    let mut k: usize = 0;
    proof {
        assert(pairs_of(r@) =~= needed_pairs(users@, show_all, 0, 0));
    }
    while k < users.len()
        invariant
            k <= users@.len(),
            tool_list_ok(r@),
            pairs_of(r@) == needed_pairs(users@, show_all, k as int, 0),
        decreases users@.len() - k,
    {
        let u = &users[k];
        if show_all || u.enabled {
            let mut j: usize = 0;
            while j < u.tools.len()
                invariant
                    k < users@.len(),
                    *u == users@[k as int],
                    show_all || u.enabled,
                    j <= u.tools@.len(),
                    tool_list_ok(r@),
                    pairs_of(r@) == needed_pairs(users@, show_all, k as int, j as int),
                decreases u.tools@.len() - j,
            {
                add_pair(&mut r, u.tools[j].as_str(), u.processor.as_str());
                proof {
                    assert(needed_pairs(users@, show_all, k as int, j + 1) =~= needed_pairs(
                        users@,
                        show_all,
                        k as int,
                        j as int,
                    ).insert((u.tools@[j as int]@, u.processor@)));
                }
                j = j + 1;
            }
            proof {
                assert(needed_pairs(users@, show_all, k + 1, 0) =~= needed_pairs(
                    users@,
                    show_all,
                    k as int,
                    j as int,
                ));
            }
        } else {
            proof {
                assert(needed_pairs(users@, show_all, k + 1, 0) =~= needed_pairs(users@, show_all, k as int, 0));
            }
        }
        k = k + 1;
    }
    proof {
        assert forall|t: Seq<char>, name: Seq<char>|
            #[trigger] pairs_of(r@).contains((t, name)) <==> needs(users@, show_all, t, name) by {
            let ns = needed_pairs(users@, show_all, users@.len() as int, 0);
            if ns.contains((t, name)) {
                let (q, w) = choose|q: int, w: int|
                    0 <= q <= users@.len() && q < users@.len() && (show_all || users@[q].enabled) && 0 <= w
                        < users@[q].tools@.len() && (q < users@.len() || w < 0) && #[trigger] users@[q].processor@
                        == name && #[trigger] users@[q].tools@[w]@ == t;
                assert(strings_view(users@[q].tools@)[w] == t);
            }
            if needs(users@, show_all, t, name) {
                let q = choose|q: int|
                    0 <= q < users@.len() && (show_all || users@[q].enabled) && #[trigger] users@[q].processor@
                        == name && strings_view(users@[q].tools@).contains(t);
                let w = choose|w: int| 0 <= w < users@[q].tools@.len() && strings_view(users@[q].tools@)[w] == t;
                assert(users@[q].tools@[w]@ == t);
                assert(ns.contains((t, name)));
            }
        }
    }
    r
}

/// The command that installs a tool, for the tools it knows.
pub open spec fn install_hint_spec(tool: Seq<char>) -> Option<Seq<char>> {
    if tool == "ruff"@ {
        Some("pip install ruff"@)
    } else if tool == "pylint"@ {
        Some("pip install pylint"@)
    } else if tool == "mypy"@ {
        Some("pip install mypy"@)
    } else if tool == "pyrefly"@ {
        Some("pip install pyrefly"@)
    } else if tool == "black"@ {
        Some("pip install black"@)
    } else if tool == "shellcheck"@ {
        Some("apt install shellcheck"@)
    } else if tool == "cppcheck"@ {
        Some("apt install cppcheck"@)
    } else if tool == "clang-tidy"@ {
        Some("apt install clang-tidy"@)
    } else if tool == "gcc"@ {
        Some("apt install gcc"@)
    } else if tool == "g++"@ {
        Some("apt install g++"@)
    } else if tool == "clang"@ {
        Some("apt install clang"@)
    } else if tool == "clang++"@ {
        Some("apt install clang"@)
    } else if tool == "make"@ {
        Some("apt install make"@)
    } else if tool == "cargo"@ {
        Some("curl --proto '=https' --tlsv1.2 -sSf https://sh.rustup.rs | sh"@)
    } else if tool == "rustc"@ {
        Some("curl --proto '=https' --tlsv1.2 -sSf https://sh.rustup.rs | sh"@)
    } else if tool == "aspell"@ {
        Some("apt install aspell"@)
    } else if tool == "yamllint"@ {
        Some("pip install yamllint"@)
    } else if tool == "jq"@ {
        Some("apt install jq"@)
    } else if tool == "jsonlint"@ {
        Some("npm install -g jsonlint"@)
    } else if tool == "taplo"@ {
        Some("cargo install taplo-cli"@)
    } else if tool == "mdl"@ {
        Some("gem install mdl"@)
    } else if tool == "pandoc"@ {
        Some("apt install pandoc"@)
    } else if tool == "sass"@ {
        Some("npm install -g sass"@)
    } else if tool == "protoc"@ {
        Some("apt install protobuf-compiler"@)
    } else if tool == "pytest"@ {
        Some("pip install pytest"@)
    } else if tool == "rumdl"@ {
        Some("cargo install rumdl"@)
    } else {
        None
    }
}

/// The command that installs a missing tool, if one is known.
pub fn install_hint(tool: &str) -> (r: Option<&'static str>)
    ensures
        match r {
            Some(h) => install_hint_spec(tool@) == Some(h@),
            None => install_hint_spec(tool@) is None,
        },
{
    if str_eq(tool, "ruff") {
        Some("pip install ruff")
    } else if str_eq(tool, "pylint") {
        Some("pip install pylint")
    } else if str_eq(tool, "mypy") {
        Some("pip install mypy")
    } else if str_eq(tool, "pyrefly") {
        Some("pip install pyrefly")
    } else if str_eq(tool, "black") {
        Some("pip install black")
    } else if str_eq(tool, "shellcheck") {
        Some("apt install shellcheck")
    } else if str_eq(tool, "cppcheck") {
        Some("apt install cppcheck")
    } else if str_eq(tool, "clang-tidy") {
        Some("apt install clang-tidy")
    } else if str_eq(tool, "gcc") {
        Some("apt install gcc")
    } else if str_eq(tool, "g++") {
        Some("apt install g++")
    } else if str_eq(tool, "clang") {
        Some("apt install clang")
    } else if str_eq(tool, "clang++") {
        Some("apt install clang")
    } else if str_eq(tool, "make") {
        Some("apt install make")
    } else if str_eq(tool, "cargo") {
        Some("curl --proto '=https' --tlsv1.2 -sSf https://sh.rustup.rs | sh")
    } else if str_eq(tool, "rustc") {
        Some("curl --proto '=https' --tlsv1.2 -sSf https://sh.rustup.rs | sh")
    } else if str_eq(tool, "aspell") {
        Some("apt install aspell")
    } else if str_eq(tool, "yamllint") {
        Some("pip install yamllint")
    } else if str_eq(tool, "jq") {
        Some("apt install jq")
    } else if str_eq(tool, "jsonlint") {
        Some("npm install -g jsonlint")
    } else if str_eq(tool, "taplo") {
        Some("cargo install taplo-cli")
    } else if str_eq(tool, "mdl") {
        Some("gem install mdl")
    } else if str_eq(tool, "pandoc") {
        Some("apt install pandoc")
    } else if str_eq(tool, "sass") {
        Some("npm install -g sass")
    } else if str_eq(tool, "protoc") {
        Some("apt install protobuf-compiler")
    } else if str_eq(tool, "pytest") {
        Some("pip install pytest")
    } else if str_eq(tool, "rumdl") {
        Some("cargo install rumdl")
    } else {
        None
    }
}

/// The error the `tools check` command ends with when a tool is missing.
pub open spec fn missing_tools_message() -> Seq<char> {
    "Some required tools are missing"@
}

/// The error the `tools install` command ends with when an install failed.
pub open spec fn failed_install_message() -> Seq<char> {
    "Some tools failed to install"@
}

/// The result of checking the tools, given which of them were found.
pub fn check_outcome(found: &[bool]) -> (r: Result<(), RsbError>)
    ensures
        r is Ok <==> forall|i: int| 0 <= i < found@.len() ==> #[trigger] found@[i],
        r matches Err(e) ==> e.exit_code == RsbExitCode::ToolError && e.message@ == missing_tools_message(),
{
    let mut i: usize = 0;
    while i < found.len()
        invariant
            i <= found@.len(),
            forall|j: int| 0 <= j < i ==> #[trigger] found@[j],
        decreases found@.len() - i,
    {
        if !found[i] {
            return Err(RsbError::new(RsbExitCode::ToolError, "Some required tools are missing".to_string()));
        }
        i = i + 1;
    }
    Ok(())
}

/// The result of installing tools, given which installs succeeded.
pub fn install_outcome(succeeded: &[bool]) -> (r: Result<(), RsbError>)
    ensures
        r is Ok <==> forall|i: int| 0 <= i < succeeded@.len() ==> #[trigger] succeeded@[i],
        r matches Err(e) ==> e.exit_code == RsbExitCode::ToolError && e.message@ == failed_install_message(),
{
    let mut i: usize = 0;
    while i < succeeded.len()
        invariant
            i <= succeeded@.len(),
            forall|j: int| 0 <= j < i ==> #[trigger] succeeded@[j],
        decreases succeeded@.len() - i,
    {
        if !succeeded[i] {
            return Err(RsbError::new(RsbExitCode::ToolError, "Some tools failed to install".to_string()));
        }
        i = i + 1;
    }
    Ok(())
}

/// Whether an answer to "Proceed? [y/N]" agrees: once trimmed and
/// lowercased, it is `y` or `yes`.
pub fn confirms(answer: &str) -> (r: bool)
    ensures
        r == (lowercase_of(trim(answer@)) == "y"@ || lowercase_of(trim(answer@)) == "yes"@),
{
    let chars = to_chars(answer);
    let trimmed = from_chars(trim_chars(chars.as_slice()).as_slice());
    let lower = to_lowercase(trimmed.as_str());
    str_eq(lower.as_str(), "y") || str_eq(lower.as_str(), "yes")
}

/// The error for a tool without a known install command.
pub open spec fn no_hint_message(name: Seq<char>) -> Seq<char> {
    "No install hint known for tool '"@ + name + "'"@
}

/// What `tools install` will install: the named tool, or else each tool
/// that is not installed and has a known install command, with that
/// command. Also gives the tools left out for want of one.
pub fn install_plan(name: Option<&str>, tools: &[String], installed: &[bool]) -> (r: Result<(Vec<(String, &'static str)>, Vec<String>), String>)
    requires
        tools@.len() == installed@.len(),
    ensures
        match name {
            Some(n) => match install_hint_spec(n@) {
                Some(h) => r matches Ok((plan, skipped)) && plan@.len() == 1 && plan@[0].0@ == n@ && plan@[0].1@ == h
                    && skipped@.len() == 0,
                None => r matches Err(e) && e@ == no_hint_message(n@),
            },
            None => r matches Ok((plan, skipped)) && plan_view(plan@) == planned(strings_view(tools@), installed@)
                && strings_view(skipped@) == unhinted(strings_view(tools@), installed@),
        },
{
    match name {
        Some(n) => {
            match install_hint(n) {
                Some(h) => {
                    let mut plan: Vec<(String, &'static str)> = Vec::new();
                    plan.push((n.to_string(), h));
                    Ok((plan, Vec::new()))
                },
                None => {
                    let mut e = String::new();
                    append_str(&mut e, "No install hint known for tool '");
                    append_str(&mut e, n);
                    append_str(&mut e, "'");
                    Err(e)
                },
            }
        },
        None => {
            let mut plan: Vec<(String, &'static str)> = Vec::new();
            let mut skipped: Vec<String> = Vec::new();
            let mut i: usize = 0;
            while i < tools.len()
                invariant
                    i <= tools@.len() == installed@.len(),
                    plan_view(plan@) == planned(strings_view(tools@).take(i as int), installed@.take(i as int)),
                    strings_view(skipped@) == unhinted(strings_view(tools@).take(i as int), installed@.take(i as int)),
                decreases tools@.len() - i,
            {
                proof {
                    let tv = strings_view(tools@);
                    assert(tv.take(i + 1).drop_last() == tv.take(i as int));
                    assert(installed@.take(i + 1).drop_last() == installed@.take(i as int));
                    assert(tv.take(i + 1).last() == tools@[i as int]@);
                }
                if !installed[i] {
                    match install_hint(tools[i].as_str()) {
                        Some(h) => {
                            plan.push((tools[i].clone(), h));
                            proof {
                                assert(plan_view(plan@) =~= plan_view(plan@.drop_last()).push((tools@[i as int]@, h@)));
                            }
                        },
                        None => {
                            skipped.push(tools[i].clone());
                            proof {
                                assert(strings_view(skipped@) =~= strings_view(skipped@.drop_last()).push(tools@[i as int]@));
                            }
                        },
                    }
                }
                i = i + 1;
            }
            proof {
                assert(strings_view(tools@).take(tools@.len() as int) == strings_view(tools@));
                assert(installed@.take(installed@.len() as int) == installed@);
            }
            Ok((plan, skipped))
        },
    }
}

pub open spec fn plan_view(p: Seq<(String, &'static str)>) -> Seq<(Seq<char>, Seq<char>)> {
    p.map_values(|e: (String, &'static str)| (e.0@, e.1@))
}

/// The tools that are not installed and have a known install command,
/// each with it.
pub open spec fn planned(tools: Seq<Seq<char>>, installed: Seq<bool>) -> Seq<(Seq<char>, Seq<char>)>
    decreases tools.len(),
{
    if tools.len() == 0 || installed.len() != tools.len() {
        seq![]
    } else {
        let rest = planned(tools.drop_last(), installed.drop_last());
        if !installed.last() && install_hint_spec(tools.last()) is Some {
            rest.push((tools.last(), install_hint_spec(tools.last())->0))
        } else {
            rest
        }
    }
}

/// The tools that are not installed and have no known install command.
pub open spec fn unhinted(tools: Seq<Seq<char>>, installed: Seq<bool>) -> Seq<Seq<char>>
    decreases tools.len(),
{
    if tools.len() == 0 || installed.len() != tools.len() {
        seq![]
    } else {
        let rest = unhinted(tools.drop_last(), installed.drop_last());
        if !installed.last() && install_hint_spec(tools.last()) is None {
            rest.push(tools.last())
        } else {
            rest
        }
    }
}

/// The line `tools list` prints for a tool: its name, then the processors
/// that need it, in brackets and separated by commas.
pub open spec fn list_line_spec(tool: Seq<char>, processors: Seq<Seq<char>>) -> Seq<char> {
    tool + " ("@ + join_with(processors, ", "@) + ")"@
}

pub fn list_line(entry: &ToolEntry) -> (r: String)
    ensures
        r@ == list_line_spec(entry.tool@, strings_view(entry.processors@)),
{
    let mut r = String::new();
    append_str(&mut r, entry.tool.as_str());
    append_str(&mut r, " (");
    let ghost ps = strings_view(entry.processors@);
    let ghost r0 = r@;
    let mut i: usize = 0;
    while i < entry.processors.len()
        invariant
            i <= entry.processors@.len(),
            ps == strings_view(entry.processors@),
            r@ == r0 + join_with(ps.take(i as int), ", "@),
        decreases entry.processors@.len() - i,
    {
        proof {
            assert(ps.take(i + 1).drop_last() == ps.take(i as int));
            assert(ps.take(i + 1).last() == entry.processors@[i as int]@);
        }
        if i > 0 {
            append_str(&mut r, ", ");
        } else {
            assert(ps.take(1) == seq![ps[0]]);
        }
        append_str(&mut r, entry.processors[i].as_str());
        i = i + 1;
    }
    assert(ps.take(entry.processors@.len() as int) == ps);
    append_str(&mut r, ")");
    r
}

/// The line `tools check` prints for a tool: its list line, then `found`
/// and where, or `missing` and the install command when one is known.
pub open spec fn check_line_spec(tool: Seq<char>, processors: Seq<Seq<char>>, found_at: Option<Seq<char>>) -> Seq<char> {
    match found_at {
        Some(p) => list_line_spec(tool, processors) + " found "@ + p,
        None => list_line_spec(tool, processors) + " missing"@ + match install_hint_spec(tool) {
            Some(h) => " \u{2014} install with: "@ + h,
            None => Seq::empty(),
        },
    }
}

/// The line `tools check` prints for a tool, given where it was found, if
/// it was.
pub fn check_line(entry: &ToolEntry, found_at: Option<&str>) -> (r: String)
    ensures
        r@ == check_line_spec(entry.tool@, strings_view(entry.processors@), match found_at {
            Some(p) => Some(p@),
            None => None,
        }),
{
    let mut r = list_line(entry);
    match found_at {
        Some(p) => {
            append_str(&mut r, " found ");
            append_str(&mut r, p);
        },
        None => {
            append_str(&mut r, " missing");
            match install_hint(entry.tool.as_str()) {
                Some(h) => {
                    append_str(&mut r, " \u{2014} install with: ");
                    append_str(&mut r, h);
                },
                None => {
                    assert(r@ == r@ + Seq::<char>::empty());
                },
            }
        },
    }
    r
}

} // verus!
