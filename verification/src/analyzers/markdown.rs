//! The Markdown analyzer: the local files a document refers to with
//! `![alt](path)` or `[text](path)`.

use vstd::prelude::*;
use crate::text::{
    strings_view, seq_starts_with, seq_ends_with, str_starts_with, str_eq, to_chars, from_chars,
    sub_vec, trim, trim_chars, words, split_whitespace_chars, first_index, first_char,
};
use crate::file_index::FileIndex;
use crate::graph::Product;
use crate::paths::{
    parent_spec, join_spec, same_path_spec, extension_spec, path_parent, path_join, path_eq,
    path_extension,
};

verus! {

/// The first position at or after `p` that holds `c`, or the text's end.
pub open spec fn find_from(t: Seq<char>, p: int, c: char) -> int
    decreases t.len() - p,
{
    if 0 <= p < t.len() && t[p] != c {
        find_from(t, p + 1, c)
    } else {
        p
    }
}

/// `find_from` stops at the first `c` from `p` on, within the text.
pub proof fn lemma_find_from(t: Seq<char>, p: int, c: char)
    requires
        0 <= p,
    ensures
        p <= find_from(t, p, c),
        p <= t.len() ==> find_from(t, p, c) <= t.len(),
        find_from(t, p, c) < t.len() ==> t[find_from(t, p, c)] == c,
        forall|m: int| p <= m < find_from(t, p, c) ==> #[trigger] t[m] != c,
    decreases t.len() - p,
{
    if 0 <= p < t.len() && t[p] != c {
        lemma_find_from(t, p + 1, c);
    }
}

/// The link that starts at `s`, as the range of its target: an optional
/// `!`, then `[`, then any characters but `]`, then `](`, then one or more
/// characters but `)`, then `)`. The target is the text between the round
/// brackets; the link ends just after the `)`.
pub open spec fn link_at(t: Seq<char>, s: int) -> Option<(int, int)> {
    let b = if 0 <= s < t.len() && t[s] == '!' {
        s + 1
    } else {
        s
    };
    if !(0 <= b < t.len() && t[b] == '[') {
        None
    } else {
        let q = find_from(t, b + 1, ']');
        if !(q + 1 < t.len() && t[q + 1] == '(') {
            None
        } else {
            let r = find_from(t, q + 2, ')');
            if r >= t.len() || r == q + 2 {
                None
            } else {
                Some((q + 2, r))
            }
        }
    }
}

/// The targets of the links from position `p` on: at each position, the
/// link that starts there (if any) is taken, and the search goes on just
/// after it; links do not overlap and come in order.
pub open spec fn link_targets_from(t: Seq<char>, p: int) -> Seq<Seq<char>>
    decreases t.len() - p,
{
    if p < 0 || p >= t.len() {
        seq![]
    } else {
        match link_at(t, p) {
            Some(range) => {
                proof {
                    let b = if t[p] == '!' { p + 1 } else { p };
                    lemma_find_from(t, b + 1, ']');
                    lemma_find_from(t, find_from(t, b + 1, ']') + 2, ')');
                }
                seq![t.subrange(range.0, range.1)] + link_targets_from(t, range.1 + 1)
            },
            None => link_targets_from(t, p + 1),
        }
    }
}

/// The link targets of a Markdown text, in order: the part inside the
/// round brackets of each `[text](target)` or `![alt](target)`.
pub open spec fn link_targets_spec(t: Seq<char>) -> Seq<Seq<char>> {
    link_targets_from(t, 0)
}

/// The first position at or after `p` that holds `c`, or the end.
fn find_from_exec(t: &[char], p: usize, c: char) -> (r: usize)
    requires
        p <= t@.len(),
    ensures
        r as int == find_from(t@, p as int, c),
{
    let mut i = p;
    while i < t.len() && t[i] != c
        invariant
            p <= i <= t@.len(),
            find_from(t@, p as int, c) == find_from(t@, i as int, c),
        decreases t@.len() - i,
    {
        i = i + 1;
    }
    i
}

/// The link that starts at `s`, as the range of its target.
fn link_at_exec(t: &[char], s: usize) -> (r: Option<(usize, usize)>)
    requires
        s < t@.len(),
    ensures
        match r {
            Some(range) => link_at(t@, s as int) == Some((range.0 as int, range.1 as int)),
            None => link_at(t@, s as int) is None,
        },
{
    let n = t.len();
    let b = if t[s] == '!' {
        s + 1
    } else {
        s
    };
    if !(b < n && t[b] == '[') {
        return None;
    }
    let q = find_from_exec(t, b + 1, ']');
    proof {
        lemma_find_from(t@, b + 1, ']');
    }
    if !(q < n && q + 1 < n && t[q + 1] == '(') {
        return None;
    }
    let r = find_from_exec(t, q + 2, ')');
    if r >= n || r == q + 2 {
        None
    } else {
        Some((q + 2, r))
    }
}

/// The link targets of a Markdown text: the part inside the round brackets
/// of each `[text](target)` or `![alt](target)`, in order.
pub fn link_targets(content: &str) -> (r: Vec<String>)
    ensures
        strings_view(r@) == link_targets_spec(content@),
{
    let t = to_chars(content);
    let n = t.len();
    let mut r: Vec<String> = Vec::new();
    let mut p: usize = 0;
    while p < n
        invariant
            p <= n == t@.len(),
            t@ == content@,
            strings_view(r@) + link_targets_from(t@, p as int) == link_targets_spec(content@),
        decreases n - p,
    {
        match link_at_exec(t.as_slice(), p) {
            Some(range) => {
                proof {
                    let b = if t@[p as int] == '!' { p + 1 } else { p as int };
                    lemma_find_from(t@, b + 1, ']');
                    lemma_find_from(t@, find_from(t@, b + 1, ']') + 2, ')');
                }
                let target = from_chars(sub_vec(t.as_slice(), range.0, range.1).as_slice());
                let ghost before = strings_view(r@);
                r.push(target);
                proof {
                    assert(strings_view(r@) =~= before.push(t@.subrange(range.0 as int, range.1 as int)));
                    assert(before.push(t@.subrange(range.0 as int, range.1 as int)) + link_targets_from(
                        t@,
                        range.1 + 1,
                    ) =~= before + (seq![t@.subrange(range.0 as int, range.1 as int)] + link_targets_from(
                        t@,
                        range.1 + 1,
                    )));
                }
                p = range.1 + 1;
            },
            None => {
                p = p + 1;
            },
        }
    }
    assert(link_targets_from(t@, p as int) == Seq::<Seq<char>>::empty());
    assert(strings_view(r@) =~= strings_view(r@) + Seq::<Seq<char>>::empty());
    r
}

/// A target that is no local file: a web or FTP address, a `data:` URI or
/// an anchor in the same document.
pub open spec fn is_remote_target(p: Seq<char>) -> bool {
    seq_starts_with(p, "http://"@) || seq_starts_with(p, "https://"@) || seq_starts_with(p, "ftp://"@)
        || seq_starts_with(p, "data:"@) || seq_starts_with(p, "#"@)
}

/// The path a link target names: the trimmed target, unless remote;
/// without a title (what follows the first white space) or an anchor (what
/// follows the first `#`); none if nothing is left.
pub open spec fn reference_path_spec(target: Seq<char>) -> Option<Seq<char>> {
    let p = trim(target);
    if is_remote_target(p) {
        None
    } else {
        let ws = words(p);
        let first = if ws.len() > 0 {
            ws[0]
        } else {
            p
        };
        let path = match first_index(first, '#') {
            Some(i) => first.take(i),
            None => first,
        };
        if path.len() == 0 {
            None
        } else {
            Some(path)
        }
    }
}

proof fn lemma_first_index_found(s: Seq<char>, c: char)
    ensures
        match first_index(s, c) {
            Some(i) => 0 <= i < s.len() && s[i] == c && forall|j: int| 0 <= j < i ==> s[j] != c,
            None => forall|j: int| 0 <= j < s.len() ==> s[j] != c,
        },
    decreases s.len(),
{
    if s.len() > 0 {
        lemma_first_index_found(s.drop_last(), c);
        match first_index(s.drop_last(), c) {
            Some(i) => {
                assert(s.drop_last()[i] == s[i]);
                assert forall|j: int| 0 <= j < i implies s[j] != c by {
                    assert(s.drop_last()[j] == s[j]);
                }
            },
            None => {
                assert forall|j: int| 0 <= j < s.len() - 1 implies s[j] != c by {
                    assert(s.drop_last()[j] == s[j]);
                }
            },
        }
    }
}

/// A link target names no local file when, trimmed, it starts with
/// `http://`, `https://`, `ftp://`, `data:` or `#`; the path it names
/// otherwise is never empty and holds no `#`.
pub proof fn lemma_reference_path_law(target: Seq<char>)
    ensures
        seq_starts_with(trim(target), "http://"@) || seq_starts_with(trim(target), "https://"@)
            || seq_starts_with(trim(target), "ftp://"@) || seq_starts_with(trim(target), "data:"@)
            || seq_starts_with(trim(target), "#"@) ==> reference_path_spec(target) is None,
        reference_path_spec(target) matches Some(p) ==> p.len() > 0 && forall|i: int|
            0 <= i < p.len() ==> #[trigger] p[i] != '#',
{
    let p = trim(target);
    if !is_remote_target(p) {
        let ws = words(p);
        let first = if ws.len() > 0 {
            ws[0]
        } else {
            p
        };
        lemma_first_index_found(first, '#');
    }
}

/// The directory a document's references are relative to.
pub open spec fn source_dir(source: Seq<char>) -> Seq<char> {
    match parent_spec(source) {
        Some(d) => d,
        None => "."@,
    }
}

/// The referenced paths, joined onto `dir`, each path once (the first
/// time it comes).
pub open spec fn reference_candidates_spec(targets: Seq<Seq<char>>, dir: Seq<char>) -> Seq<Seq<char>>
    decreases targets.len(),
{
    if targets.len() == 0 {
        seq![]
    } else {
        let rest = reference_candidates_spec(targets.drop_last(), dir);
        match reference_path_spec(targets.last()) {
            Some(p) => {
                let c = join_spec(dir, p);
                if exists|k: int| 0 <= k < rest.len() && same_path_spec(#[trigger] rest[k], c) {
                    rest
                } else {
                    rest.push(c)
                }
            },
            None => rest,
        }
    }
}

/// No path comes twice among the candidates: each was kept only when no
/// earlier one named the same path.
pub proof fn lemma_reference_candidates_distinct(targets: Seq<Seq<char>>, dir: Seq<char>)
    ensures
        forall|i: int, j: int|
            0 <= i < j < reference_candidates_spec(targets, dir).len() ==> !same_path_spec(
                #[trigger] reference_candidates_spec(targets, dir)[i],
                #[trigger] reference_candidates_spec(targets, dir)[j],
            ),
    decreases targets.len(),
{
    if targets.len() > 0 {
        lemma_reference_candidates_distinct(targets.drop_last(), dir);
        let rest = reference_candidates_spec(targets.drop_last(), dir);
        let r = reference_candidates_spec(targets, dir);
        assert forall|i: int, j: int| 0 <= i < j < r.len() implies !same_path_spec(#[trigger] r[i], #[trigger] r[j]) by {
            if j < rest.len() {
                assert(r[i] == rest[i] && r[j] == rest[j]);
            } else {
                assert(r[i] == rest[i]);
            }
        }
    }
}

/// Finds the local files Markdown documents refer to.
pub struct MarkdownDepAnalyzer;

impl MarkdownDepAnalyzer {
    pub fn new() -> Self {
        MarkdownDepAnalyzer
    }

    pub fn description(&self) -> (r: &'static str)
        ensures
            r@ == "Scan Markdown files for image and file reference dependencies"@,
    {
        "Scan Markdown files for image and file reference dependencies"
    }

    /// The path a link target names, if it names a local one.
    pub fn reference_path(target: &str) -> (r: Option<String>)
        ensures
            match r {
                Some(p) => reference_path_spec(target@) == Some(p@),
                None => reference_path_spec(target@) is None,
            },
    {
        let t = trim_chars(to_chars(target).as_slice());
        let ts = from_chars(t.as_slice());
        if str_starts_with(ts.as_str(), "http://") || str_starts_with(ts.as_str(), "https://")
            || str_starts_with(ts.as_str(), "ftp://") || str_starts_with(ts.as_str(), "data:")
            || str_starts_with(ts.as_str(), "#") {
            return None;
        }
        let ws = split_whitespace_chars(t.as_slice());
        let first: Vec<char> = if ws.len() > 0 {
            ws[0].clone()
        } else {
            t
        };
        assert(ws@.len() > 0 ==> first@ == words(trim(target@))[0]);
        let path = match first_char(first.as_slice(), '#') {
            Some(i) => sub_vec(first.as_slice(), 0, i),
            None => first,
        };
        if path.len() == 0 {
            None
        } else {
            Some(from_chars(path.as_slice()))
        }
    }

    /// The files a Markdown document at `source` refers to, relative to the
    /// document's directory, each once, in the order they first appear.
    /// Only those that are files count as dependencies.
    pub fn reference_candidates(&self, content: &str, source: &str) -> (r: Vec<String>)
        ensures
            strings_view(r@) == reference_candidates_spec(link_targets_spec(content@), source_dir(source@)),
    {
        let dir = match path_parent(source) {
            Some(d) => d,
            None => ".".to_string(),
        };
        let targets = link_targets(content);
        let ghost tv = strings_view(targets@);
        let mut r: Vec<String> = Vec::new();
        let mut i: usize = 0;
        while i < targets.len()
            invariant
                i <= targets@.len(),
                tv == strings_view(targets@),
                tv == link_targets_spec(content@),
                dir@ == source_dir(source@),
                strings_view(r@) == reference_candidates_spec(tv.take(i as int), dir@),
            decreases targets@.len() - i,
        {
            proof {
                assert(tv.take(i + 1).drop_last() == tv.take(i as int));
                assert(tv.take(i + 1).last() == targets@[i as int]@);
            }
            match Self::reference_path(targets[i].as_str()) {
                Some(p) => {
                    let c = path_join(dir.as_str(), p.as_str());
                    let mut seen = false;
                    let mut k: usize = 0;
                    while k < r.len()
                        invariant
                            k <= r@.len(),
                            !seen ==> forall|j: int| 0 <= j < k ==> !same_path_spec(#[trigger] strings_view(r@)[j], c@),
                            seen ==> exists|j: int| 0 <= j < r@.len() && same_path_spec(#[trigger] strings_view(r@)[j], c@),
                        decreases r@.len() - k,
                    {
                        if path_eq(r[k].as_str(), c.as_str()) {
                            seen = true;
                            assert(same_path_spec(strings_view(r@)[k as int], c@));
                        }
                        k = k + 1;
                    }
                    if !seen {
                        let ghost r0 = strings_view(r@);
                        r.push(c);
                        proof {
                            assert(strings_view(r@) =~= r0.push(c@));
                        }
                    }
                },
                None => {},
            }
            i = i + 1;
        }
        assert(tv.take(targets@.len() as int) == tv);
        r
    }

    /// The document to scan for a product: its first input, when that is a
    /// `.md` file.
    pub fn source_to_scan(&self, product: &Product) -> (r: Option<String>)
        ensures
            r == (if product.inputs@.len() > 0 && extension_spec(product.inputs@[0]@) == Some("md"@) {
                Some(product.inputs@[0])
            } else {
                None::<String>
            }),
    {
        if product.inputs.len() == 0 {
            return None;
        }
        match path_extension(product.inputs[0].as_str()) {
            Some(e) => {
                if str_eq(e.as_str(), "md") {
                    Some(product.inputs[0].clone())
                } else {
                    None
                }
            },
            None => None,
        }
    }

    /// Whether the project has Markdown files.
    pub fn auto_detect(&self, index: &FileIndex) -> (r: bool)
        ensures
            r == exists|i: int| 0 <= i < index.files@.len() && seq_ends_with(#[trigger] index.files@[i]@, ".md"@),
    {
        index.has_extension(".md")
    }

    /// The dependencies among the candidates of `reference_candidates`:
    /// each candidate is handed in with whether it is an existing file, and
    /// those that are stay, in order.
    pub fn existing_references(&self, checked: &[(String, bool)]) -> (r: Vec<String>)
        ensures
            strings_view(r@) == existing_files(checked@),
    {
        let mut r: Vec<String> = Vec::new();
        let mut i: usize = 0;
        while i < checked.len()
            invariant
                i <= checked@.len(),
                strings_view(r@) == existing_files(checked@.take(i as int)),
            decreases checked@.len() - i,
        {
            proof {
                assert(checked@.take(i + 1).drop_last() == checked@.take(i as int));
                assert(checked@.take(i + 1).last() == checked@[i as int]);
            }
            if checked[i].1 {
                let ghost before = strings_view(r@);
                r.push(checked[i].0.clone());
                assert(strings_view(r@) == before.push(checked@[i as int].0@));
            }
            i = i + 1;
        }
        assert(checked@.take(checked@.len() as int) == checked@);
        r
    }
}

/// The paths marked as existing files, in order.
pub open spec fn existing_files(checked: Seq<(String, bool)>) -> Seq<Seq<char>>
    decreases checked.len(),
{
    if checked.len() == 0 {
        seq![]
    } else {
        let rest = existing_files(checked.drop_last());
        if checked.last().1 {
            rest.push(checked.last().0@)
        } else {
            rest
        }
    }
}

/// The paths of checked candidates.
pub open spec fn checked_paths(checked: Seq<(String, bool)>) -> Seq<Seq<char>> {
    checked.map_values(|e: (String, bool)| e.0@)
}

proof fn lemma_existing_files_filter(checked: Seq<(String, bool)>, is_file: spec_fn(Seq<char>) -> bool)
    requires
        forall|i: int| 0 <= i < checked.len() ==> #[trigger] checked[i].1 == is_file(checked[i].0@),
    ensures
        existing_files(checked) == checked_paths(checked).filter(is_file),
    decreases checked.len(),
{
    reveal(Seq::filter);
    if checked.len() > 0 {
        let d = checked.drop_last();
        assert forall|i: int| 0 <= i < d.len() implies #[trigger] d[i].1 == is_file(d[i].0@) by {
            assert(d[i] == checked[i]);
        }
        lemma_existing_files_filter(d, is_file);
        assert(checked_paths(checked).drop_last() == checked_paths(d));
        assert(checked[checked.len() - 1].1 == is_file(checked[checked.len() - 1].0@));
    }
}

/// Scanning a document for its references: when the candidates of its
/// links (`reference_candidates`) are each checked for being an existing
/// file, the references (`existing_references`) are the candidates that
/// are files, in order of first appearance, each once.
pub proof fn lemma_scan_references(
    content: Seq<char>,
    source: Seq<char>,
    checked: Seq<(String, bool)>,
    is_file: spec_fn(Seq<char>) -> bool,
)
    requires
        checked_paths(checked) == reference_candidates_spec(link_targets_spec(content), source_dir(source)),
        forall|i: int| 0 <= i < checked.len() ==> #[trigger] checked[i].1 == is_file(checked[i].0@),
    ensures
        existing_files(checked) == reference_candidates_spec(link_targets_spec(content), source_dir(source)).filter(
            is_file,
        ),
{
    lemma_existing_files_filter(checked, is_file);
}

} // verus!
