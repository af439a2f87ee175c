//! An index of the project's files, and the selection of a processor's inputs from it.

use vstd::prelude::*;
use crate::text::{
    strings_view, strs_view, seq_contains, occurs_at, seq_ends_with, str_contains, str_ends_with, str_eq,
};
use crate::config::ScanConfig;
use crate::paths::{
    path_starts_with, path_starts_with_spec, path_file_name, file_name_spec, path_strip_prefix,
    strip_prefix_spec, path_join, join_spec, path_parent, parent_spec,
};
use crate::checksum::strings_eq;
use crate::paths::{path_components, path_components_of};

verus! {

/// The project's files (paths), in the order the index was built with.
pub struct FileIndex {
    pub files: Vec<String>,
}

/// Some string of the list occurs in `s`.
pub open spec fn contains_any(s: Seq<char>, parts: Seq<Seq<char>>) -> bool {
    exists|k: int| 0 <= k < parts.len() && seq_contains(s, parts[k])
}

/// `s` ends with some string of the list.
pub open spec fn ends_with_any(s: Seq<char>, ends: Seq<Seq<char>>) -> bool {
    exists|k: int| 0 <= k < ends.len() && seq_ends_with(s, ends[k])
}

/// `s` is one of the list's strings.
pub open spec fn is_one_of(s: Seq<char>, list: Seq<Seq<char>>) -> bool {
    exists|k: int| 0 <= k < list.len() && list[k] == s
}

/// The file name of a path, or empty when it has none.
pub open spec fn name_of(path: Seq<char>) -> Seq<char> {
    match file_name_spec(path) {
        Some(n) => n,
        None => Seq::empty(),
    }
}

/// The query's criteria for one file.
pub open spec fn selected(
    path: Seq<char>,
    root: Seq<char>,
    extensions: Seq<Seq<char>>,
    exclude_dirs: Seq<Seq<char>>,
    exclude_files: Seq<Seq<char>>,
    exclude_paths: Seq<Seq<char>>,
    project_root: Seq<char>,
) -> bool {
    &&& path_starts_with_spec(path, root)
    &&& !contains_any(path, exclude_dirs)
    &&& ends_with_any(name_of(path), extensions)
    &&& !is_one_of(name_of(path), exclude_files)
    &&& match strip_prefix_spec(path, project_root) {
        Some(rel) => !is_one_of(rel, exclude_paths),
        None => true,
    }
}

/// The files that meet the criteria, in index order.
pub open spec fn query_spec(
    files: Seq<Seq<char>>,
    root: Seq<char>,
    extensions: Seq<Seq<char>>,
    exclude_dirs: Seq<Seq<char>>,
    exclude_files: Seq<Seq<char>>,
    exclude_paths: Seq<Seq<char>>,
    project_root: Seq<char>,
) -> Seq<Seq<char>>
    decreases files.len(),
{
    if files.len() == 0 {
        Seq::empty()
    } else {
        let prev = query_spec(
            files.drop_last(),
            root,
            extensions,
            exclude_dirs,
            exclude_files,
            exclude_paths,
            project_root,
        );
        if selected(
            files.last(),
            root,
            extensions,
            exclude_dirs,
            exclude_files,
            exclude_paths,
            project_root,
        ) {
            prev.push(files.last())
        } else {
            prev
        }
    }
}

fn contains_any_exec(s: &str, parts: &[&str]) -> (r: bool)
    ensures
        r == contains_any(s@, strs_view(parts@)),
{
    let mut k: usize = 0;
    while k < parts.len()
        invariant
            k <= parts@.len(),
            forall|j: int| 0 <= j < k ==> !seq_contains(s@, #[trigger] strs_view(parts@)[j]),
        decreases parts@.len() - k,
    {
        assert(strs_view(parts@)[k as int] == parts@[k as int]@);
        if str_contains(s, parts[k]) {
            return true;
        }
        k = k + 1;
    }
    false
}

fn ends_with_any_exec(s: &str, ends: &[&str]) -> (r: bool)
    ensures
        r == ends_with_any(s@, strs_view(ends@)),
{
    let mut k: usize = 0;
    while k < ends.len()
        invariant
            k <= ends@.len(),
            forall|j: int| 0 <= j < k ==> !seq_ends_with(s@, #[trigger] strs_view(ends@)[j]),
        decreases ends@.len() - k,
    {
        assert(strs_view(ends@)[k as int] == ends@[k as int]@);
        if str_ends_with(s, ends[k]) {
            return true;
        }
        k = k + 1;
    }
    false
}

fn is_one_of_exec(s: &str, list: &[&str]) -> (r: bool)
    ensures
        r == is_one_of(s@, strs_view(list@)),
{
    let mut k: usize = 0;
    while k < list.len()
        invariant
            k <= list@.len(),
            forall|j: int| 0 <= j < k ==> #[trigger] strs_view(list@)[j] != s@,
        decreases list@.len() - k,
    {
        assert(strs_view(list@)[k as int] == list@[k as int]@);
        if str_eq(list[k], s) {
            return true;
        }
        k = k + 1;
    }
    false
}

/// Borrowed views of strings.
pub fn as_strs(v: &Vec<String>) -> (r: Vec<&str>)
    ensures
        strs_view(r@) == strings_view(v@),
{
    let mut r: Vec<&str> = Vec::new();
    let mut i: usize = 0;
    while i < v.len()
        invariant
            i <= v@.len(),
            strs_view(r@) == strings_view(v@).take(i as int),
        decreases v@.len() - i,
    {
        let ghost old_r = strs_view(r@);
        r.push(v[i].as_str());
        assert(strs_view(r@) == old_r.push(v@[i as int]@));
        assert(strings_view(v@).take(i + 1) == strings_view(v@).take(i as int).push(v@[i as int]@));
        i = i + 1;
    }
    assert(strings_view(v@).take(v@.len() as int) == strings_view(v@));
    r
}

/// Whether a path is a child of `root` (its parent equals `root` as a path).
pub open spec fn directly_in(path: Seq<char>, root: Seq<char>) -> bool {
    match parent_spec(path) {
        Some(p) => path_components_of(p) == path_components_of(root),
        None => false,
    }
}

/// The files directly in `root`, in order.
pub open spec fn directly_in_spec(files: Seq<Seq<char>>, root: Seq<char>) -> Seq<Seq<char>>
    decreases files.len(),
{
    if files.len() == 0 {
        Seq::empty()
    } else {
        let prev = directly_in_spec(files.drop_last(), root);
        if directly_in(files.last(), root) {
            prev.push(files.last())
        } else {
            prev
        }
    }
}

/// The directory a scan starts from: the project root, or the scan
/// directory joined onto it.
pub open spec fn scan_root_spec(project_root: Seq<char>, scan_dir: Seq<char>) -> Seq<char> {
    if scan_dir.len() == 0 {
        project_root
    } else {
        join_spec(project_root, scan_dir)
    }
}

/// The query's criteria for one file, stated on the texts: under the root,
/// with a file name that ends with one of the extensions, holding none of
/// the excluded directory texts, with a name that is no excluded file, and
/// with a path relative to the project root (where there is one) that is
/// no excluded path.
pub open spec fn meets(
    p: Seq<char>,
    root: Seq<char>,
    extensions: Seq<Seq<char>>,
    exclude_dirs: Seq<Seq<char>>,
    exclude_files: Seq<Seq<char>>,
    exclude_paths: Seq<Seq<char>>,
    project_root: Seq<char>,
) -> bool {
    let n = match file_name_spec(p) {
        Some(x) => x,
        None => Seq::<char>::empty(),
    };
    &&& path_starts_with_spec(p, root)
    &&& exists|e: int|
        #![trigger extensions[e]]
        0 <= e < extensions.len() && extensions[e].len() <= n.len() && n.subrange(
            n.len() - extensions[e].len(),
            n.len() as int,
        ) == extensions[e]
    &&& forall|d: int, x: int|
        #![trigger exclude_dirs[d], p.subrange(x, x + exclude_dirs[d].len())]
        0 <= d < exclude_dirs.len() && 0 <= x && x + exclude_dirs[d].len() <= p.len() ==> p.subrange(
            x,
            x + exclude_dirs[d].len(),
        ) != exclude_dirs[d]
    &&& forall|f: int| #![trigger exclude_files[f]] 0 <= f < exclude_files.len() ==> exclude_files[f] != n
    &&& match strip_prefix_spec(p, project_root) {
        Some(rel) => forall|x: int| #![trigger exclude_paths[x]] 0 <= x < exclude_paths.len() ==> exclude_paths[x] != rel,
        None => true,
    }
}

proof fn lemma_meets_selected(
    p: Seq<char>,
    root: Seq<char>,
    extensions: Seq<Seq<char>>,
    exclude_dirs: Seq<Seq<char>>,
    exclude_files: Seq<Seq<char>>,
    exclude_paths: Seq<Seq<char>>,
    project_root: Seq<char>,
)
    ensures
        meets(p, root, extensions, exclude_dirs, exclude_files, exclude_paths, project_root) == selected(
            p,
            root,
            extensions,
            exclude_dirs,
            exclude_files,
            exclude_paths,
            project_root,
        ),
{
    let n = name_of(p);
    assert(ends_with_any(n, extensions) == exists|e: int|
        #![trigger extensions[e]]
        0 <= e < extensions.len() && extensions[e].len() <= n.len() && n.subrange(
            n.len() - extensions[e].len(),
            n.len() as int,
        ) == extensions[e]) by {
        if ends_with_any(n, extensions) {
            let e = choose|e: int| 0 <= e < extensions.len() && seq_ends_with(n, extensions[e]);
            assert(n.subrange(n.len() - extensions[e].len(), n.len() as int) == extensions[e]);
        }
    }
    assert(contains_any(p, exclude_dirs) == !forall|d: int, x: int|
        #![trigger exclude_dirs[d], p.subrange(x, x + exclude_dirs[d].len())]
        0 <= d < exclude_dirs.len() && 0 <= x && x + exclude_dirs[d].len() <= p.len() ==> p.subrange(
            x,
            x + exclude_dirs[d].len(),
        ) != exclude_dirs[d]) by {
        if contains_any(p, exclude_dirs) {
            let d = choose|d: int| 0 <= d < exclude_dirs.len() && seq_contains(p, exclude_dirs[d]);
            let x = choose|x: int| occurs_at(p, exclude_dirs[d], x);
            assert(p.subrange(x, x + exclude_dirs[d].len()) == exclude_dirs[d]);
        }
        if !forall|d: int, x: int|
            #![trigger exclude_dirs[d], p.subrange(x, x + exclude_dirs[d].len())]
            0 <= d < exclude_dirs.len() && 0 <= x && x + exclude_dirs[d].len() <= p.len() ==> p.subrange(
                x,
                x + exclude_dirs[d].len(),
            ) != exclude_dirs[d] {
            let (d, x) = choose|d: int, x: int|
                #![trigger exclude_dirs[d], p.subrange(x, x + exclude_dirs[d].len())]
                0 <= d < exclude_dirs.len() && 0 <= x && x + exclude_dirs[d].len() <= p.len() && p.subrange(
                    x,
                    x + exclude_dirs[d].len(),
                ) == exclude_dirs[d];
            assert(occurs_at(p, exclude_dirs[d], x));
            assert(seq_contains(p, exclude_dirs[d]));
        }
    }
    assert(is_one_of(n, exclude_files) == !forall|f: int|
        #![trigger exclude_files[f]] 0 <= f < exclude_files.len() ==> exclude_files[f] != n);
    match strip_prefix_spec(p, project_root) {
        Some(rel) => {
            assert(is_one_of(rel, exclude_paths) == !forall|x: int|
                #![trigger exclude_paths[x]] 0 <= x < exclude_paths.len() ==> exclude_paths[x] != rel);
        },
        None => {},
    }
}

/// What a query gives, stated on the texts: every file it gives is an
/// indexed file under the root whose file name ends with one of the
/// requested extensions, in which no excluded directory text occurs, whose
/// name is no excluded file, and whose path relative to the project root
/// (where there is one) is no excluded path; and every indexed file that
/// meets all of this is given.
pub proof fn lemma_query_law(
    files: Seq<Seq<char>>,
    root: Seq<char>,
    extensions: Seq<Seq<char>>,
    exclude_dirs: Seq<Seq<char>>,
    exclude_files: Seq<Seq<char>>,
    exclude_paths: Seq<Seq<char>>,
    project_root: Seq<char>,
)
    ensures
        forall|k: int|
            0 <= k < query_spec(files, root, extensions, exclude_dirs, exclude_files, exclude_paths, project_root).len()
                ==> {
                let p = #[trigger] query_spec(
                    files,
                    root,
                    extensions,
                    exclude_dirs,
                    exclude_files,
                    exclude_paths,
                    project_root,
                )[k];
                let n = match file_name_spec(p) {
                    Some(x) => x,
                    None => Seq::<char>::empty(),
                };
                &&& files.contains(p)
                &&& path_starts_with_spec(p, root)
                &&& exists|e: int|
                    #![trigger extensions[e]]
                    0 <= e < extensions.len() && extensions[e].len() <= n.len() && n.subrange(
                        n.len() - extensions[e].len(),
                        n.len() as int,
                    ) == extensions[e]
                &&& forall|d: int, x: int|
                    #![trigger exclude_dirs[d], p.subrange(x, x + exclude_dirs[d].len())]
                    0 <= d < exclude_dirs.len() && 0 <= x && x + exclude_dirs[d].len() <= p.len()
                        ==> p.subrange(x, x + exclude_dirs[d].len()) != exclude_dirs[d]
                &&& forall|f: int| #![trigger exclude_files[f]] 0 <= f < exclude_files.len() ==> exclude_files[f] != n
                &&& match strip_prefix_spec(p, project_root) {
                    Some(rel) => forall|x: int| #![trigger exclude_paths[x]] 0 <= x < exclude_paths.len() ==> exclude_paths[x] != rel,
                    None => true,
                }
            },
        forall|i: int|
            0 <= i < files.len() && #[trigger] meets(
                files[i],
                root,
                extensions,
                exclude_dirs,
                exclude_files,
                exclude_paths,
                project_root,
            ) ==> query_spec(files, root, extensions, exclude_dirs, exclude_files, exclude_paths, project_root).contains(
                files[i],
            ),
{
    let q = query_spec(files, root, extensions, exclude_dirs, exclude_files, exclude_paths, project_root);
    lemma_query_selects(files, root, extensions, exclude_dirs, exclude_files, exclude_paths, project_root);
    lemma_query_is_filter(files, root, extensions, exclude_dirs, exclude_files, exclude_paths, project_root);
    assert forall|k: int| 0 <= k < q.len() implies meets(
        #[trigger] q[k],
        root,
        extensions,
        exclude_dirs,
        exclude_files,
        exclude_paths,
        project_root,
    ) by {
        lemma_meets_selected(q[k], root, extensions, exclude_dirs, exclude_files, exclude_paths, project_root);
    }
    let pred = |p: Seq<char>| selected(p, root, extensions, exclude_dirs, exclude_files, exclude_paths, project_root);
    assert forall|i: int|
        0 <= i < files.len() && #[trigger] meets(
            files[i],
            root,
            extensions,
            exclude_dirs,
            exclude_files,
            exclude_paths,
            project_root,
        ) implies q.contains(files[i]) by {
        lemma_meets_selected(files[i], root, extensions, exclude_dirs, exclude_files, exclude_paths, project_root);
        files.lemma_filter_contains(pred, i);
    }
}

/// The query is a filter: it gives exactly the indexed files that meet its
/// criteria, in index order.
pub proof fn lemma_query_is_filter(
    files: Seq<Seq<char>>,
    root: Seq<char>,
    extensions: Seq<Seq<char>>,
    exclude_dirs: Seq<Seq<char>>,
    exclude_files: Seq<Seq<char>>,
    exclude_paths: Seq<Seq<char>>,
    project_root: Seq<char>,
)
    ensures
        query_spec(files, root, extensions, exclude_dirs, exclude_files, exclude_paths, project_root)
            == files.filter(
            |p: Seq<char>| selected(p, root, extensions, exclude_dirs, exclude_files, exclude_paths, project_root),
        ),
    decreases files.len(),
{
    reveal(Seq::filter);
    if files.len() > 0 {
        lemma_query_is_filter(files.drop_last(), root, extensions, exclude_dirs, exclude_files, exclude_paths, project_root);
    }
}

/// The query keeps the files that meet its criteria, in index order: each
/// file it gives is an indexed file that meets them, and it gives nothing
/// when no extension is asked for.
pub proof fn lemma_query_selects(
    files: Seq<Seq<char>>,
    root: Seq<char>,
    extensions: Seq<Seq<char>>,
    exclude_dirs: Seq<Seq<char>>,
    exclude_files: Seq<Seq<char>>,
    exclude_paths: Seq<Seq<char>>,
    project_root: Seq<char>,
)
    ensures
        forall|k: int|
            0 <= k < query_spec(files, root, extensions, exclude_dirs, exclude_files, exclude_paths, project_root).len()
                ==> files.contains(
                #[trigger] query_spec(files, root, extensions, exclude_dirs, exclude_files, exclude_paths, project_root)[k],
            ) && selected(
                query_spec(files, root, extensions, exclude_dirs, exclude_files, exclude_paths, project_root)[k],
                root,
                extensions,
                exclude_dirs,
                exclude_files,
                exclude_paths,
                project_root,
            ),
        extensions.len() == 0 ==> query_spec(
            files,
            root,
            extensions,
            exclude_dirs,
            exclude_files,
            exclude_paths,
            project_root,
        ).len() == 0,
    decreases files.len(),
{
    if files.len() > 0 {
        let d = files.drop_last();
        lemma_query_selects(d, root, extensions, exclude_dirs, exclude_files, exclude_paths, project_root);
        let prev = query_spec(d, root, extensions, exclude_dirs, exclude_files, exclude_paths, project_root);
        let now = query_spec(files, root, extensions, exclude_dirs, exclude_files, exclude_paths, project_root);
        assert forall|k: int| 0 <= k < now.len() implies files.contains(#[trigger] now[k]) && selected(
            now[k],
            root,
            extensions,
            exclude_dirs,
            exclude_files,
            exclude_paths,
            project_root,
        ) by {
            if k < prev.len() {
                assert(now[k] == prev[k]);
                assert(d.contains(prev[k]));
                let q = choose|q: int| 0 <= q < d.len() && d[q] == prev[k];
                assert(files[q] == d[q]);
            } else {
                assert(now[k] == files[files.len() - 1]);
            }
        }
    }
}

impl FileIndex {
    /// An index of the given files.
    pub fn from_files(files: Vec<String>) -> (r: Self)
        ensures
            r.files == files,
    {
        Self { files }
    }

    /// Whether some indexed file ends with `ext` (such as `.md`).
    pub fn has_extension(&self, ext: &str) -> (r: bool)
        ensures
            r == exists|i: int| 0 <= i < self.files@.len() && seq_ends_with(#[trigger] self.files@[i]@, ext@),
    {
        let mut i: usize = 0;
        while i < self.files.len()
            invariant
                i <= self.files@.len(),
                forall|j: int| 0 <= j < i ==> !seq_ends_with(#[trigger] self.files@[j]@, ext@),
            decreases self.files@.len() - i,
        {
            if str_ends_with(self.files[i].as_str(), ext) {
                return true;
            }
            i = i + 1;
        }
        false
    }

    /// The indexed files that meet all the criteria, in index order: under
    /// `root` (as a path), containing none of `exclude_dirs`, with a file
    /// name ending in one of `extensions` and not among `exclude_files`, and
    /// (when under `project_root`) with a relative path not among `exclude_paths`.
    pub fn query(
        &self,
        root: &str,
        extensions: &[&str],
        exclude_dirs: &[&str],
        exclude_files: &[&str],
        exclude_paths: &[&str],
        project_root: &str,
    ) -> (r: Vec<String>)
        ensures
            strings_view(r@) == query_spec(
                strings_view(self.files@),
                root@,
                strs_view(extensions@),
                strs_view(exclude_dirs@),
                strs_view(exclude_files@),
                strs_view(exclude_paths@),
                project_root@,
            ),
    {
        let ghost fv = strings_view(self.files@);
        let ghost ext = strs_view(extensions@);
        let ghost ed = strs_view(exclude_dirs@);
        let ghost ef = strs_view(exclude_files@);
        let ghost ep = strs_view(exclude_paths@);
        let mut r: Vec<String> = Vec::new();
        let mut i: usize = 0;
        assert(fv.take(0).len() == 0);
        while i < self.files.len()
            invariant
                i <= self.files@.len(),
                fv == strings_view(self.files@),
                ext == strs_view(extensions@),
                ed == strs_view(exclude_dirs@),
                ef == strs_view(exclude_files@),
                ep == strs_view(exclude_paths@),
                strings_view(r@) == query_spec(fv.take(i as int), root@, ext, ed, ef, ep, project_root@),
            decreases self.files@.len() - i,
        {
            proof {
                assert(fv.take(i + 1).drop_last() == fv.take(i as int));
                assert(fv.take(i + 1).last() == self.files@[i as int]@);
            }
            let path = self.files[i].as_str();
            let mut keep = path_starts_with(path, root);
            if keep && contains_any_exec(path, exclude_dirs) {
                keep = false;
            }
            let name = match path_file_name(path) {
                Some(n) => n,
                None => String::new(),
            };
            if keep && !ends_with_any_exec(name.as_str(), extensions) {
                keep = false;
            }
            if keep && is_one_of_exec(name.as_str(), exclude_files) {
                keep = false;
            }
            if keep {
                match path_strip_prefix(path, project_root) {
                    Some(rel) => {
                        if is_one_of_exec(rel.as_str(), exclude_paths) {
                            keep = false;
                        }
                    },
                    None => {},
                }
            }
            assert(keep == selected(path@, root@, ext, ed, ef, ep, project_root@));
            if keep {
                let ghost old_r = strings_view(r@);
                r.push(self.files[i].clone());
                assert(strings_view(r@) == old_r.push(path@));
            }
            i = i + 1;
        }
        assert(fv.take(self.files@.len() as int) == fv);
        r
    }

    /// The files a scan configuration selects: a query from the scan
    /// directory (under the project root) with the scan's criteria; unless
    /// `recursive`, only the files directly in the scan directory.
    pub fn scan(&self, project_root: &str, scan: &ScanConfig, recursive: bool) -> (r: Vec<String>)
        ensures
            ({
                let root = scan_root_spec(project_root@, scan.scan_dir@);
                let all = query_spec(
                    strings_view(self.files@),
                    root,
                    strings_view(scan.extensions@),
                    strings_view(scan.exclude_dirs@),
                    strings_view(scan.exclude_files@),
                    strings_view(scan.exclude_paths@),
                    project_root@,
                );
                strings_view(r@) == if recursive {
                    all
                } else {
                    directly_in_spec(all, root)
                }
            }),
    {
        let dir = scan.scan_dir();
        let root = if dir.is_empty() {
            String::from_str(project_root)
        } else {
            path_join(project_root, dir)
        };
        let ext_refs = as_strs(scan.extensions());
        let exclude_dir_refs = as_strs(scan.exclude_dirs());
        let exclude_file_refs = as_strs(scan.exclude_files());
        let exclude_path_refs = as_strs(scan.exclude_paths());
        let results = self.query(
            root.as_str(),
            ext_refs.as_slice(),
            exclude_dir_refs.as_slice(),
            exclude_file_refs.as_slice(),
            exclude_path_refs.as_slice(),
            project_root,
        );
        if recursive {
            return results;
        }
        let root_comps = path_components(root.as_str());
        let ghost rv = strings_view(results@);
        let mut kept: Vec<String> = Vec::new();
        let mut i: usize = 0;
        assert(rv.take(0).len() == 0);
        while i < results.len()
            invariant
                i <= results@.len(),
                rv == strings_view(results@),
                strings_view(root_comps@) == path_components_of(root@),
                strings_view(kept@) == directly_in_spec(rv.take(i as int), root@),
            decreases results@.len() - i,
        {
            proof {
                assert(rv.take(i + 1).drop_last() == rv.take(i as int));
                assert(rv.take(i + 1).last() == results@[i as int]@);
            }
            let keep = match path_parent(results[i].as_str()) {
                Some(p) => {
                    let pc = path_components(p.as_str());
                    strings_eq(&pc, &root_comps)
                },
                None => false,
            };
            if keep {
                let ghost old_k = strings_view(kept@);
                kept.push(results[i].clone());
                assert(strings_view(kept@) == old_k.push(results@[i as int]@));
            }
            i = i + 1;
        }
        assert(rv.take(results@.len() as int) == rv);
        kept
    }
}

} // verus!
