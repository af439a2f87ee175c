use rsb::config::ScanConfig;
use rsb::file_index::FileIndex;

fn s(v: &[&str]) -> Vec<String> {
    v.iter().map(|x| x.to_string()).collect()
}

fn index() -> FileIndex {
    FileIndex::from_files(s(&[
        "/p/README.md",
        "/p/docs/guide.md",
        "/p/docs/skip.md",
        "/p/docs/sub/deep.md",
        "/p/.git/x.md",
        "/p/src/main.py",
        "/p/vendor/lib.md",
    ]))
}

fn scan(dir: &str) -> ScanConfig {
    ScanConfig {
        scan_dir: dir.to_string(),
        extensions: s(&[".md"]),
        exclude_dirs: s(&["/.git/"]),
        exclude_files: s(&["skip.md"]),
        exclude_paths: s(&["vendor/lib.md"]),
    }
}

#[test]
fn query_applies_every_criterion() {
    let r = index().query("/p", &[".md"], &["/.git/"], &["skip.md"], &["vendor/lib.md"], "/p");
    assert_eq!(r, s(&["/p/README.md", "/p/docs/guide.md", "/p/docs/sub/deep.md"]));
}

#[test]
fn query_under_a_subdirectory() {
    let r = index().query("/p/docs", &[".md"], &[], &[], &[], "/p");
    assert_eq!(r, s(&["/p/docs/guide.md", "/p/docs/skip.md", "/p/docs/sub/deep.md"]));
}

#[test]
fn scan_recursive_and_flat() {
    let idx = index();
    assert_eq!(
        idx.scan("/p", &scan(""), true),
        s(&["/p/README.md", "/p/docs/guide.md", "/p/docs/sub/deep.md"])
    );
    assert_eq!(idx.scan("/p", &scan("docs"), false), s(&["/p/docs/guide.md"]));
    assert_eq!(idx.scan("/p", &scan(""), false), s(&["/p/README.md"]));
}

#[test]
fn has_extension_by_suffix() {
    assert!(index().has_extension(".py"));
    assert!(!index().has_extension(".rs"));
}

#[test]
fn query_without_extensions_selects_nothing() {
    assert!(index().query("/p", &[], &[], &[], &[], "/p").is_empty());
}
