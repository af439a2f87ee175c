use rsb::config::{ScanConfig, TechCheckConfig};
use rsb::tech_check::backticked::{
    find_backticked_terms, find_non_tech_backticked_positions, looks_like_term_reference, split_backticked,
};
use rsb::tech_check::edits::apply_edits;
use rsb::tech_check::fix::{fix_content, sorted_terms};
use rsb::tech_check::spans::{backtick_span_ranges, fenced_code_ranges, inside_ranges};
use rsb::tech_check::terms::{find_case_insensitive, find_term_occurrences, is_word_boundary};
use rsb::tech_check::unquoted::{find_unquoted_positions, find_unquoted_terms};
use rsb::tech_check::{is_term_file, load_terms_from, terms_dir_error, terms_in, terms_of_files, TechCheckProcessor};

fn chars(s: &str) -> Vec<char> {
    s.chars().collect()
}

fn s(v: &[&str]) -> Vec<String> {
    v.iter().map(|x| x.to_string()).collect()
}

fn processor() -> TechCheckProcessor {
    TechCheckProcessor::new(TechCheckConfig {
        tech_files_dir: "tech".to_string(),
        scan: ScanConfig {
            scan_dir: String::new(),
            extensions: s(&[".md"]),
            exclude_dirs: vec![],
            exclude_files: vec![],
            exclude_paths: vec![],
        },
        extra_inputs: vec![],
        auto_inputs: vec![],
        batch: false,
    })
}

#[test]
fn unquoted_terms_skip_code() {
    let content = "Use Docker and docker compose.\nAlso `Docker` here.\n```\nDocker\n```\nDocker again\n";
    let found = find_unquoted_terms(content, &["Docker"]);
    assert_eq!(
        found,
        vec![(1, "Docker".to_string()), (1, "Docker".to_string()), (6, "Docker".to_string())]
    );
}

#[test]
fn unquoted_terms_longest_first_and_word_boundaries() {
    let content = "Android Studio runs on Android, not Androids or my_Android.";
    let found = find_unquoted_terms(content, &["Android Studio", "Android"]);
    assert_eq!(
        found,
        vec![(1, "Android Studio".to_string()), (1, "Android".to_string()), (1, "Android".to_string())]
    );
}

#[test]
fn unquoted_positions_are_non_overlapping() {
    let content = "Android Studio and Android";
    let found = find_unquoted_positions(content, &["Android Studio", "Android"]);
    assert_eq!(
        found,
        vec![(0, 14, "Android Studio".to_string()), (19, 26, "Android".to_string())]
    );
}

#[test]
fn fenced_and_backtick_ranges() {
    let text = chars("a `b` c\n```rust\ncode `x`\n```\nend `y`");
    let fenced = fenced_code_ranges(&text);
    assert_eq!(fenced, vec![(8, 29)]);
    let spans = backtick_span_ranges(&text, &fenced);
    assert_eq!(spans, vec![(2, 5), (33, 36)]);
    assert!(inside_ranges(3, 4, &spans));
    assert!(!inside_ranges(1, 4, &spans));
}

#[test]
fn unclosed_fence_runs_to_the_end() {
    let text = chars("x\n```\nno close");
    assert_eq!(fenced_code_ranges(&text), vec![(2, 14)]);
}

#[test]
fn empty_backticks_are_no_span() {
    let text = chars("`` and `a\nb`");
    assert!(backtick_span_ranges(&text, &[]).is_empty());
}

#[test]
fn term_search_is_case_insensitive_with_boundaries() {
    let text = chars("rust RUST trusty Rust_x Rust.");
    assert_eq!(find_case_insensitive(&text, &chars("rust"), 1), Some(5));
    assert_eq!(find_case_insensitive(&text, &chars("zzz"), 0), None);
    assert_eq!(find_term_occurrences(&text, &chars("rust")), vec![(0, 4), (5, 9), (17, 21), (24, 28)]);
    assert!(is_word_boundary(&text, 4));
    assert!(!is_word_boundary(&text, 0));
    assert!(is_word_boundary(&text, 100));
    assert!(is_word_boundary(&chars("a_b"), 1));
    assert!(is_word_boundary(&chars("ab"), 2));
    assert!(!is_word_boundary(&chars("a1"), 1));
}

#[test]
fn split_and_recognise_backticked_terms() {
    assert_eq!(split_backticked("sed, awk and grep or cut"), s(&["sed", "awk", "grep", "cut"]));
    assert_eq!(split_backticked(" , "), Vec::<String>::new());
    assert!(looks_like_term_reference("sed, awk"));
    assert!(!looks_like_term_reference("foo()"));
    assert!(!looks_like_term_reference("two words"));
    assert!(!looks_like_term_reference(""));
}

#[test]
fn backticked_terms_each_once() {
    let content = "Use `sed, awk` and `sed` but not `x = 1`.\n```\n`grep`\n```\n";
    assert_eq!(find_backticked_terms(content), s(&["sed", "awk"]));
}

#[test]
fn non_tech_backticked_positions() {
    let content = "`CI`/`CD` and `Docker`";
    let terms = s(&["docker"]);
    assert_eq!(find_non_tech_backticked_positions(content, &terms), vec![(0, 4), (5, 9)]);
}

#[test]
fn edits_apply_right_to_left_and_drop_overlaps() {
    let mut edits = vec![(0, 3, "X".to_string()), (4, 7, "Y".to_string()), (2, 5, "Z".to_string())];
    let r = apply_edits("abcdefgh", &mut edits);
    assert_eq!(r, "XdYh");
    let mut none: Vec<(usize, usize, String)> = vec![];
    assert_eq!(apply_edits("same", &mut none), "same");
}

#[test]
fn sorted_terms_longest_first() {
    let terms = s(&["Go", "Android", "Android Studio", "Rust"]);
    assert_eq!(sorted_terms(&terms), vec!["Android Studio", "Android", "Rust", "Go"]);
}

#[test]
fn fix_content_quotes_and_unquotes() {
    let terms = s(&["Docker"]);
    let sorted = sorted_terms(&terms);
    let fixed = fix_content("Run Docker with `CI`/`CD`.", &terms, &sorted);
    assert_eq!(fixed, "Run `Docker` with CI/CD.");
    let same = fix_content("Already `Docker`.", &terms, &sorted);
    assert_eq!(same, "Already `Docker`.");
}

#[test]
fn check_files_reports_all_failures() {
    let p = processor();
    let terms = s(&["Docker", "Rust"]);
    let files = vec![("a.md".to_string(), "Use Docker.\nSee `Kubernetes`.\n".to_string())];
    let err = p.check_files(&terms, &files).unwrap_err();
    assert_eq!(
        err,
        "Tech check failures:\n\
         a.md:1: tech term `Docker` is not backtick-quoted\n\
         a.md: `Kubernetes` is backtick-quoted but not in tech term list\n\
         tech term `Docker` is in tech but never backtick-quoted in any file\n\
         tech term `Rust` is in tech but never backtick-quoted in any file"
    );
}

#[test]
fn check_files_passes_clean_files() {
    let p = processor();
    let terms = s(&["Docker"]);
    let files = vec![("a.md".to_string(), "Use `docker`.\n".to_string())];
    assert!(p.check_files(&terms, &files).is_ok());
    assert!(p.check_files(&[], &files).is_ok());
}

#[test]
fn tech_check_applies_with_terms_and_markdown() {
    let p = processor();
    let index = rsb::file_index::FileIndex::from_files(s(&["/p/README.md", "/p/src/a.py"]));
    assert!(p.auto_detect(true, &index, "/p"));
    assert!(!p.auto_detect(false, &index, "/p"));
    let no_md = rsb::file_index::FileIndex::from_files(s(&["/p/src/a.py"]));
    assert!(!p.auto_detect(true, &no_md, "/p"));
    assert_eq!(p.description(), "Check that technical terms are backtick-quoted in markdown files");
}

#[test]
fn term_files_list_one_term_per_line() {
    assert_eq!(terms_in("Docker\n  Android Studio  \n\n\t\nRust\r\n"), s(&["Docker", "Android Studio", "Rust"]));
    assert!(terms_in("").is_empty());
    assert!(terms_in("\n \n").is_empty());
}

#[test]
fn term_files_are_txt_files() {
    assert!(is_term_file("terms/tools.txt"));
    assert!(is_term_file("/abs/dir/names.txt"));
    assert!(!is_term_file("terms/readme.md"));
    assert!(!is_term_file("terms/txt"));
    assert!(!is_term_file("terms/notes.TXT"));
    assert!(!is_term_file("terms/archive.txt.bak"));
}

#[test]
fn terms_of_files_union_each_once() {
    let texts = vec![
        "Rust\n  Cargo  \n\nRust\n".to_string(),
        "Cargo\nGitHub\n".to_string(),
        "".to_string(),
    ];
    assert_eq!(
        terms_of_files(&texts),
        vec!["Rust".to_string(), "Cargo".to_string(), "GitHub".to_string()]
    );
    assert!(terms_of_files(&[]).is_empty());
}

#[test]
fn terms_dir_error_names_the_directory() {
    assert_eq!(
        terms_dir_error("docs/terms"),
        "tech_files_dir `docs/terms` does not exist or is not a directory"
    );
}

#[test]
fn load_terms_from_reads_term_files_only() {
    let files = vec![
        ("terms/a.txt".to_string(), "Rust\n Cargo \n".to_string()),
        ("terms/notes.md".to_string(), "Ignored\n".to_string()),
        ("terms/b.txt".to_string(), "Cargo\nGitHub\n".to_string()),
    ];
    assert_eq!(
        load_terms_from("terms", true, &files),
        Ok(vec!["Rust".to_string(), "Cargo".to_string(), "GitHub".to_string()])
    );
    assert_eq!(
        load_terms_from("missing", false, &files),
        Err("tech_files_dir `missing` does not exist or is not a directory".to_string())
    );
}
