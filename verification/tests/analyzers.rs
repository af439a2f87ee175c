use rsb::analyzers::cpp::{CommandOutcome, CppDepAnalyzer};
use rsb::analyzers::markdown::{link_targets, MarkdownDepAnalyzer};
use rsb::config::CppAnalyzerConfig;
use rsb::file_index::FileIndex;
use rsb::graph::Product;

fn s(v: &[&str]) -> Vec<String> {
    v.iter().map(|x| x.to_string()).collect()
}

fn config() -> CppAnalyzerConfig {
    CppAnalyzerConfig {
        cc: "gcc".to_string(),
        cxx: "g++".to_string(),
        cflags: s(&["-O2"]),
        cxxflags: s(&["-std=c++17", "-Wall"]),
        include_paths: s(&["include"]),
        pkg_config: vec![],
        include_path_commands: vec![],
        src_exclude_dirs: s(&["/third_party/"]),
    }
}

fn product(inputs: &[&str]) -> Product {
    Product { id: 0, processor: "cc".to_string(), inputs: s(inputs), outputs: vec![] }
}

#[test]
fn dep_tokens_skip_target_and_source() {
    let out = "main.o: src/main.c include/foo.h \\\n  include/bar.h\n";
    assert_eq!(CppDepAnalyzer::dep_tokens(out), s(&["include/foo.h", "include/bar.h"]));
}

#[test]
fn dep_tokens_without_colon_or_deps() {
    assert!(CppDepAnalyzer::dep_tokens("no rule here").is_empty());
    assert!(CppDepAnalyzer::dep_tokens("main.o:").is_empty());
    assert!(CppDepAnalyzer::dep_tokens("main.o: main.c").is_empty());
    assert!(CppDepAnalyzer::dep_tokens("").is_empty());
}

#[test]
fn resolve_keeps_relative_and_project_headers() {
    let tokens = s(&["inc/a.h", "/usr/include/stdio.h", "/proj/inc/b.h", "/link/c.h", "/gone/d.h"]);
    let canonical = vec![
        None,
        Some("/usr/include/stdio.h".to_string()),
        Some("/proj/inc/b.h".to_string()),
        Some("/proj/real/c.h".to_string()),
        None,
    ];
    let r = CppDepAnalyzer::resolve_dep_tokens(&tokens, "/proj", &canonical);
    assert_eq!(r, s(&["inc/a.h", "inc/b.h", "real/c.h"]));
}

#[test]
fn parse_dep_file_lists_project_headers() {
    let a = CppDepAnalyzer::new(config(), false);
    let out = "main.o: main.c util.h /usr/include/stdio.h\n";
    let canonical = vec![None, Some("/usr/include/stdio.h".to_string())];
    assert_eq!(a.parse_dep_file(out, "/home/p", &canonical), s(&["util.h"]));
}

#[test]
fn pkg_config_paths_strip_flag() {
    let out = "-I/usr/include/glib-2.0 -I/usr/lib/glib-2.0/include -pthread\n";
    assert_eq!(
        CppDepAnalyzer::pkg_config_include_paths(out),
        s(&["/usr/include/glib-2.0", "/usr/lib/glib-2.0/include"])
    );
    assert!(CppDepAnalyzer::pkg_config_include_paths("  \n").is_empty());
}

#[test]
fn pkg_config_command_only_with_packages() {
    let a = CppDepAnalyzer::new(config(), false);
    assert!(a.pkg_config_command().is_none());
    let mut c = config();
    c.pkg_config = s(&["glib-2.0", "gtk+-3.0"]);
    let a = CppDepAnalyzer::new(c, true);
    let cmd = a.pkg_config_command().unwrap();
    assert_eq!(cmd.program, "pkg-config");
    assert_eq!(cmd.args, s(&["--cflags-only-I", "glib-2.0", "gtk+-3.0"]));
}

#[test]
fn include_path_commands_skip_blank_ones() {
    let mut c = config();
    c.include_path_commands = s(&["echo $(gcc -print-file-name=plugin)/include", "   ", "echo /opt/inc"]);
    let a = CppDepAnalyzer::new(c, false);
    let lines = a.include_path_command_lines();
    assert_eq!(lines.len(), 2);
    assert_eq!(lines[0].program, "sh");
    assert_eq!(lines[0].args, s(&["-c", "echo $(gcc -print-file-name=plugin)/include"]));
    assert_eq!(lines[1].args, s(&["-c", "echo /opt/inc"]));
}

#[test]
fn command_output_path_is_trimmed() {
    assert_eq!(
        CppDepAnalyzer::command_output_path("  /usr/lib/gcc/plugin/include\n"),
        Some("/usr/lib/gcc/plugin/include".to_string())
    );
    assert_eq!(CppDepAnalyzer::command_output_path(" \n\t"), None);
}

#[test]
fn scan_command_for_c_and_cpp() {
    let a = CppDepAnalyzer::new(config(), false);
    let c = a.scan_command("src/a.c", false, &s(&["/pkg"]), &s(&["/cmd"]));
    assert_eq!(c.program, "gcc");
    assert_eq!(c.args, s(&["-MM", "-Iinclude", "-I/pkg", "-I/cmd", "-O2", "src/a.c"]));
    let cpp = a.scan_command("src/b.cpp", true, &[], &[]);
    assert_eq!(cpp.program, "g++");
    assert_eq!(cpp.args, s(&["-MM", "-Iinclude", "-std=c++17", "-Wall", "src/b.cpp"]));
}

#[test]
fn cpp_sources_by_extension() {
    assert!(CppDepAnalyzer::is_cpp_source("a.cpp"));
    assert!(CppDepAnalyzer::is_cpp_source("dir/a.cc"));
    assert!(CppDepAnalyzer::is_cpp_source("a.cxx"));
    assert!(!CppDepAnalyzer::is_cpp_source("a.c"));
    assert!(!CppDepAnalyzer::is_cpp_source("Makefile"));
}

#[test]
fn source_to_scan_selects_c_sources() {
    let a = CppDepAnalyzer::new(config(), false);
    assert_eq!(a.source_to_scan(&product(&["src/a.c", "x.h"])), Some("src/a.c".to_string()));
    assert_eq!(a.source_to_scan(&product(&["src/a.cc"])), Some("src/a.cc".to_string()));
    assert_eq!(a.source_to_scan(&product(&["src/a.h"])), None);
    assert_eq!(a.source_to_scan(&product(&["lib/third_party/z.c"])), None);
    assert_eq!(a.source_to_scan(&product(&[])), None);
}

#[test]
fn excluded_paths_contain_a_segment() {
    let a = CppDepAnalyzer::new(config(), false);
    assert!(a.is_excluded("x/third_party/y.c"));
    assert!(!a.is_excluded("third_party/y.c"));
}

#[test]
fn cpp_auto_detect() {
    let a = CppDepAnalyzer::new(config(), false);
    assert!(a.auto_detect(&FileIndex::from_files(s(&["README.md", "src/x.hpp"]))));
    assert!(!a.auto_detect(&FileIndex::from_files(s(&["a.py", "b.md"]))));
    assert_eq!(a.description(), "Scan C/C++ source files for #include dependencies");
}

#[test]
fn markdown_reference_paths() {
    assert_eq!(MarkdownDepAnalyzer::reference_path("img.png"), Some("img.png".to_string()));
    assert_eq!(MarkdownDepAnalyzer::reference_path("  a.png \"Title\" "), Some("a.png".to_string()));
    assert_eq!(MarkdownDepAnalyzer::reference_path("doc.md#section"), Some("doc.md".to_string()));
    assert_eq!(MarkdownDepAnalyzer::reference_path("https://example.com/x.png"), None);
    assert_eq!(MarkdownDepAnalyzer::reference_path("http://example.com"), None);
    assert_eq!(MarkdownDepAnalyzer::reference_path("ftp://host/f"), None);
    assert_eq!(MarkdownDepAnalyzer::reference_path("data:image/png;base64,AAA"), None);
    assert_eq!(MarkdownDepAnalyzer::reference_path("#top"), None);
    assert_eq!(MarkdownDepAnalyzer::reference_path("   "), None);
}

#[test]
fn markdown_reference_candidates() {
    let a = MarkdownDepAnalyzer::new();
    let content = "![a](img/x.png) and [b](doc.md#s)\n[c](img/x.png) [w](http://x.org) [t](<>)";
    let r = a.reference_candidates(content, "docs/readme.md");
    assert_eq!(r, s(&["docs/img/x.png", "docs/doc.md", "docs/<>"]));
    let top = a.reference_candidates("see [here](a.md)", "readme.md");
    assert_eq!(top, s(&["a.md"]));
    assert!(a.reference_candidates("no links here", "readme.md").is_empty());
}

#[test]
fn markdown_source_and_detect() {
    let a = MarkdownDepAnalyzer::new();
    assert_eq!(a.source_to_scan(&product(&["docs/a.md"])), Some("docs/a.md".to_string()));
    assert_eq!(a.source_to_scan(&product(&["docs/a.txt"])), None);
    assert_eq!(a.source_to_scan(&product(&[])), None);
    assert!(a.auto_detect(&FileIndex::from_files(s(&["x/README.md"]))));
    assert!(!a.auto_detect(&FileIndex::from_files(s(&["x/main.c"]))));
}

#[test]
fn link_targets_images_links_and_titles() {
    let text = "See ![logo](img/logo.png) and [guide](docs/guide.md \"Guide\").";
    assert_eq!(link_targets(text), s(&["img/logo.png", "docs/guide.md \"Guide\""]));
}

#[test]
fn link_targets_need_a_nonempty_target_and_closing_bracket() {
    assert!(link_targets("[a]()").is_empty());
    assert!(link_targets("[a](").is_empty());
    assert!(link_targets("[a] (b)").is_empty());
    assert!(link_targets("no links").is_empty());
    assert_eq!(link_targets("[](x)"), s(&["x"]));
}

#[test]
fn link_text_may_hold_an_open_bracket() {
    assert_eq!(link_targets("[a [b](c)"), s(&["c"]));
    assert_eq!(link_targets("!![x](y)"), s(&["y"]));
}

#[test]
fn link_targets_do_not_overlap_and_keep_order() {
    assert_eq!(link_targets("[a](b)[c](d)![e](f)"), s(&["b", "d", "f"]));
    assert_eq!(link_targets("[a](b(c)d)"), s(&["b(c"]));
}

#[test]
fn existing_references_keep_files_in_order() {
    let analyzer = MarkdownDepAnalyzer::new();
    let checked = vec![
        ("docs/a.md".to_string(), true),
        ("docs/missing.md".to_string(), false),
        ("img/b.png".to_string(), true),
    ];
    assert_eq!(analyzer.existing_references(&checked), s(&["docs/a.md", "img/b.png"]));
    assert!(analyzer.existing_references(&[]).is_empty());
}

#[test]
fn pkg_config_dirs_failed_run_gives_none_and_is_kept() {
    let mut c = config();
    c.pkg_config = s(&["gtk+-3.0"]);
    let mut analyzer = CppDepAnalyzer::new(c, false);
    assert!(analyzer.needs_pkg_config_run());
    assert!(analyzer.pkg_config_include_dirs(false, "-I/usr/include/gtk").is_empty());
    assert!(!analyzer.needs_pkg_config_run());
    assert!(analyzer.pkg_config_include_dirs(true, "-I/usr/include/gtk").is_empty());
}

#[test]
fn pkg_config_dirs_worked_out_once() {
    let mut c = config();
    c.pkg_config = s(&["gtk+-3.0"]);
    let mut analyzer = CppDepAnalyzer::new(c, false);
    let first = analyzer.pkg_config_include_dirs(true, "-I/usr/include/gtk -pthread -I/opt/x\n");
    assert_eq!(first, s(&["/usr/include/gtk", "/opt/x"]));
    assert_eq!(analyzer.pkg_config_include_dirs(true, "-I/other"), first);
}

#[test]
fn pkg_config_dirs_without_packages() {
    let mut analyzer = CppDepAnalyzer::new(config(), false);
    assert!(!analyzer.needs_pkg_config_run());
    assert!(analyzer.pkg_config_include_dirs(true, "-I/usr/include").is_empty());
}

fn outcome(succeeded: bool, stdout: &str, names_dir: bool) -> CommandOutcome {
    CommandOutcome { succeeded, stdout: stdout.to_string(), names_dir }
}

#[test]
fn command_dirs_keep_successful_existing_directories() {
    let mut c = config();
    c.include_path_commands = s(&["echo a", "  ", "false", "echo b", "echo", "echo c"]);
    let mut analyzer = CppDepAnalyzer::new(c, false);
    assert!(analyzer.needs_command_runs());
    assert_eq!(analyzer.include_path_command_lines().len(), 5);
    let runs = vec![
        outcome(true, "  /usr/lib/gcc/plugin/include\n", true),
        outcome(false, "", false),
        outcome(true, "/missing\n", false),
        outcome(true, "   \n", false),
        outcome(true, "/opt/inc", true),
    ];
    let dirs = analyzer.command_include_dirs(&runs);
    assert_eq!(dirs, s(&["/usr/lib/gcc/plugin/include", "/opt/inc"]));
    assert!(!analyzer.needs_command_runs());
    assert_eq!(analyzer.command_include_dirs(&[]), dirs);
}

#[test]
fn command_dirs_without_commands() {
    let mut analyzer = CppDepAnalyzer::new(config(), false);
    assert!(!analyzer.needs_command_runs());
    assert!(analyzer.command_include_dirs(&[]).is_empty());
}
