use cargo_tarpaulin::analysis::Lines;
use cargo_tarpaulin::attributes::{AttrSyntax, CfgContext, MetaItem};
use cargo_tarpaulin::config::types::RunType;
use cargo_tarpaulin::source_files::{excluded_module, skipped_file, text_starts_with, SourceAnalysis};

fn cfg_test_attr(line: usize) -> AttrSyntax {
    AttrSyntax {
        meta: MetaItem::List(vec!["cfg".to_string()], Some(vec![MetaItem::Path(vec!["test".to_string()])])),
        start_line: line,
        end_line: line,
    }
}

fn ctx(include_tests: bool) -> CfgContext {
    CfgContext { include_tests, avoid_cfg_tarpaulin: false, features: vec![] }
}

#[test]
fn entries_are_made_once_per_path() {
    let mut s = SourceAnalysis::new();
    let a = s.get_line_analysis("src/lib.rs", 20);
    let b = s.get_line_analysis("src/main.rs", 5);
    let c = s.get_line_analysis("src//lib.rs", 99);
    assert_eq!(a, c);
    assert_ne!(a, b);
    assert_eq!(s.lines.len(), 2);
    assert_eq!(s.lines[a].analysis.max_line, 20);
    assert_eq!(s.find("src//main.rs"), Some(b));
    assert_eq!(s.find("src/other.rs"), None);
}

#[test]
fn queries_go_by_file() {
    let mut s = SourceAnalysis::new();
    let i = s.get_line_analysis("src/lib.rs", 10);
    s.lines[i].analysis.ignore_span(3, 4);
    s.lines[i].analysis.logical_lines.insert(7, 6);
    assert!(s.should_ignore("src/lib.rs", 3));
    assert!(!s.should_ignore("src/lib.rs", 5));
    assert!(s.should_ignore("src/lib.rs", 11));
    assert!(!s.should_ignore("src/other.rs", 3));
    assert_eq!(s.normalise("src/lib.rs", 7), 6);
    assert_eq!(s.normalise("src/lib.rs", 8), 8);
    assert_eq!(s.normalise("src/other.rs", 7), 7);
}

#[test]
fn ignored_files_ignore_every_line() {
    let mut s = SourceAnalysis::new();
    let i = s.get_line_analysis("src/lib.rs", 10);
    s.lines[i].analysis.ignore_span(3, 4);
    s.ignore_file("src/lib.rs");
    s.ignore_file("src/new.rs");
    assert_eq!(s.lines.len(), 2);
    assert_eq!(s.lines[i].analysis.ignore, vec![Lines::All]);
    assert_eq!(s.lines[i].analysis.max_line, 0);
    for l in [1usize, 50, 1000] {
        assert!(s.should_ignore("src/lib.rs", l));
        assert!(s.should_ignore("src/new.rs", l));
    }
}

#[test]
fn tests_and_examples_folders_are_skipped() {
    let tests_only = vec![RunType::Tests];
    let with_examples = vec![RunType::Tests, RunType::Examples];
    assert!(skipped_file("/p/tests/a.rs", "/p", false, &tests_only));
    assert!(!skipped_file("/p/tests/a.rs", "/p", true, &tests_only));
    assert!(!skipped_file("/p/testsuite/a.rs", "/p", false, &tests_only));
    assert!(skipped_file("/p/examples/e.rs", "/p", true, &tests_only));
    assert!(!skipped_file("/p/examples/e.rs", "/p", true, &with_examples));
    assert!(!skipped_file("/p/src/lib.rs", "/p", false, &tests_only));
}

#[test]
fn module_roots_take_their_folder() {
    assert_eq!(excluded_module("proj/src/lib.rs"), Some("proj/src".to_string()));
    assert_eq!(excluded_module("proj/src/net/mod.rs"), Some("proj/src/net".to_string()));
    assert_eq!(excluded_module("/usr.rs"), Some("/usr".to_string()));
    assert_eq!(excluded_module("/usr.rs.rs"), Some("/usr".to_string()));
    assert_eq!(excluded_module("/no_such_folder_here.rs"), None);
    assert_eq!(excluded_module("/"), None);
}

#[test]
fn excluded_modules_take_their_files() {
    let mut s = SourceAnalysis::new();
    let a = s.get_line_analysis("proj/src/net/a.rs", 10);
    let b = s.get_line_analysis("proj/src/main.rs", 10);
    s.lines[a].analysis.ignore_span(2, 2);
    s.lines[b].analysis.ignore_span(2, 2);
    s.exclude_module("proj/src/net");
    assert_eq!(s.lines[a].analysis.ignore, vec![Lines::All]);
    assert_eq!(s.lines[b].analysis.ignore, vec![Lines::Line(2)]);
    assert!(s.is_ignored_module("proj/src/net/b.rs"));
    assert!(!s.is_ignored_module("proj/src/network.rs"));
    assert!(!s.begin_file("proj/src/net/c.rs", "proj", true, &vec![RunType::Tests]));
    assert!(s.should_ignore("proj/src/net/c.rs", 1));
    assert!(s.begin_file("proj/src/other.rs", "proj", true, &vec![RunType::Tests]));
    assert_eq!(s.find("proj/src/other.rs"), None);
}

#[test]
fn first_line_ignored_unless_an_item() {
    let mut s = SourceAnalysis::new();
    s.ignore_first_line("a.rs", Some("use std::io;"));
    assert!(s.should_ignore("a.rs", 1));
    assert!(!s.should_ignore("a.rs", 2));
    s.ignore_first_line("b.rs", Some("pub fn b() {}"));
    s.ignore_first_line("c.rs", Some("fn c() {}"));
    s.ignore_first_line("d.rs", None);
    assert!(!s.should_ignore("b.rs", 1));
    assert_eq!(s.lines.len(), 1);
    assert!(text_starts_with("pub mod x;", "pub"));
    assert!(!text_starts_with("pu", "pub"));
}

#[test]
fn kept_files_ignore_lines_with_nothing_to_cover() {
    let mut s = SourceAnalysis::new();
    let contents = "fn main() {\n    // a comment\n    let x = 1;\n}\n";
    assert!(s.check_file("src/main.rs", 4, &vec![], &ctx(false), contents));
    assert!(!s.should_ignore("src/main.rs", 1));
    assert!(s.should_ignore("src/main.rs", 2));
    assert!(!s.should_ignore("src/main.rs", 3));
    assert!(s.should_ignore("src/main.rs", 4));
}

#[test]
fn test_only_files_are_rejected() {
    let mut s = SourceAnalysis::new();
    let contents = "#![cfg(test)]\nfn t() {}\n";
    assert!(!s.check_file("proj/src/lib.rs", 2, &vec![cfg_test_attr(1)], &ctx(false), contents));
    assert!(s.should_ignore("proj/src/lib.rs", 1));
    assert!(!s.should_ignore("proj/src/lib.rs", 2));
    assert!(s.check_file("proj/src/t.rs", 2, &vec![cfg_test_attr(1)], &ctx(true), contents));
    s.reject_file("proj/src/lib.rs", 2, 1, 2);
    assert_eq!(s.ignored_modules, vec!["proj/src".to_string()]);
    assert!(s.should_ignore("proj/src/lib.rs", 2));
    assert!(s.should_ignore("proj/src/t.rs", 2));
}

#[test]
fn ignored_files_are_taken_once() {
    let mut s = SourceAnalysis::new();
    let mut ignored = vec!["m/a.rs".to_string(), "m/b.rs".to_string()];
    assert!(s.take_ignored(&mut ignored, "m//a.rs"));
    assert_eq!(ignored, vec!["m/b.rs".to_string()]);
    assert!(!s.take_ignored(&mut ignored, "m/c.rs"));
    assert_eq!(ignored.len(), 1);
    assert!(s.should_ignore("m/a.rs/", 3));
    assert!(!s.should_ignore("m/b.rs", 3));
    s.ignore_remaining(&ignored);
    assert!(s.should_ignore("m/b.rs", 3));
    assert_eq!(s.lines.len(), 2);
}
