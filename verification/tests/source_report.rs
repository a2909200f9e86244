use cargo_tarpaulin::config::types::Ci;
use cargo_tarpaulin::errors::RunError;
use cargo_tarpaulin::source_report::{coveralls_sources, coveralls_token, source_reports, SourceText};
use cargo_tarpaulin::traces::{CoverageStat, LogicState, Trace, TraceMap};
use std::collections::HashSet;

fn trace(line: u64, stats: CoverageStat) -> Trace {
    Trace { line, address: HashSet::new(), length: 1, stats, fn_name: None }
}

fn coverage() -> TraceMap {
    let mut t = TraceMap::new();
    t.add_trace("/p/src/a.rs", trace(1, CoverageStat::Line(2)));
    t.add_trace("/p/src/a.rs", trace(3, CoverageStat::Line(0)));
    t.add_trace("/p/src/b.rs", trace(5, CoverageStat::Branch(LogicState { been_true: true, been_false: false })));
    t
}

#[test]
fn reports_hold_each_file() {
    let cov = coverage();
    let texts = vec![SourceText::Read(String::from("fn a() {}\n")), SourceText::Read(String::from("b\n"))];
    let files = source_reports(&cov, &texts, false, false).unwrap();
    assert_eq!(files.len(), 2);
    assert_eq!(files[0].path, vec!["/", "p", "src", "a.rs"]);
    assert_eq!(files[0].content, "fn a() {}\n");
    assert_eq!(files[0].traces.len(), 2);
    assert_eq!(files[0].covered, 1);
    assert_eq!(files[0].coverable, 2);
    assert_eq!(files[1].path, vec!["/", "p", "src", "b.rs"]);
}

#[test]
fn unreadable_sources_fail_the_report() {
    let cov = coverage();
    let texts = vec![SourceText::Read(String::from("a")), SourceText::Unreadable(String::from("denied"))];
    match source_reports(&cov, &texts, false, true) {
        Err(RunError::Html(m)) => assert_eq!(m, "Unable to read source file to string: denied"),
        _ => panic!("the HTML report fails"),
    }
    let texts = vec![SourceText::Missing(String::from("gone")), SourceText::Read(String::from("b"))];
    assert!(matches!(source_reports(&cov, &texts, false, false), Err(RunError::Json(_))));
    // A file of an earlier run that is gone is passed over.
    let files = source_reports(&cov, &texts, true, true).unwrap();
    assert_eq!(files.len(), 1);
    assert_eq!(files[0].content, "b");
}

#[test]
fn coveralls_sources_hold_line_hits() {
    let cov = coverage();
    let sources = coveralls_sources(&cov, "/p");
    assert_eq!(sources.len(), 1);
    assert_eq!(sources[0].name, "src/a.rs");
    assert_eq!(sources[0].path, "/p/src/a.rs");
    assert_eq!(sources[0].lines.len(), 2);
    assert_eq!(sources[0].lines.get(&1), Some(&2));
    assert_eq!(sources[0].lines.get(&3), Some(&0));
}

#[test]
fn coveralls_tokens() {
    assert_eq!(coveralls_token(&Some(Ci::Travis), "k"), (true, String::new()));
    assert_eq!(coveralls_token(&Some(Ci::Jenkins), "k"), (true, String::from("k")));
    assert_eq!(coveralls_token(&None, "k"), (false, String::from("k")));
}
