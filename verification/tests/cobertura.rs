use cargo_tarpaulin::cobertura::{render_report, CoberturaReport};
use cargo_tarpaulin::config::types::TraceEngine;
use cargo_tarpaulin::config::Config;
use cargo_tarpaulin::traces::{Trace, TraceMap};
use std::collections::HashSet;

/// The line rate the report shows: the covered lines over the coverable
/// ones, where there is any package.
fn line_rate(report: &CoberturaReport) -> f64 {
    if report.packages.is_empty() {
        0.0
    } else {
        report.lines_covered as f64 / report.lines_valid as f64
    }
}

#[test]
fn package_coverage() {
    let config = Config::with_defaults(String::from("fake/Cargo.toml"), TraceEngine::Ptrace);
    let base = config.root(None);
    let mut map = TraceMap::new();

    map.add_file("fake/examples/foo.rs");

    let empty_trace = Trace::new_stub(2);
    let mut address = HashSet::new();
    address.insert(2);
    let hit_trace = Trace::new(3, address, 1, None);

    let source_file = "fake/src/lib.rs";

    map.add_trace(source_file, empty_trace);
    map.add_trace(source_file, hit_trace);

    let report = render_report(&map, &base);
    assert_eq!(report.lines_covered, 0);
    assert_eq!(report.lines_valid, 2);
    assert_eq!(line_rate(&report), 0.0);
    assert_eq!(report.packages.len(), 2);
    assert_eq!(report.sources.len(), 1);

    map.increment_hit(2);

    let report = render_report(&map, &base);
    assert_eq!(report.lines_covered, 1);
    assert_eq!(report.lines_valid, 2);
    assert_eq!(line_rate(&report), 0.5);
    assert_eq!(report.packages.len(), 2);
    assert_eq!(report.sources.len(), 1);
}

#[test]
fn packages_hold_their_files() {
    let mut map = TraceMap::new();
    let mut a = HashSet::new();
    a.insert(10);
    map.add_trace("/p/src/lib.rs", Trace::new(4, a, 1, None));
    map.add_trace("/p/src/lib.rs", Trace::new_stub(7));
    map.add_trace("/p/src/util/mod.rs", Trace::new_stub(1));
    map.add_file("/p/src/empty.rs");
    map.increment_hit(10);
    let report = render_report(&map, "/p");
    assert_eq!(report.sources, vec![String::from("/p")]);
    assert_eq!(report.packages.len(), 2);
    let src = &report.packages[0];
    assert_eq!(src.name, "src");
    assert_eq!((src.covered, src.coverable), (1, 3));
    assert_eq!(src.classes.len(), 1);
    let lib = &src.classes[0];
    assert_eq!(lib.name, "lib");
    assert_eq!(lib.file_name, "src/lib.rs");
    assert_eq!((lib.covered, lib.coverable), (1, 2));
    let lines: Vec<(usize, usize)> = lib.lines.iter().map(|l| (l.number, l.hits)).collect();
    assert_eq!(lines, vec![(4, 1), (7, 0)]);
    assert_eq!(report.packages[1].name, "src/util");
    assert_eq!(report.packages[1].classes[0].name, "mod");
}
