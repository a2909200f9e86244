use cargo_tarpaulin::config::types::TraceEngine;
use cargo_tarpaulin::config::Config;
use cargo_tarpaulin::line_traces::{line_traces, unit_traces, LineEntry};
use cargo_tarpaulin::source_files::SourceAnalysis;
use cargo_tarpaulin::traces::{CoverageStat, TraceMap};

fn row(path: &str, line: u64, address: Option<u64>, fn_name: Option<&str>) -> LineEntry {
    LineEntry { path: path.to_string(), line, address, fn_name: fn_name.map(|s| s.to_string()) }
}

fn config() -> Config {
    Config::with_defaults(String::from("/p/Cargo.toml"), TraceEngine::Ptrace)
}

fn traces_of<'a>(m: &'a TraceMap, file: &str) -> Vec<(u64, Vec<u64>, usize, Option<String>)> {
    m.get_child_traces(file)
        .into_iter()
        .map(|t| {
            let mut a: Vec<u64> = t.address.iter().cloned().collect();
            a.sort();
            (t.line, a, t.length, t.fn_name.clone())
        })
        .collect()
}

#[test]
fn rows_of_a_location_make_one_trace() {
    let rows = vec![
        row("/p/src/lib.rs", 3, Some(0x10), None),
        row("/p/src/lib.rs", 3, Some(0x10), Some("dropped_by_dedup")),
        row("/p/src/lib.rs", 3, Some(0x18), Some("f")),
        row("/p/src/lib.rs", 5, None, None),
    ];
    let m = unit_traces(&rows, "/p", "/p", &config(), &SourceAnalysis::new());
    let ts = traces_of(&m, "/p/src/lib.rs");
    assert_eq!(ts.len(), 2);
    assert_eq!(ts[0], (3, vec![0x10, 0x18], 1, Some("f".to_string())));
    assert_eq!(ts[1], (5, vec![], 1, None));
    for t in m.all_traces() {
        assert_eq!(t.stats, CoverageStat::Line(0));
    }
}

#[test]
fn tests_excluded_and_ignored_locations_are_dropped() {
    let mut c = config();
    c.ignore_tests = true;
    c.excluded_files_raw = vec!["src/gen*".to_string()];
    let mut analysis = SourceAnalysis::new();
    let i = analysis.get_line_analysis("/p/src/lib.rs", 0);
    analysis.lines[i].analysis.ignore_span(7, 7);
    let rows = vec![
        row("/p/tests/t.rs", 1, Some(1), None),
        row("/p/src/gen.rs", 1, Some(2), None),
        row("/p/src/lib.rs", 7, Some(3), None),
        row("/p/src/lib.rs", 8, Some(4), None),
    ];
    let m = unit_traces(&rows, "/p", "/p", &c, &analysis);
    assert_eq!(m.all_traces().len(), 1);
    assert!(m.contains_location("/p/src/lib.rs", 8));
    c.ignore_tests = false;
    let m2 = unit_traces(&rows, "/p", "/p", &c, &analysis);
    assert!(m2.contains_location("/p/tests/t.rs", 1));
}

#[test]
fn counted_lines_without_rows_get_traces() {
    let mut analysis = SourceAnalysis::new();
    let i = analysis.get_line_analysis("/p/src/lib.rs", 0);
    analysis.lines[i].analysis.cover.insert(2);
    analysis.lines[i].analysis.cover.insert(4);
    let units = vec![vec![row("/p/src/lib.rs", 4, Some(9), None)], vec![row("/p/src/main.rs", 1, Some(5), None)]];
    let m = line_traces(&units, "/p", "/p", &config(), &analysis);
    let ts = traces_of(&m, "/p/src/lib.rs");
    assert_eq!(ts, vec![(2, vec![], 0, None), (4, vec![9], 1, None)]);
    assert!(m.contains_location("/p/src/main.rs", 1));
    assert_eq!(m.all_traces().len(), 3);
}
