use cargo_tarpaulin::report::{summary_rows, coverage_report_name, line_groups, missing_lines_report, sort_strings, strip_base_dir};
use cargo_tarpaulin::traces::{CoverageStat, Trace, TraceMap};

#[test]
fn coverage_report_name_no_package() {
    let packages: Vec<String> = vec![];

    let name_report = coverage_report_name(&packages, Some("cargo-tarpaulin"));
    assert_eq!(
        name_report, "cargo-tarpaulin-coverage.json",
        "Suffix should have been added and name should be in title"
    );
}

#[test]
fn coverage_report_name_1_package() {
    let packages = vec![String::from("bintest")];

    let name_report = coverage_report_name(&packages, Some("cargo-tarpaulin"));
    assert_eq!(name_report, "cargo-tarpaulin-bintest-coverage.json", "Suffix should have been added, name should be in title, and also package should be present");
}

#[test]
fn coverage_report_name_3_packages() {
    let packages = vec![
        String::from("pizza"),
        String::from("bintest"),
        String::from("fur"),
    ];

    let name_report = coverage_report_name(&packages, Some("cargo-tarpaulin"));
    assert_eq!(name_report, "cargo-tarpaulin-bintest-fur-pizza-coverage.json", "Suffix should have been added, name should be in title, and also packages should be present");
}

#[test]
fn coverage_report_name_3_packages_diff() {
    let packages = vec![
        String::from("pizza"),
        String::from("fur"),
        String::from("bintest"),
    ];

    let name_report = coverage_report_name(&packages, Some("cargo-tarpaulin"));
    assert_eq!(name_report, "cargo-tarpaulin-bintest-fur-pizza-coverage.json", "Suffix should have been added, name should be in title, and also packages should be present in alphabetical order");
}

#[test]
fn report_name_without_root_package() {
    assert_eq!(coverage_report_name(&vec![String::from("a")], None), "coverage.json");
}

#[test]
fn strings_are_sorted() {
    let v = vec![String::from("b"), String::from("a"), String::from("ab"), String::from("a")];
    assert_eq!(sort_strings(&v), vec!["a", "a", "ab", "b"]);
}

#[test]
fn runs_of_lines() {
    assert_eq!(line_groups(&vec![1, 2, 3, 5, 7, 8]), vec!["1-3", "5", "7-8"]);
    assert_eq!(line_groups(&vec![4]), vec!["4"]);
    assert!(line_groups(&vec![]).is_empty());
}

fn trace(line: u64, hits: u64) -> Trace {
    let mut t = Trace::new_stub(line);
    t.stats = CoverageStat::Line(hits);
    t
}

#[test]
fn uncovered_lines_report() {
    let mut t = TraceMap::new();
    t.add_trace("/p/src/a.rs", trace(1, 0));
    t.add_trace("/p/src/a.rs", trace(2, 0));
    t.add_trace("/p/src/a.rs", trace(3, 1));
    t.add_trace("/p/src/a.rs", trace(4, 0));
    t.add_trace("/p/src/b.rs", trace(1, 2));
    let report = missing_lines_report(&t, "/p");
    assert_eq!(report, vec!["|| Uncovered Lines:", "|| src/a.rs: 1-2, 4"]);
    assert_eq!(strip_base_dir("/q/x.rs", "/p"), "../q/x.rs");
    assert_eq!(strip_base_dir("x.rs", "/p"), "x.rs");
}

#[test]
fn summary_of_a_run() {
    let mut now = TraceMap::new();
    now.add_trace("/p/src/a.rs", trace(1, 1));
    now.add_trace("/p/src/a.rs", trace(2, 0));
    now.add_file("/p/src/empty.rs");
    now.add_trace("/p/src/b.rs", trace(1, 0));
    let mut last = TraceMap::new();
    last.add_trace("/p/src/a.rs", trace(1, 0));
    let rows = summary_rows(&now, &last, "/p");
    assert_eq!(rows.len(), 2);
    assert_eq!(rows[0].path, "src/a.rs");
    assert_eq!((rows[0].covered, rows[0].coverable, rows[0].has_previous), (1, 2, true));
    assert_eq!(rows[1].path, "src/b.rs");
    assert_eq!((rows[1].covered, rows[1].coverable, rows[1].has_previous), (0, 1, false));
}
