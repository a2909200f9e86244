use cargo_tarpaulin::lcov::{write_lcov, FileFunctions, FunctionSpan};
use cargo_tarpaulin::traces::{CoverageStat, LogicState, Trace, TraceMap};

fn trace(line: u64, hits: u64) -> Trace {
    let mut t = Trace::new_stub(line);
    t.stats = CoverageStat::Line(hits);
    t
}

#[test]
fn lcov_records_of_files() {
    let mut t = TraceMap::new();
    t.add_trace("src/lib.rs", trace(2, 3));
    t.add_trace("src/lib.rs", trace(3, 0));
    t.add_trace("src/lib.rs", trace(10, 1));
    t.add_file("src/empty.rs");
    let functions = vec![FileFunctions {
        path: String::from("src/lib.rs"),
        functions: vec![
            FunctionSpan { name: String::from("second"), start: 10, end: 12 },
            FunctionSpan { name: String::from("first"), start: 2, end: 5 },
        ],
    }];
    let lines = write_lcov(&t, &functions).unwrap();
    assert_eq!(
        lines,
        vec![
            "TN:",
            "SF:src/lib.rs",
            "FN:2,first",
            "FN:10,second",
            "FNF:2",
            "FNDA:3,first",
            "FNDA:1,second",
            "DA:2,3",
            "DA:3,0",
            "DA:10,1",
            "LF:3",
            "LH:2",
            "end_of_record",
        ]
    );
}

#[test]
fn lcov_without_functions() {
    let mut t = TraceMap::new();
    t.add_trace("a.rs", trace(1, 0));
    let lines = write_lcov(&t, &vec![]).unwrap();
    assert_eq!(lines, vec!["TN:", "SF:a.rs", "FNF:0", "DA:1,0", "LF:1", "LH:0", "end_of_record"]);
}

#[test]
fn lcov_fails_on_a_function_without_hits() {
    let mut t = TraceMap::new();
    let mut b = Trace::new_stub(4);
    b.stats = CoverageStat::Branch(LogicState { been_true: true, been_false: false });
    t.add_trace("a.rs", b);
    let functions = vec![FileFunctions {
        path: String::from("a.rs"),
        functions: vec![FunctionSpan { name: String::from("f"), start: 4, end: 6 }],
    }];
    let err = write_lcov(&t, &functions).unwrap_err();
    assert_eq!(err.message(), "Failed to generate Lcov report! Error: Function doesn't have hits number");
}

/// One record of an lcov tracefile, as far as the checks below need it.
enum Record {
    SourceFile { path: String },
    EndOfRecord,
    FunctionName { name: String, start_line: u64 },
    LineData { line: u64, count: u64 },
    LinesFound { found: u64 },
    LinesHit { hit: u64 },
    Other,
}

fn parse_record(line: &str) -> Record {
    if let Some(p) = line.strip_prefix("SF:") {
        Record::SourceFile { path: p.to_string() }
    } else if line == "end_of_record" {
        Record::EndOfRecord
    } else if let Some(f) = line.strip_prefix("FN:") {
        let (start, name) = f.split_once(',').unwrap();
        Record::FunctionName { name: name.to_string(), start_line: start.parse().unwrap() }
    } else if let Some(d) = line.strip_prefix("DA:") {
        let (l, c) = d.split_once(',').unwrap();
        Record::LineData { line: l.parse().unwrap(), count: c.parse().unwrap() }
    } else if let Some(f) = line.strip_prefix("LF:") {
        Record::LinesFound { found: f.parse().unwrap() }
    } else if let Some(h) = line.strip_prefix("LH:") {
        Record::LinesHit { hit: h.parse().unwrap() }
    } else {
        Record::Other
    }
}

#[test]
fn generate_valid_lcov() {
    let mut traces = TraceMap::new();
    traces.add_trace("foo.rs", trace(4, 1));
    traces.add_trace("foo.rs", trace(5, 0));
    traces.add_trace("bar.rs", trace(14, 9));

    let functions = vec![FileFunctions {
        path: String::from("bar.rs"),
        functions: vec![FunctionSpan { name: "baz".to_string(), start: 14, end: 20 }],
    }];

    let data = write_lcov(&traces, &functions).unwrap();

    let mut items = 0;
    let mut files_seen = 0;

    let mut current_source = String::new();
    for item in &data {
        match parse_record(item) {
            Record::SourceFile { path } => {
                current_source = path.clone();
                // We know files are presented sorted
                if files_seen == 0 {
                    assert_eq!(path, "bar.rs");
                } else if files_seen == 1 {
                    assert_eq!(path, "foo.rs");
                } else {
                    panic!("Too many files");
                }

                files_seen += 1;
            }
            Record::EndOfRecord => {
                current_source = String::new();
            }
            Record::FunctionName { name, start_line } => {
                assert_eq!(name, "baz");
                assert_eq!(start_line, 14);
            }
            Record::LineData { line, count } => {
                if current_source == "bar.rs" {
                    assert_eq!(line, 14);
                    assert_eq!(count, 9);
                } else if current_source == "foo.rs" {
                    assert!((line == 4 && count == 1) || (line == 5 && count == 0));
                } else {
                    panic!("Line data not attached to file");
                }
            }
            Record::LinesFound { found } => {
                if current_source == "bar.rs" {
                    assert_eq!(found, 1);
                } else if current_source == "foo.rs" {
                    assert_eq!(found, 2);
                } else {
                    panic!("Lines found not attached to file");
                }
            }
            Record::LinesHit { hit } => {
                if current_source == "bar.rs" {
                    assert_eq!(hit, 1);
                } else if current_source == "foo.rs" {
                    assert_eq!(hit, 1);
                } else {
                    panic!("Lines found not attached to file");
                }
            }
            Record::Other => {}
        }

        items += 1;
    }
    assert!(items > 0);
}
