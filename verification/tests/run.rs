use cargo_tarpaulin::config::types::{OutputFile, TraceEngine};
use cargo_tarpaulin::config::Config;
use cargo_tarpaulin::report::{empty_report_outcome, report_steps, ReportStep};
use cargo_tarpaulin::errors::RunError;
use cargo_tarpaulin::report::strip_base_dir;
use cargo_tarpaulin::run::{add_test_result, config_name, flag_lines, report_targets, test_return_code, trace_result};
use cargo_tarpaulin::traces::{CoverageStat, Trace, TraceMap};

fn config() -> Config {
    Config::with_defaults(String::from("Cargo.toml"), TraceEngine::Llvm)
}

#[test]
fn anonymous_configs() {
    let mut c = config();
    assert_eq!(config_name(&c), "<anonymous>");
    c.name = String::from("nightly");
    assert_eq!(config_name(&c), "nightly");
}

#[test]
fn panicking_tests_invert_their_code() {
    assert_eq!(test_return_code(true, 0), 1);
    assert_eq!(test_return_code(true, 101), 0);
    assert_eq!(test_return_code(false, 101), 101);
    assert_eq!(test_return_code(false, 0), 0);
}

#[test]
fn test_results_add_up() {
    let mut result = TraceMap::new();
    let mut code = 0;
    let mut t = TraceMap::new();
    let mut tr = Trace::new_stub(3);
    tr.stats = CoverageStat::Line(2);
    t.add_trace("a.rs", tr);
    add_test_result(&mut result, &mut code, Some((t, 0)), true);
    assert_eq!(code, 1);
    assert_eq!(result.total_covered(), 1);
    add_test_result(&mut result, &mut code, None, false);
    assert_eq!(code, 1);
    let mut t2 = TraceMap::new();
    t2.add_file("b.rs");
    add_test_result(&mut result, &mut code, Some((t2, 4)), false);
    assert_eq!(code, 5);
    assert!(result.contains_file("b.rs"));
}

#[test]
fn which_configs_report() {
    let mut a = config();
    a.name = String::from("a");
    let mut r = config();
    r.name = String::from("report");
    assert_eq!(report_targets(&vec![a.clone(), r.clone()]), vec![1]);
    assert_eq!(report_targets(&vec![a.clone()]), vec![0]);
    let mut skip = a.clone();
    skip.no_run = true;
    assert!(report_targets(&vec![skip]).is_empty());
    assert!(report_targets(&vec![]).is_empty());
}

#[test]
fn reporting_steps() {
    let c = config();
    assert_eq!(report_steps(&c), vec![ReportStep::PrintMissingLines, ReportStep::PrintSummary]);
    let mut c = config();
    c.generate = vec![OutputFile::Lcov, OutputFile::Stdout];
    c.output_directory = Some(String::from("out"));
    c.coveralls = Some(String::from("key"));
    assert_eq!(
        report_steps(&c),
        vec![
            ReportStep::SendCoveralls,
            ReportStep::CreateOutputDir,
            ReportStep::Export(OutputFile::Lcov),
            ReportStep::PrintMissingLines,
            ReportStep::PrintSummary,
        ]
    );
    c.verbose = true;
    assert_eq!(
        report_steps(&c),
        vec![
            ReportStep::SendCoveralls,
            ReportStep::CreateOutputDir,
            ReportStep::PrintMissingLines,
            ReportStep::Export(OutputFile::Lcov),
            ReportStep::PrintSummary,
        ]
    );
}

#[test]
fn nothing_to_report() {
    assert!(empty_report_outcome(false, false).is_none());
    assert!(matches!(empty_report_outcome(true, true), Some(Ok(()))));
    match empty_report_outcome(true, false) {
        Some(Err(e)) => assert_eq!(e.message(), "Failed to report coverage! Error: No coverage results collected."),
        _ => panic!("an empty run that ran tests is an error"),
    }
}

#[test]
fn how_a_run_ends() {
    assert!(trace_result(0, None, None).is_ok());
    assert!(matches!(trace_result(1, None, None), Err(RunError::TestFailed)));
    assert!(matches!(trace_result(0, Some(RunError::Internal), None), Err(RunError::Internal)));
    assert!(matches!(trace_result(1, Some(RunError::Internal), None), Err(RunError::TestFailed)));
    assert!(matches!(
        trace_result(1, Some(RunError::Internal), Some(RunError::Cargo(String::from("t")))),
        Err(RunError::Cargo(_))
    ));
}

#[test]
fn get_rel_path_coveralls_friendly_on_linux() {
    let config = config();
    let root = config.root(None);
    let file = "src/report/coveralls.rs";
    let rel_path = strip_base_dir(file, root.as_str());

    assert_eq!(rel_path, "src/report/coveralls.rs");
    assert_eq!(strip_base_dir("/project/src/lib.rs", "/project"), "src/lib.rs");
}

#[test]
fn flags_are_shown_once_per_value() {
    let configs = vec![
        (String::from("a"), String::from("-C x")),
        (String::from("report"), String::from("-C r")),
        (String::from("b"), String::from("-C x")),
        (String::from("c"), String::from("-C y")),
    ];
    assert_eq!(
        flag_lines(&configs, "RUSTFLAGS", "-C d"),
        vec![String::from("RUSTFLAGS=\"-C x\""), String::from("RUSTFLAGS=\"-C y\"")]
    );
    let only_report = vec![(String::from("report"), String::from("-C r"))];
    assert_eq!(flag_lines(&only_report, "RUSTDOCFLAGS", "-C d"), vec![String::from("RUSTDOCFLAGS=-C d")]);
    assert_eq!(flag_lines(&Vec::new(), "RUSTFLAGS", ""), vec![String::from("RUSTFLAGS=")]);
}
