use cargo_tarpaulin::analysis::LineAnalysis;
use cargo_tarpaulin::errors::RunError;
use cargo_tarpaulin::instrumented::{add_report_traces, run_exit_state, RegionHits};
use cargo_tarpaulin::ptrace_decisions::{
    combine_outcomes, must_resume_test, select_actions, stopped_outcome, Outcome, ProcessInfo,
    StopSignal,
};
use cargo_tarpaulin::statemachine::{TestState, TracerAction};
use cargo_tarpaulin::traces::{CoverageStat, Trace, TraceMap};

#[test]
fn report_regions_become_traces() {
    let mut traces = TraceMap::new();
    let mut analysis = LineAnalysis::new();
    analysis.add_to_ignore(&vec![2]);
    analysis.cover.insert(5);
    analysis.cover.insert(1);
    let regions = vec![RegionHits { line_start: 1, line_end: 2, hits: 3 }];
    add_report_traces(&mut traces, "src/lib.rs", &regions, Some(&analysis));
    let all = traces.all_traces();
    let lines: Vec<u64> = all.iter().map(|t| t.line).collect();
    assert_eq!(lines, vec![1, 5]);
    assert_eq!(all[0].stats, CoverageStat::Line(3));
    assert_eq!(all[1].stats, CoverageStat::Line(0));
}

#[test]
fn report_regions_without_analysis() {
    let mut traces = TraceMap::new();
    let regions = vec![
        RegionHits { line_start: 4, line_end: 5, hits: 1 },
        RegionHits { line_start: 2, line_end: 2, hits: 0 },
    ];
    add_report_traces(&mut traces, "a.rs", &regions, None);
    let lines: Vec<u64> = traces.all_traces().iter().map(|t| t.line).collect();
    assert_eq!(lines, vec![2, 4, 5]);
    assert_eq!(traces.covered_in_path("a.rs"), 2);
}

#[test]
fn stops_by_signals() {
    match stopped_outcome(7, StopSignal::Stop, false) {
        Outcome::Wait(a) => assert_eq!(a, TracerAction::Continue(ProcessInfo { pid: 7, signal: None })),
        _ => panic!("a stopped child is resumed"),
    }
    match stopped_outcome(7, StopSignal::Other(10), true) {
        Outcome::Wait(a) => assert_eq!(a, TracerAction::TryContinue(ProcessInfo { pid: 7, signal: Some(10) })),
        _ => panic!("other signals resume the process"),
    }
    match stopped_outcome(7, StopSignal::Other(10), false) {
        Outcome::Wait(a) => assert_eq!(a, TracerAction::TryContinue(ProcessInfo { pid: 7, signal: None })),
        _ => panic!("other signals resume the process"),
    }
    match stopped_outcome(7, StopSignal::IllegalInstruction, false) {
        Outcome::Fail(e) => assert_eq!(e.message(), "Failed to run tests: Error running test - SIGILL raised in 7"),
        _ => panic!("an illegal instruction fails the run"),
    }
    match stopped_outcome(7, StopSignal::SegmentationFault, false) {
        Outcome::Fail(e) => assert_eq!(e.message(), "Failed to run tests: A segfault occurred while executing tests"),
        _ => panic!("a segfault fails the run"),
    }
}

#[test]
fn one_action_per_process() {
    let p = |pid: i32| ProcessInfo { pid, signal: None };
    let actions = vec![
        TracerAction::Nothing,
        TracerAction::Continue(p(1)),
        TracerAction::Step(p(1)),
        TracerAction::Detach(p(2)),
        TracerAction::TryContinue(p(2)),
    ];
    let chosen = select_actions(&actions);
    assert_eq!(chosen, vec![TracerAction::Continue(p(1)), TracerAction::Detach(p(2))]);
    assert!(!must_resume_test(&chosen, false));
    assert!(must_resume_test(&select_actions(&vec![TracerAction::Nothing]), false));
    assert!(!must_resume_test(&vec![], true));
}

#[test]
fn last_decisive_outcome_wins() {
    let p = ProcessInfo { pid: 3, signal: None };
    let outs = vec![
        Outcome::Wait(TracerAction::Continue(p)),
        Outcome::Go(TestState::End(0), TracerAction::Nothing),
        Outcome::Wait(TracerAction::Step(p)),
    ];
    let (last, acts) = combine_outcomes(&outs);
    assert_eq!(last, Some(1));
    assert_eq!(acts.len(), 3);
    let (last, acts) = combine_outcomes(&vec![Outcome::Wait(TracerAction::Nothing)]);
    assert_eq!(last, None);
    assert_eq!(acts, vec![TracerAction::Nothing]);
}

#[test]
fn report_hits_reach_existing_traces() {
    let mut traces = TraceMap::new();
    traces.add_trace("a.rs", Trace::new_stub(3));
    traces.add_trace("a.rs", Trace::new_stub(3));
    traces.add_trace("a.rs", Trace::new_stub(5));
    traces.add_trace("b.rs", Trace::new_stub(1));
    let report = vec![
        ("a.rs".to_string(), vec![(3u64, 7u64), (3, 9)]),
        ("missing.rs".to_string(), vec![(1, 4)]),
    ];
    cargo_tarpaulin::instrumented::apply_line_report(&mut traces, &report);
    let a = traces.get_child_traces("a.rs");
    assert_eq!(a.len(), 2);
    assert_eq!(a[0].line, 3);
    assert_eq!(a[0].stats, CoverageStat::Line(7));
    assert_eq!(a[1].stats, CoverageStat::Line(0));
    assert_eq!(traces.get_child_traces("b.rs")[0].stats, CoverageStat::Line(0));
    assert!(!traces.contains_file("missing.rs"));
}

#[test]
fn llvm_run_exit_decides_state() {
    assert!(matches!(run_exit_state(false, false, Some(101)), Err(RunError::TestFailed)));
    assert!(matches!(run_exit_state(false, true, Some(101)), Ok(TestState::End(101))));
    assert!(matches!(run_exit_state(true, false, None), Ok(TestState::End(1))));
    assert!(matches!(run_exit_state(true, false, Some(0)), Ok(TestState::End(0))));
}
