use cargo_tarpaulin::ptrace_decisions::{exited_outcome, ExitDecision, ProcessInfo};
use cargo_tarpaulin::statemachine::TracerAction;

#[test]
fn test_exit_with_nothing_left_ends() {
    let o = exited_outcome(10, 10, 3, Some(10), 1, true, None);
    assert_eq!(o.decision, ExitDecision::GoEnd(3));
    assert_eq!(o.removed, Some(10));
    assert!(!o.merge_traces);
    assert_eq!(o.threads_gone_from, Some(10));
    assert_eq!(o.keep_exit_code, None);
}

#[test]
fn test_exit_without_follow_exec_ends() {
    let o = exited_outcome(10, 10, 0, Some(10), 3, false, None);
    assert_eq!(o.decision, ExitDecision::GoEnd(0));
}

#[test]
fn test_exit_with_spawned_processes_waits() {
    let o = exited_outcome(10, 10, 2, Some(10), 2, true, None);
    assert_eq!(o.decision, ExitDecision::KeepWaiting(TracerAction::Nothing));
    assert_eq!(o.keep_exit_code, Some(2));
}

#[test]
fn last_child_after_test_ends_at_once() {
    let o = exited_outcome(10, 20, 9, Some(20), 1, true, Some(2));
    assert_eq!(o.decision, ExitDecision::EndNow(2));
    assert_eq!(o.removed, Some(20));
    assert!(o.merge_traces);
}

#[test]
fn thread_exit_resumes_test() {
    let o = exited_outcome(10, 21, 0, Some(20), 2, true, None);
    assert_eq!(
        o.decision,
        ExitDecision::KeepWaiting(TracerAction::TryContinue(ProcessInfo { pid: 10, signal: None }))
    );
    assert_eq!(o.removed, None);
    assert!(!o.merge_traces);
    assert_eq!(o.threads_gone_from, Some(20));
    let unknown = exited_outcome(10, 30, 0, None, 0, true, Some(1));
    assert_eq!(unknown.decision, ExitDecision::EndNow(1));
    assert_eq!(unknown.threads_gone_from, None);
}
