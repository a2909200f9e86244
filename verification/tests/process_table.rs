use cargo_tarpaulin::errors::RunError;
use cargo_tarpaulin::process_table::{EventOutcome, ProcessTable, PtraceEvent};
use cargo_tarpaulin::ptrace_decisions::ProcessInfo;
use cargo_tarpaulin::statemachine::TracerAction;

fn info(pid: i32) -> ProcessInfo {
    ProcessInfo { pid, signal: None }
}

fn action(o: EventOutcome) -> TracerAction<ProcessInfo> {
    match o {
        EventOutcome::Act(a) => a,
        _ => panic!("an action was expected"),
    }
}

#[test]
fn threads_join_their_process_and_leave_it() {
    let mut t = ProcessTable::new();
    t.add_process(100, true);
    assert_eq!(t.get_parent(100, None), Some(100));
    let a = t.handle_ptrace_event(100, true, PtraceEvent::Clone, Some(101), None, false, false);
    assert_eq!(action(a), TracerAction::Continue(info(100)));
    assert_eq!(t.get_parent(101, None), Some(100));
    assert_eq!(t.parent_is_test(101, None), Some(true));
    let a = t.handle_ptrace_event(101, true, PtraceEvent::Exit, None, None, false, false);
    assert_eq!(action(a), TracerAction::TryContinue(info(101)));
    assert_eq!(t.get_parent(101, None), None);
    // The process itself stays recorded when it exits.
    let a = t.handle_ptrace_event(100, true, PtraceEvent::Exit, None, None, false, false);
    assert_eq!(action(a), TracerAction::TryContinue(info(100)));
    assert_eq!(t.get_parent(100, None), Some(100));
}

#[test]
fn forks_are_recorded_where_their_data_is_known() {
    let mut t = ProcessTable::new();
    t.add_process(5, false);
    let a = t.handle_ptrace_event(5, true, PtraceEvent::Fork, None, None, false, false);
    assert_eq!(action(a), TracerAction::Continue(info(5)));
    assert_eq!(t.get_parent(6, None), None);
    t.handle_ptrace_event(5, true, PtraceEvent::Fork, Some(6), None, false, false);
    assert_eq!(t.get_parent(6, None), Some(5));
    assert_eq!(t.parent_is_test(6, None), Some(false));
    // A thread the table does not know is looked up among the system's tasks.
    assert_eq!(t.get_parent(7, Some(5)), Some(5));
    assert_eq!(t.parent_is_test(7, Some(9)), None);
}

#[test]
fn execs_are_followed_or_let_go() {
    let mut t = ProcessTable::new();
    t.add_process(1, true);
    match t.handle_ptrace_event(1, true, PtraceEvent::Exec, None, None, true, false) {
        EventOutcome::FollowExec { pid, continue_parent } => {
            assert_eq!(pid, 1);
            assert_eq!(continue_parent, None);
        }
        _ => panic!("an exec is followed"),
    }
    let a = t.handle_ptrace_event(1, true, PtraceEvent::Exec, None, None, false, false);
    assert_eq!(action(a), TracerAction::Detach(info(1)));
    match t.handle_ptrace_event(1, true, PtraceEvent::VFork, Some(2), None, true, true) {
        EventOutcome::FollowExec { pid, continue_parent } => {
            assert_eq!(pid, 2);
            assert_eq!(continue_parent, Some(1));
        }
        _ => panic!("a vfork is followed"),
    }
    let a = t.handle_ptrace_event(1, true, PtraceEvent::VFork, Some(2), None, false, true);
    assert_eq!(action(a), TracerAction::Continue(info(1)));
}

#[test]
fn unexpected_events_fail() {
    let mut t = ProcessTable::new();
    t.add_process(1, true);
    match t.handle_ptrace_event(1, true, PtraceEvent::Other(42), None, None, false, false) {
        EventOutcome::Fail(RunError::TestRuntime(m)) => assert_eq!(m, "Unrecognised ptrace event 42"),
        _ => panic!("an unknown event fails"),
    }
    match t.handle_ptrace_event(1, false, PtraceEvent::Clone, Some(2), None, false, false) {
        EventOutcome::Fail(RunError::TestRuntime(m)) => assert_eq!(m, "Unexpected signal"),
        _ => panic!("an event without a trap fails"),
    }
    match t.handle_ptrace_event(1, true, PtraceEvent::Clone, None, None, false, false) {
        EventOutcome::Fail(RunError::TestRuntime(m)) => {
            assert_eq!(m, "Error occurred upon test executable thread creation")
        }
        _ => panic!("a clone without data fails"),
    }
    assert_eq!(t.get_parent(2, None), None);
}
