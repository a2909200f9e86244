//! The decisions of the ptrace state machine when a traced process stops:
//! what each stop leads to, which of the resulting actions are carried out,
//! and which state the machine goes to.
use vstd::prelude::*;
use crate::errors::{RunError, RunErrorView};
use crate::statemachine::{TestState, TracerAction};

verus! {

/// A traced process, and the signal to hand on to it when it is resumed.
#[derive(Debug, Copy, Clone, PartialEq, Eq, Structural)]
pub struct ProcessInfo {
    pub pid: i32,
    pub signal: Option<i32>,
}

/// The signals a stop of a traced process is told apart by.
#[derive(Debug, Copy, Clone, PartialEq, Eq, Structural)]
pub enum StopSignal {
    /// A breakpoint was hit
    Trap,
    Stop,
    SegmentationFault,
    IllegalInstruction,
    Child,
    /// Any other signal, by its number
    Other(i32),
}

/// What handling one stop of a traced process gives.
pub enum Outcome {
    /// Keep waiting, after the action.
    Wait(TracerAction<ProcessInfo>),
    /// Go to the state, after the action.
    Go(TestState, TracerAction<ProcessInfo>),
    /// Handling the stop failed.
    Fail(RunError),
}

/// The message of a segmentation fault.
pub open spec fn segfault_message() -> Seq<char> {
    "A segfault occurred while executing tests"@
}

/// What a stop by a signal other than a breakpoint trap leads to: a stopped
/// or signalled child is resumed, a segmentation fault or an illegal
/// instruction fails the run, and any other signal resumes the process if it
/// can be, handing the signal on where signals are forwarded.
pub open spec fn stopped_spec(pid: i32, sig: StopSignal, forward_signals: bool) -> Option<TracerAction<ProcessInfo>> {
    match sig {
        StopSignal::Stop => Some(TracerAction::Continue(ProcessInfo { pid, signal: None })),
        StopSignal::Child => Some(TracerAction::Continue(ProcessInfo { pid, signal: None })),
        StopSignal::Other(n) => Some(TracerAction::TryContinue(ProcessInfo {
            pid,
            signal: if forward_signals { Some(n) } else { None },
        })),
        _ => None,
    }
}

/// Handles a stop of process `pid` by a signal other than a breakpoint trap.
pub fn stopped_outcome(pid: i32, sig: StopSignal, forward_signals: bool) -> (res: Outcome)
    requires
        sig != StopSignal::Trap,
    ensures
        match stopped_spec(pid, sig, forward_signals) {
            Some(a) => res matches Outcome::Wait(b) && b == a,
            None => res matches Outcome::Fail(e) && (
                (sig == StopSignal::SegmentationFault && e@ == RunErrorView::TestRuntime(segfault_message()))
                || (sig == StopSignal::IllegalInstruction && e@ is TestRuntime)),
        },
{
    match sig {
        StopSignal::Stop => Outcome::Wait(TracerAction::Continue(ProcessInfo { pid, signal: None })),
        StopSignal::Child => Outcome::Wait(TracerAction::Continue(ProcessInfo { pid, signal: None })),
        StopSignal::SegmentationFault => Outcome::Fail(RunError::TestRuntime(
            String::from_str("A segfault occurred while executing tests"),
        )),
        StopSignal::IllegalInstruction => {
            let mut m = String::from_str("Error running test - SIGILL raised in ");
            m.append(crate::text::i32_text(pid).as_str());
            Outcome::Fail(RunError::TestRuntime(m))
        },
        StopSignal::Other(n) => {
            let signal = if forward_signals { Some(n) } else { None };
            Outcome::Wait(TracerAction::TryContinue(ProcessInfo { pid, signal }))
        },
        StopSignal::Trap => Outcome::Wait(TracerAction::Nothing),
    }
}

/// The number of the trap signal.
pub const SIGTRAP: i32 = 5;

/// The number of the kill signal.
pub const SIGKILL: i32 = 9;

/// The number of the termination signal.
pub const SIGTERM: i32 = 15;

/// The number of the child-status signal.
pub const SIGCHLD: i32 = 17;

/// The message of a stop by a signal the machine does not expect.
pub open spec fn unexpected_stop_message() -> Seq<char> {
    "Unexpected stop"@
}

/// What a process `pid` that was signalled by `sig` does next, where
/// `parent_is_test` tells, where the process has a recorded parent, whether
/// that parent is the test itself, and `flag` whether the trap is one the
/// tracer caused: a process of a program the test launched is resumed with
/// the signal handed on; otherwise a killed process is detached, a trap of
/// the tracer's own or a child's status change resumes the process, a
/// termination resumes it with the signal handed on, and any other signal
/// is not expected.
pub open spec fn signaled_spec(pid: i32, sig: i32, parent_is_test: Option<bool>, flag: bool) -> Option<
    TracerAction<ProcessInfo>,
> {
    if parent_is_test == Some(false) {
        Some(TracerAction::TryContinue(ProcessInfo { pid, signal: Some(sig) }))
    } else if sig == SIGKILL {
        Some(TracerAction::Detach(ProcessInfo { pid, signal: None }))
    } else if sig == SIGTRAP && flag {
        Some(TracerAction::Continue(ProcessInfo { pid, signal: None }))
    } else if sig == SIGCHLD {
        Some(TracerAction::Continue(ProcessInfo { pid, signal: None }))
    } else if sig == SIGTERM {
        Some(TracerAction::TryContinue(ProcessInfo { pid, signal: Some(SIGTERM) }))
    } else {
        None
    }
}

/// Handles process `pid` being signalled by `sig`: the action to take, or
/// the error of a stop that is not expected.
pub fn signaled_outcome(pid: i32, sig: i32, parent_is_test: Option<bool>, flag: bool) -> (res: Result<
    TracerAction<ProcessInfo>,
    RunError,
>)
    ensures
        match signaled_spec(pid, sig, parent_is_test, flag) {
            Some(a) => res == Ok::<TracerAction<ProcessInfo>, RunError>(a),
            None => res matches Err(e) && e@ == RunErrorView::StateMachine(unexpected_stop_message()),
        },
{
    if parent_is_test == Some(false) {
        return Ok(TracerAction::TryContinue(ProcessInfo { pid, signal: Some(sig) }));
    }
    if sig == SIGKILL {
        Ok(TracerAction::Detach(ProcessInfo { pid, signal: None }))
    } else if sig == SIGTRAP && flag {
        Ok(TracerAction::Continue(ProcessInfo { pid, signal: None }))
    } else if sig == SIGCHLD {
        Ok(TracerAction::Continue(ProcessInfo { pid, signal: None }))
    } else if sig == SIGTERM {
        Ok(TracerAction::TryContinue(ProcessInfo { pid, signal: Some(SIGTERM) }))
    } else {
        proof {
            reveal_strlit("Unexpected stop");
        }
        Err(RunError::StateMachine(String::from_str("Unexpected stop")))
    }
}

/// The process an action is for, if any.
pub open spec fn action_pid(a: TracerAction<ProcessInfo>) -> Option<i32> {
    match a {
        TracerAction::TryContinue(d) => Some(d.pid),
        TracerAction::Continue(d) => Some(d.pid),
        TracerAction::Step(d) => Some(d.pid),
        TracerAction::Detach(d) => Some(d.pid),
        TracerAction::Nothing => None,
    }
}

/// The actions carried out, in order: of the actions for one process only
/// the first, and none that does nothing; with whether any was carried out.
pub open spec fn select_spec(actions: Seq<TracerAction<ProcessInfo>>) -> (Seq<TracerAction<ProcessInfo>>, Set<i32>)
    decreases actions.len(),
{
    if actions.len() == 0 {
        (Seq::<TracerAction<ProcessInfo>>::empty(), Set::<i32>::empty())
    } else {
        let (done, pids) = select_spec(actions.drop_last());
        let a = actions.last();
        match action_pid(a) {
            Some(p) => if pids.contains(p) { (done, pids) } else { (done.push(a), pids.insert(p)) },
            None => (done, pids),
        }
    }
}

fn copy_action(a: &TracerAction<ProcessInfo>) -> (res: TracerAction<ProcessInfo>)
    ensures
        res == *a,
{
    match a {
        TracerAction::TryContinue(d) => TracerAction::TryContinue(*d),
        TracerAction::Continue(d) => TracerAction::Continue(*d),
        TracerAction::Step(d) => TracerAction::Step(*d),
        TracerAction::Detach(d) => TracerAction::Detach(*d),
        TracerAction::Nothing => TracerAction::Nothing,
    }
}

fn contains_pid(v: &Vec<i32>, p: i32) -> (res: bool)
    ensures
        res == v@.contains(p),
{
    let mut i: usize = 0;
    while i < v.len()
        invariant
            i <= v.len(),
            forall|k: int| 0 <= k < i ==> v@[k] != p,
        decreases v.len() - i,
    {
        if v[i] == p {
            return true;
        }
        i = i + 1;
    }
    false
}

/// The actions to carry out, in order, of those the stops asked for: the
/// first for each process, none that does nothing.
pub fn select_actions(actions: &Vec<TracerAction<ProcessInfo>>) -> (res: Vec<TracerAction<ProcessInfo>>)
    ensures
        res@ == select_spec(actions@).0,
{
    let mut out: Vec<TracerAction<ProcessInfo>> = Vec::new();
    let mut seen: Vec<i32> = Vec::new();
    let mut i: usize = 0;
    assert(actions@.take(0) =~= Seq::<TracerAction<ProcessInfo>>::empty());
    while i < actions.len()
        invariant
            i <= actions.len(),
            out@ == select_spec(actions@.take(i as int)).0,
            seen@.to_set() == select_spec(actions@.take(i as int)).1,
        decreases actions.len() - i,
    {
        assert(actions@.take(i + 1).drop_last() =~= actions@.take(i as int));
        assert(actions@.take(i + 1).last() == actions@[i as int]);
        let a = copy_action(&actions[i]);
        let pid = match a {
            TracerAction::TryContinue(d) => Some(d.pid),
            TracerAction::Continue(d) => Some(d.pid),
            TracerAction::Step(d) => Some(d.pid),
            TracerAction::Detach(d) => Some(d.pid),
            TracerAction::Nothing => None,
        };
        match pid {
            Some(p) => {
                if !contains_pid(&seen, p) {
                    let ghost o = seen@;
                    seen.push(p);
                    proof {
                        Seq::lemma_to_set_insert_commutes(o, p);
                        assert(o + seq![p] =~= o.push(p));
                    }
                    out.push(a);
                }
            },
            None => {},
        }
        i = i + 1;
    }
    assert(actions@.take(actions.len() as int) =~= actions@);
    out
}

/// Whether the stops asked for no action that resumes a process.
pub open spec fn nothing_continued(actions: Seq<TracerAction<ProcessInfo>>) -> bool {
    select_spec(actions).0.len() == 0
}

/// Whether the test itself must be resumed after the actions: none resumed
/// anything and the test's exit code is not known yet.
pub fn must_resume_test(selected: &Vec<TracerAction<ProcessInfo>>, exit_code_known: bool) -> (res: bool)
    ensures
        res == (selected@.len() == 0 && !exit_code_known),
{
    selected.len() == 0 && !exit_code_known
}

/// The state the machine goes to after the stops: waiting unless a stop led
/// elsewhere or failed, the last such stop deciding; with the actions the
/// stops asked for, in order.
pub open spec fn combine_spec(outs: Seq<Outcome>) -> (Option<int>, Seq<TracerAction<ProcessInfo>>)
    decreases outs.len(),
{
    if outs.len() == 0 {
        (None, Seq::<TracerAction<ProcessInfo>>::empty())
    } else {
        let (last, acts) = combine_spec(outs.drop_last());
        match outs.last() {
            Outcome::Wait(a) => (last, acts.push(a)),
            Outcome::Go(_, a) => (Some(outs.len() - 1), acts.push(a)),
            Outcome::Fail(_) => (Some(outs.len() - 1), acts),
        }
    }
}

/// Gathers the outcomes of the stops: the index of the outcome that decides
/// the next state (`None` to keep waiting) and the actions asked for, in order.
pub fn combine_outcomes(outs: &Vec<Outcome>) -> (res: (Option<usize>, Vec<TracerAction<ProcessInfo>>))
    ensures
        (match res.0 {
            Some(i) => Some(i as int),
            None => None,
        }, res.1@) == combine_spec(outs@),
{
    let mut last: Option<usize> = None;
    let mut acts: Vec<TracerAction<ProcessInfo>> = Vec::new();
    let mut i: usize = 0;
    assert(outs@.take(0) =~= Seq::<Outcome>::empty());
    while i < outs.len()
        invariant
            i <= outs.len(),
            (match last {
                Some(k) => Some(k as int),
                None => None,
            }, acts@) == combine_spec(outs@.take(i as int)),
        decreases outs.len() - i,
    {
        assert(outs@.take(i + 1).drop_last() =~= outs@.take(i as int));
        assert(outs@.take(i + 1).last() == outs@[i as int]);
        match &outs[i] {
            Outcome::Wait(a) => {
                acts.push(copy_action(a));
            },
            Outcome::Go(_, a) => {
                last = Some(i);
                acts.push(copy_action(a));
            },
            Outcome::Fail(_) => {
                last = Some(i);
            },
        }
        i = i + 1;
    }
    assert(outs@.take(outs.len() as int) =~= outs@);
    (last, acts)
}

/// Of the actions carried out, no two are for the same process, and none
/// does nothing.
pub proof fn lemma_selected_distinct(actions: Seq<TracerAction<ProcessInfo>>)
    ensures
        forall|i: int, j: int| 0 <= i < j < select_spec(actions).0.len()
            ==> action_pid(#[trigger] select_spec(actions).0[i]) != action_pid(#[trigger] select_spec(actions).0[j]),
        forall|i: int| 0 <= i < select_spec(actions).0.len() ==> (#[trigger] select_spec(actions).0[i]) !is Nothing,
        forall|i: int| 0 <= i < select_spec(actions).0.len()
            ==> select_spec(actions).1.contains(action_pid(#[trigger] select_spec(actions).0[i])->0),
    decreases actions.len(),
{
    if actions.len() > 0 {
        lemma_selected_distinct(actions.drop_last());
        let (done, pids) = select_spec(actions.drop_last());
        let a = actions.last();
        match action_pid(a) {
            Some(p) => {
                if !pids.contains(p) {
                    let n = done.push(a);
                    assert forall|i: int, j: int| 0 <= i < j < n.len() implies action_pid(#[trigger] n[i]) != action_pid(#[trigger] n[j]) by {
                        if j == done.len() {
                            assert(pids.contains(action_pid(done[i])->0));
                        } else {
                            assert(n[i] == done[i] && n[j] == done[j]);
                        }
                    }
                    assert forall|i: int| 0 <= i < n.len() implies (#[trigger] n[i]) !is Nothing by {
                        if i < done.len() {
                            assert(n[i] == done[i]);
                        }
                    }
                    assert forall|i: int| 0 <= i < n.len() implies pids.insert(p).contains(action_pid(#[trigger] n[i])->0) by {
                        if i < done.len() {
                            assert(n[i] == done[i]);
                        }
                    }
                }
            },
            None => {},
        }
    }
}


/// Where the exit of a traced thread leads.
#[derive(Debug, Clone, PartialEq, Eq)]
pub enum ExitDecision {
    /// The test ended with this code: go to `End`, with no action
    GoEnd(i32),
    /// Keep waiting, after the action
    KeepWaiting(TracerAction<ProcessInfo>),
    /// End with this code at once, leaving the rest of the stops unhandled
    EndNow(i32),
}

/// What the exit of a traced thread does to what the tracer keeps, and
/// where it leads.
#[derive(Debug, Clone, PartialEq, Eq)]
pub struct ExitOutcome {
    /// The traced process whose breakpoints forget the thread
    pub threads_gone_from: Option<i32>,
    /// The traced process that is no longer followed
    pub removed: Option<i32>,
    /// Whether the traces of the removed process join the test's
    pub merge_traces: bool,
    /// The test's exit code to keep while spawned processes still run
    pub keep_exit_code: Option<i32>,
    /// Where the exit leads
    pub decision: ExitDecision,
}

/// What the exit with code `ec` of thread `child` does, where `parent` is
/// the test itself, `child_parent` the traced process the thread belongs to
/// (where it is followed), `processes` the number of traced processes
/// before the exit, `follow_exec` whether programs the test runs are
/// followed, and `exit_code` the test's exit code where it already exited:
/// - the thread's process forgets it in its breakpoints;
/// - a process that exited itself is no longer followed, and its traces
///   join the test's unless it is the test;
/// - when the test exits, the run ends with its code where no traced
///   process is left or programs are not followed; otherwise its code is
///   kept and the tracer waits on;
/// - when another thread exits after the test, with no traced process
///   left, the run ends at once with the test's code; otherwise the test is
///   resumed where it can be.
pub open spec fn exited_spec(
    parent: i32,
    child: i32,
    ec: i32,
    child_parent: Option<i32>,
    processes: usize,
    follow_exec: bool,
    exit_code: Option<i32>,
) -> ExitOutcome {
    let removes = child_parent == Some(child);
    let left = if removes { processes - 1 } else { processes as int };
    let (keep, decision) = if child == parent {
        if left == 0 || !follow_exec {
            (None, ExitDecision::GoEnd(ec))
        } else {
            (Some(ec), ExitDecision::KeepWaiting(TracerAction::Nothing))
        }
    } else {
        match exit_code {
            Some(c) if left == 0 => (None, ExitDecision::EndNow(c)),
            _ => (None, ExitDecision::KeepWaiting(TracerAction::TryContinue(ProcessInfo { pid: parent, signal: None }))),
        }
    };
    ExitOutcome {
        threads_gone_from: child_parent,
        removed: if removes { Some(child) } else { None },
        merge_traces: removes && child != parent,
        keep_exit_code: keep,
        decision,
    }
}

/// Handles the exit with code `ec` of thread `child`; see `exited_spec`.
pub fn exited_outcome(
    parent: i32,
    child: i32,
    ec: i32,
    child_parent: Option<i32>,
    processes: usize,
    follow_exec: bool,
    exit_code: Option<i32>,
) -> (res: ExitOutcome)
    requires
        child_parent == Some(child) ==> processes >= 1,
    ensures
        res == exited_spec(parent, child, ec, child_parent, processes, follow_exec, exit_code),
{
    let removes = match child_parent {
        Some(p) => p == child,
        None => false,
    };
    let left: usize = if removes { processes - 1 } else { processes };
    let (keep, decision) = if child == parent {
        if left == 0 || !follow_exec {
            (None, ExitDecision::GoEnd(ec))
        } else {
            (Some(ec), ExitDecision::KeepWaiting(TracerAction::Nothing))
        }
    } else {
        match exit_code {
            Some(c) if left == 0 => (None, ExitDecision::EndNow(c)),
            _ => (None, ExitDecision::KeepWaiting(TracerAction::TryContinue(ProcessInfo { pid: parent, signal: None }))),
        }
    };
    ExitOutcome {
        threads_gone_from: child_parent,
        removed: if removes { Some(child) } else { None },
        merge_traces: removes && child != parent,
        keep_exit_code: keep,
        decision,
    }
}

/// The test exiting ends the run with its own code whenever no traced
/// process is left after it or programs the test runs are not followed.
pub proof fn lemma_test_exit_ends(parent: i32, ec: i32, child_parent: Option<i32>, processes: usize, exit_code: Option<i32>, follow_exec: bool)
    requires
        child_parent == Some(parent) ==> processes >= 1,
        !follow_exec || processes == (if child_parent == Some(parent) { 1usize } else { 0usize }),
    ensures
        exited_spec(parent, parent, ec, child_parent, processes, follow_exec, exit_code).decision == ExitDecision::GoEnd(ec),
{
}

} // verus!
