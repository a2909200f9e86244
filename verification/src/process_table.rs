//! The processes and threads a ptrace session follows: which traced process
//! each thread belongs to, how many threads each has, and what the events
//! that the kernel reports about them (a thread or process created, an
//! exec, an exit) do to that record.
use vstd::prelude::*;
use std::collections::HashMap;
use crate::errors::{RunError, RunErrorView};
use crate::ptrace_decisions::ProcessInfo;
use crate::statemachine::TracerAction;
use crate::text::signed_decimal;

verus! {

broadcast use vstd::std_specs::hash::group_hash_axioms;

/// What is kept of a traced process.
#[derive(Debug, Copy, Clone, PartialEq, Eq, Structural)]
pub struct ProcessRecord {
    /// The threads it started, less those that exited
    pub thread_count: i64,
    /// Whether it is the test itself, rather than a program the test ran
    pub is_test_proc: bool,
}

/// An event the kernel reports about a traced thread.
#[derive(Debug, Copy, Clone, PartialEq, Eq, Structural)]
pub enum PtraceEvent {
    Clone,
    Fork,
    VFork,
    Exec,
    Exit,
    /// Any other event, by its number
    Other(i32),
}

/// What handling an event leads to.
pub enum EventOutcome {
    /// Keep waiting, after the action.
    Act(TracerAction<ProcessInfo>),
    /// Follow the program process `pid` now runs; where `continue_parent`
    /// names a process, resume it once the pending actions are carried out.
    FollowExec { pid: i32, continue_parent: Option<i32> },
    /// Handling the event failed.
    Fail(RunError),
}

/// The processes and threads being followed.
pub struct ProcessTable {
    /// For each thread, the traced process it belongs to
    pid_map: HashMap<i32, i32>,
    /// The traced processes, by their own id
    processes: HashMap<i32, ProcessRecord>,
}

/// The traced process `pid` belongs to: as recorded, else the one whose
/// tasks the system lists it among (`task_parent`).
pub open spec fn parent_of(pids: Map<i32, i32>, pid: i32, task_parent: Option<i32>) -> Option<i32> {
    if pids.dom().contains(pid) {
        Some(pids[pid])
    } else {
        task_parent
    }
}

/// The traced process `pid` belongs to, where it has a record.
pub open spec fn traced_of(pids: Map<i32, i32>, procs: Map<i32, ProcessRecord>, pid: i32, task_parent: Option<i32>) -> Option<
    i32,
> {
    match parent_of(pids, pid, task_parent) {
        Some(p) => if procs.dom().contains(p) {
            Some(p)
        } else {
            None
        },
        None => None,
    }
}

/// A record with its thread count moved by `delta`.
pub open spec fn counted(r: ProcessRecord, delta: int) -> ProcessRecord {
    ProcessRecord { thread_count: (r.thread_count + delta) as i64, ..r }
}

/// The message of an event the machine does not know.
pub open spec fn unknown_event_message(n: i32) -> Seq<char> {
    "Unrecognised ptrace event "@ + signed_decimal(n as int)
}

/// What an event about thread `child` does, where `trap` tells whether it
/// came with the trap signal, `data` is the event's data (the new thread or
/// process) where it could be read, and `task_parent` the process the system
/// lists `child` among: the new records, and the outcome.
///
/// A new thread counts for its traced process and is recorded as belonging
/// to it; reading no data of it fails. A fork is counted and recorded the
/// same way, where its data could be read. A vfork or an exec is followed
/// where exec'd programs are followed (a vfork then resumes its parent
/// afterwards where signals are forwarded); otherwise an exec'd process is
/// let go and a vforked one resumed. An exit is counted, and a thread that
/// is not a traced process itself is forgotten. Any other event, or an event
/// without the trap signal, is not expected.
pub open spec fn event_spec(
    pids: Map<i32, i32>,
    procs: Map<i32, ProcessRecord>,
    child: i32,
    trap: bool,
    event: PtraceEvent,
    data: Option<i32>,
    task_parent: Option<i32>,
    follow_exec: bool,
    forward_signals: bool,
) -> (Map<i32, i32>, Map<i32, ProcessRecord>, Option<TracerAction<ProcessInfo>>, Option<(i32, Option<i32>)>, Option<
    RunErrorView,
>) {
    let info = ProcessInfo { pid: child, signal: None };
    let traced = traced_of(pids, procs, child, task_parent);
    if !trap {
        (pids, procs, None, None, Some(RunErrorView::TestRuntime("Unexpected signal"@)))
    } else {
        match event {
            PtraceEvent::Clone => match data {
                Some(t) => match traced {
                    Some(p) => (
                        pids.insert(t, p),
                        procs.insert(p, counted(procs[p], 1)),
                        Some(TracerAction::Continue(info)),
                        None,
                        None,
                    ),
                    None => (pids, procs, Some(TracerAction::Continue(info)), None, None),
                },
                None => (
                    pids,
                    procs,
                    None,
                    None,
                    Some(RunErrorView::TestRuntime("Error occurred upon test executable thread creation"@)),
                ),
            },
            PtraceEvent::Fork => match (data, traced) {
                (Some(t), Some(p)) => (
                    pids.insert(t, p),
                    procs.insert(p, counted(procs[p], 1)),
                    Some(TracerAction::Continue(info)),
                    None,
                    None,
                ),
                _ => (pids, procs, Some(TracerAction::Continue(info)), None, None),
            },
            PtraceEvent::VFork => match data {
                Some(t) => if follow_exec {
                    (
                        pids,
                        procs,
                        None,
                        Some(
                            (
                                t,
                                if forward_signals {
                                    Some(child)
                                } else {
                                    None
                                },
                            ),
                        ),
                        None,
                    )
                } else {
                    (pids, procs, Some(TracerAction::Continue(info)), None, None)
                },
                None => (pids, procs, Some(TracerAction::Continue(info)), None, None),
            },
            PtraceEvent::Exec => if follow_exec {
                (pids, procs, None, Some((child, None)), None)
            } else {
                (pids, procs, Some(TracerAction::Detach(info)), None, None)
            },
            PtraceEvent::Exit => {
                let procs2 = match traced {
                    Some(p) => procs.insert(p, counted(procs[p], -1)),
                    None => procs,
                };
                let is_parent = traced == Some(child);
                (
                    if is_parent {
                        pids
                    } else {
                        pids.remove(child)
                    },
                    procs2,
                    Some(TracerAction::TryContinue(info)),
                    None,
                    None,
                )
            },
            PtraceEvent::Other(n) => (pids, procs, None, None, Some(RunErrorView::TestRuntime(unknown_event_message(n)))),
        }
    }
}

/// The view of an outcome: its action, the process to follow, or its error.
pub open spec fn outcome_view(o: EventOutcome) -> (Option<TracerAction<ProcessInfo>>, Option<(i32, Option<i32>)>, Option<
    RunErrorView,
>) {
    match o {
        EventOutcome::Act(a) => (Some(a), None, None),
        EventOutcome::FollowExec { pid, continue_parent } => (None, Some((pid, continue_parent)), None),
        EventOutcome::Fail(e) => (None, None, Some(e@)),
    }
}

impl ProcessTable {
    /// For each thread, the traced process it belongs to.
    pub closed spec fn threads(&self) -> Map<i32, i32> {
        self.pid_map@
    }

    /// The traced processes, by their own id.
    pub closed spec fn records(&self) -> Map<i32, ProcessRecord> {
        self.processes@
    }

    /// No thread count is at either end of its range.
    pub open spec fn counts_bounded(&self) -> bool {
        forall|p: i32|
            #![trigger self.records()[p]]
            self.records().dom().contains(p) ==> i64::MIN < self.records()[p].thread_count < i64::MAX
    }

    /// A table of no processes.
    pub fn new() -> (res: ProcessTable)
        ensures
            res.threads() == Map::<i32, i32>::empty(),
            res.records() == Map::<i32, ProcessRecord>::empty(),
    {
        ProcessTable { pid_map: HashMap::new(), processes: HashMap::new() }
    }

    /// Starts following process `pid`, which belongs to itself.
    pub fn add_process(&mut self, pid: i32, is_test_proc: bool)
        ensures
            final(self).threads() == old(self).threads().insert(pid, pid),
            final(self).records() == old(self).records().insert(
                pid,
                ProcessRecord { thread_count: 0, is_test_proc },
            ),
    {
        self.pid_map.insert(pid, pid);
        self.processes.insert(pid, ProcessRecord { thread_count: 0, is_test_proc });
    }

    /// The traced process `pid` belongs to: as recorded, else
    /// `task_parent`, the one whose tasks the system lists it among.
    pub fn get_parent(&self, pid: i32, task_parent: Option<i32>) -> (res: Option<i32>)
        ensures
            res == parent_of(self.threads(), pid, task_parent),
    {
        match self.pid_map.get(&pid) {
            Some(p) => Some(*p),
            None => task_parent,
        }
    }

    /// Where the traced process of `pid` has a record, whether it is the
    /// test itself.
    pub fn parent_is_test(&self, pid: i32, task_parent: Option<i32>) -> (res: Option<bool>)
        ensures
            res == match traced_of(self.threads(), self.records(), pid, task_parent) {
                Some(p) => Some(self.records()[p].is_test_proc),
                None => None,
            },
    {
        match self.get_parent(pid, task_parent) {
            Some(p) => match self.processes.get(&p) {
                Some(r) => Some(r.is_test_proc),
                None => None,
            },
            None => None,
        }
    }

    fn traced(&self, pid: i32, task_parent: Option<i32>) -> (res: Option<i32>)
        ensures
            res == traced_of(self.threads(), self.records(), pid, task_parent),
    {
        match self.get_parent(pid, task_parent) {
            Some(p) => if self.processes.contains_key(&p) {
                Some(p)
            } else {
                None
            },
            None => None,
        }
    }

    /// Handles an event about thread `child`; see `event_spec`.
    pub fn handle_ptrace_event(
        &mut self,
        child: i32,
        trap: bool,
        event: PtraceEvent,
        data: Option<i32>,
        task_parent: Option<i32>,
        follow_exec: bool,
        forward_signals: bool,
    ) -> (res: EventOutcome)
        requires
            old(self).counts_bounded(),
        ensures
            ({
                let e = event_spec(
                    old(self).threads(),
                    old(self).records(),
                    child,
                    trap,
                    event,
                    data,
                    task_parent,
                    follow_exec,
                    forward_signals,
                );
                &&& final(self).threads() == e.0
                &&& final(self).records() == e.1
                &&& outcome_view(res) == (e.2, e.3, e.4)
            }),
    {
        let info = ProcessInfo { pid: child, signal: None };
        if !trap {
            proof {
                reveal_strlit("Unexpected signal");
            }
            return EventOutcome::Fail(RunError::TestRuntime(String::from_str("Unexpected signal")));
        }
        let traced = self.traced(child, task_parent);
        match event {
            PtraceEvent::Clone => match data {
                Some(t) => {
                    match traced {
                        Some(p) => {
                            let r = *self.processes.get(&p).unwrap();
                            self.processes.insert(p, ProcessRecord { thread_count: r.thread_count + 1, ..r });
                            self.pid_map.insert(t, p);
                        },
                        None => {},
                    }
                    EventOutcome::Act(TracerAction::Continue(info))
                },
                None => {
                    proof {
                        reveal_strlit("Error occurred upon test executable thread creation");
                    }
                    EventOutcome::Fail(
                        RunError::TestRuntime(String::from_str("Error occurred upon test executable thread creation")),
                    )
                },
            },
            PtraceEvent::Fork => {
                match (data, traced) {
                    (Some(t), Some(p)) => {
                        let r = *self.processes.get(&p).unwrap();
                        self.processes.insert(p, ProcessRecord { thread_count: r.thread_count + 1, ..r });
                        self.pid_map.insert(t, p);
                    },
                    _ => {},
                }
                EventOutcome::Act(TracerAction::Continue(info))
            },
            PtraceEvent::VFork => match data {
                Some(t) => if follow_exec {
                    EventOutcome::FollowExec {
                        pid: t,
                        continue_parent: if forward_signals {
                            Some(child)
                        } else {
                            None
                        },
                    }
                } else {
                    EventOutcome::Act(TracerAction::Continue(info))
                },
                None => EventOutcome::Act(TracerAction::Continue(info)),
            },
            PtraceEvent::Exec => if follow_exec {
                EventOutcome::FollowExec { pid: child, continue_parent: None }
            } else {
                EventOutcome::Act(TracerAction::Detach(info))
            },
            PtraceEvent::Exit => {
                match traced {
                    Some(p) => {
                        let r = *self.processes.get(&p).unwrap();
                        self.processes.insert(p, ProcessRecord { thread_count: r.thread_count - 1, ..r });
                    },
                    None => {},
                }
                let is_parent = traced == Some(child);
                if !is_parent {
                    self.pid_map.remove(&child);
                }
                EventOutcome::Act(TracerAction::TryContinue(info))
            },
            PtraceEvent::Other(n) => {
                let mut m = String::from_str("Unrecognised ptrace event ");
                m.append(crate::text::i32_text(n).as_str());
                proof {
                    reveal_strlit("Unrecognised ptrace event ");
                }
                EventOutcome::Fail(RunError::TestRuntime(m))
            },
        }
    }
}

/// A thread that was created and then exited leaves the records as they
/// were: its process's thread count is back where it began, and the thread
/// is forgotten.
pub proof fn lemma_clone_then_exit(
    pids: Map<i32, i32>,
    procs: Map<i32, ProcessRecord>,
    parent: i32,
    t: i32,
)
    requires
        pids.dom().contains(parent),
        pids[parent] == parent,
        procs.dom().contains(parent),
        !pids.dom().contains(t),
        t != parent,
        i64::MIN < procs[parent].thread_count < i64::MAX,
    ensures
        ({
            let a = event_spec(pids, procs, parent, true, PtraceEvent::Clone, Some(t), None, false, false);
            let b = event_spec(a.0, a.1, t, true, PtraceEvent::Exit, None, None, false, false);
            &&& b.0 == pids
            &&& b.1 == procs
        }),
{
    let a = event_spec(pids, procs, parent, true, PtraceEvent::Clone, Some(t), None, false, false);
    assert(a.0 == pids.insert(t, parent));
    let b = event_spec(a.0, a.1, t, true, PtraceEvent::Exit, None, None, false, false);
    assert(b.0 =~= pids);
    assert(b.1 =~= procs);
}

} // verus!
