//! The states a traced test goes through, and how one leads to the next.
use vstd::prelude::*;
use std::time::Instant;
use crate::config::{Config, Timeout};
use crate::errors::{RunError, RunErrorView};

verus! {

#[verifier::external_type_specification]
#[verifier::external_body]
pub struct ExInstant(Instant);

/// The present moment (`Instant::now`). The clock decides it, so nothing is
/// promised of it.
#[verifier::external_body]
fn now() -> Instant {
    Instant::now()
}

/// The time gone by since `start` (`Instant::elapsed`), as whole seconds and
/// the nanoseconds beyond them. The clock decides it; only that the
/// nanoseconds stay below a second is promised.
#[verifier::external_body]
fn elapsed_since(start: &Instant) -> (res: (u64, u32))
    ensures
        res.1 < 1_000_000_000,
{
    let e = start.elapsed();
    (e.as_secs(), e.subsec_nanos())
}

/// A span of time in nanoseconds.
pub open spec fn timeout_nanos(t: Timeout) -> int {
    t.secs * 1_000_000_000 + t.nanos
}

/// Whether the time gone by, `secs` and `nanos`, has reached the timeout.
pub fn timeout_reached(secs: u64, nanos: u32, timeout: Timeout) -> (res: bool)
    ensures
        res == (secs * 1_000_000_000 + nanos >= timeout_nanos(timeout)),
{
    let gone: u128 = (secs as u128) * 1_000_000_000 + (nanos as u128);
    let limit: u128 = (timeout.secs as u128) * 1_000_000_000 + (timeout.nanos as u128);
    gone >= limit
}

/// The states of a test under coverage.
#[derive(Debug, Copy, Clone)]
pub enum TestState {
    /// Start state. Wait for test to appear and track time to enable timeout
    Start { start_time: Instant },
    /// Initialise: once test process appears instrument
    Initialise,
    /// Waiting for breakpoint to be hit or test to end
    Waiting { start_time: Instant },
    /// Test process stopped, check coverage
    Stopped,
    /// Test exited normally. Includes the exit code of the test executable.
    End(i32),
}

/// An action for the process tracing API to take, with the thread or
/// process it is for.
#[derive(Debug, Clone, Eq, PartialEq)]
pub enum TracerAction<T> {
    /// Continue whatever may be paused.
    TryContinue(T),
    Continue(T),
    Step(T),
    Detach(T),
    Nothing,
}

impl<T> TracerAction<T> {
    /// The thread or process the action is for, if any.
    pub fn get_data(&self) -> (res: Option<&T>)
        ensures
            match self {
                TracerAction::Continue(d) => res == Some(d),
                TracerAction::Step(d) => res == Some(d),
                TracerAction::Detach(d) => res == Some(d),
                TracerAction::TryContinue(d) => res == Some(d),
                TracerAction::Nothing => res is None,
            },
    {
        match self {
            TracerAction::Continue(d) => Some(d),
            TracerAction::Step(d) => Some(d),
            TracerAction::Detach(d) => Some(d),
            TracerAction::TryContinue(d) => Some(d),
            _ => None,
        }
    }
}

/// What a platform's tracing does in each state. The state machine calls
/// these and decides the next state from what they answer.
pub trait StateData {
    /// Starts the tracing; `None` while waiting for the start.
    fn start(&mut self) -> Result<Option<TestState>, RunError>;
    /// Initialises the test for tracing and gives the next state.
    fn init(&mut self) -> Result<TestState, RunError>;
    /// Waits for the test to have something to do; `None` if it has nothing yet.
    fn wait(&mut self) -> Result<Option<TestState>, RunError>;
    /// One last look, before a timeout is declared, at whether the test has
    /// in fact finished.
    fn last_wait_attempt(&mut self) -> Result<Option<TestState>, RunError>;
    /// Handles a stop of the test; coverage is collected here.
    fn stop(&mut self) -> Result<TestState, RunError>;
}

/// The message of a timeout while starting.
pub open spec fn start_timeout_message() -> Seq<char> {
    "Error: Timed out when starting test"@
}

/// The message of a timeout while waiting.
pub open spec fn wait_timeout_message() -> Seq<char> {
    "Error: Timed out waiting for test response"@
}

/// The state after a start attempt: the state the tracing gave, else a
/// timeout error once the time is up, else the same start state.
pub fn after_start(start_time: Instant, started: Option<TestState>, is_timed_out: bool) -> (res: Result<TestState, RunError>)
    ensures
        match started {
            Some(s) => res matches Ok(r) && r == s,
            None => if is_timed_out {
                res matches Err(e) && e@ == RunErrorView::TestRuntime(start_timeout_message())
            } else {
                res matches Ok(r) && r == (TestState::Start { start_time })
            },
        },
{
    match started {
        Some(s) => Ok(s),
        None => {
            if is_timed_out {
                Err(RunError::TestRuntime(String::from_str("Error: Timed out when starting test")))
            } else {
                Ok(TestState::Start { start_time })
            }
        },
    }
}

/// The state after a wait: the state the tracing gave; else, before the
/// time is up, the same waiting state; else what the last attempt (`last`)
/// gave: its error, its state, or a timeout error where it gave none.
pub fn after_wait(
    start_time: Instant,
    waited: Option<TestState>,
    is_timed_out: bool,
    last: Result<Option<TestState>, RunError>,
) -> (res: Result<TestState, RunError>)
    ensures
        match waited {
            Some(s) => res matches Ok(r) && r == s,
            None => if !is_timed_out {
                res matches Ok(r) && r == (TestState::Waiting { start_time })
            } else {
                match last {
                    Err(e) => res matches Err(f) && f@ == e@,
                    Ok(Some(s)) => res matches Ok(r) && r == s,
                    Ok(None) => res matches Err(e) && e@ == RunErrorView::TestRuntime(wait_timeout_message()),
                }
            },
        },
{
    match waited {
        Some(s) => Ok(s),
        None => {
            if !is_timed_out {
                Ok(TestState::Waiting { start_time })
            } else {
                match last {
                    Err(e) => Err(e),
                    Ok(Some(s)) => Ok(s),
                    Ok(None) => Err(RunError::TestRuntime(String::from_str("Error: Timed out waiting for test response"))),
                }
            }
        },
    }
}

/// What the tracing answered during one step (an error only as such), and
/// the clock reading taken, if any.
pub struct StepRecord {
    /// The answer of `start` or `wait`, where it was asked
    pub answer: Option<Result<Option<TestState>, ()>>,
    /// The time gone by since the state's start, as seconds and the
    /// nanoseconds beyond them, where it was read
    pub elapsed: Option<(u64, u32)>,
    /// The answer of the last attempt, where it was asked
    pub last: Option<Result<Option<TestState>, ()>>,
}

/// An answer of the tracing, with its error only as such.
fn record_answer(a: &Result<Option<TestState>, RunError>) -> (res: Result<Option<TestState>, ()>)
    ensures
        match a {
            Ok(o) => res == Ok::<Option<TestState>, ()>(*o),
            Err(_) => res is Err,
        },
{
    match a {
        Ok(o) => Ok(*o),
        Err(_) => Err(()),
    }
}

/// Whether the reading `r` (seconds, nanoseconds) has reached `timeout`.
pub open spec fn reached(r: (u64, u32), timeout: Timeout) -> bool {
    r.0 * 1_000_000_000 + r.1 >= timeout_nanos(timeout)
}

/// The outcome of a step from `st`, given what the tracing answered and
/// the clock read (`rec`) and the configured timeout:
/// - from `Start`: the tracing's error; the state it gave; else a timeout
///   error once the reading reaches the timeout; else the same start state;
/// - from `Waiting`: the tracing's error; the state it gave; else, before
///   the reading reaches the timeout, the same waiting state; else what the
///   last attempt gave (its error, its state, or a timeout error);
/// - from `End`: the same end state; from `Initialise` and `Stopped` the
///   tracing's answer, which nothing here constrains.
pub open spec fn step_outcome(st: TestState, res: Result<TestState, RunError>, rec: StepRecord, timeout: Timeout) -> bool {
    match st {
        TestState::Start { start_time } => match rec.answer {
            Some(Err(_)) => res is Err,
            Some(Ok(Some(s))) => res matches Ok(r) && r == s,
            Some(Ok(None)) => rec.elapsed matches Some(e) && (e.1 < 1_000_000_000 && if reached(e, timeout) {
                res matches Err(x) && x@ == RunErrorView::TestRuntime(start_timeout_message())
            } else {
                res matches Ok(r) && r == (TestState::Start { start_time })
            }),
            None => false,
        },
        TestState::Waiting { start_time } => match rec.answer {
            Some(Err(_)) => res is Err,
            Some(Ok(Some(s))) => res matches Ok(r) && r == s,
            Some(Ok(None)) => rec.elapsed matches Some(e) && (e.1 < 1_000_000_000 && if !reached(e, timeout) {
                rec.last is None && (res matches Ok(r) && r == (TestState::Waiting { start_time }))
            } else {
                match rec.last {
                    Some(Err(_)) => res is Err,
                    Some(Ok(Some(s))) => res matches Ok(r) && r == s,
                    Some(Ok(None)) => res matches Err(x) && x@ == RunErrorView::TestRuntime(wait_timeout_message()),
                    None => false,
                }
            }),
            None => false,
        },
        TestState::End(c) => res matches Ok(r) && r == TestState::End(c),
        _ => true,
    }
}

impl TestState {
    /// Whether the test has finished.
    pub fn is_finished(self) -> (res: bool)
        ensures
            res == (self is End),
    {
        match self {
            TestState::End(_) => true,
            _ => false,
        }
    }

    /// A start state from now on.
    pub fn start_state() -> (res: TestState)
        ensures
            res is Start,
    {
        TestState::Start { start_time: now() }
    }

    /// A waiting state from now on.
    pub fn wait_state() -> (res: TestState)
        ensures
            res is Waiting,
    {
        TestState::Waiting { start_time: now() }
    }

    /// Updates the state machine state, with a record of what the tracing
    /// answered and of the clock reading taken: see `step_outcome`. An
    /// ended test stays ended.
    pub fn step_recorded<T: StateData>(self, data: &mut T, config: &Config) -> (res: (
        Result<TestState, RunError>,
        StepRecord,
    ))
        ensures
            step_outcome(self, res.0, res.1, config.test_timeout),
    {
        match self {
            TestState::Start { start_time } => {
                let ans = data.start();
                let a = record_answer(&ans);
                match ans {
                    Err(e) => (Err(e), StepRecord { answer: Some(a), elapsed: None, last: None }),
                    Ok(Some(st)) => (after_start(start_time, Some(st), false), StepRecord {
                        answer: Some(a),
                        elapsed: None,
                        last: None,
                    }),
                    Ok(None) => {
                        let (secs, nanos) = elapsed_since(&start_time);
                        let t = timeout_reached(secs, nanos, config.test_timeout);
                        (after_start(start_time, None, t), StepRecord {
                            answer: Some(a),
                            elapsed: Some((secs, nanos)),
                            last: None,
                        })
                    },
                }
            },
            TestState::Initialise => (data.init(), StepRecord { answer: None, elapsed: None, last: None }),
            TestState::Waiting { start_time } => {
                let ans = data.wait();
                let a = record_answer(&ans);
                match ans {
                    Err(e) => (Err(e), StepRecord { answer: Some(a), elapsed: None, last: None }),
                    Ok(Some(st)) => (after_wait(start_time, Some(st), false, Ok(None)), StepRecord {
                        answer: Some(a),
                        elapsed: None,
                        last: None,
                    }),
                    Ok(None) => {
                        let (secs, nanos) = elapsed_since(&start_time);
                        if timeout_reached(secs, nanos, config.test_timeout) {
                            let last = data.last_wait_attempt();
                            let l = record_answer(&last);
                            (after_wait(start_time, None, true, last), StepRecord {
                                answer: Some(a),
                                elapsed: Some((secs, nanos)),
                                last: Some(l),
                            })
                        } else {
                            (after_wait(start_time, None, false, Ok(None)), StepRecord {
                                answer: Some(a),
                                elapsed: Some((secs, nanos)),
                                last: None,
                            })
                        }
                    },
                }
            },
            TestState::Stopped => (data.stop(), StepRecord { answer: None, elapsed: None, last: None }),
            TestState::End(e) => (Ok(TestState::End(e)), StepRecord { answer: None, elapsed: None, last: None }),
        }
    }

    /// Updates the state machine state; see `step_recorded`, whose record
    /// is dropped. An ended test stays ended.
    pub fn step<T: StateData>(self, data: &mut T, config: &Config) -> (res: Result<TestState, RunError>)
        ensures
            exists|r: StepRecord| step_outcome(self, res, r, config.test_timeout),
            self matches TestState::End(e) ==> (res matches Ok(r) && r == TestState::End(e)),
    {
        let (res, _rec) = self.step_recorded(data, config);
        res
    }
}

} // verus!
